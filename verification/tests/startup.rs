use file_explorer::cache::DirectoryCache;
use file_explorer::models::{NodeKind, RawEntry};
use file_explorer::path::FsPath;
use file_explorer::startup::{create_initial_state, start_directory, StartingPlaces};

fn path(text: &str) -> FsPath {
    FsPath::new(
        "/".to_string(),
        text.split('/').filter(|s| !s.is_empty()).map(|s| s.to_string()).collect(),
    )
}

fn file(name: &str) -> RawEntry {
    RawEntry { name: name.to_string(), is_dir: false, size: 1, modified: None, children: Vec::new() }
}

fn dir(name: &str, children: Vec<RawEntry>) -> RawEntry {
    RawEntry { name: name.to_string(), is_dir: true, size: 0, modified: None, children }
}

fn places() -> StartingPlaces {
    StartingPlaces {
        roots: vec![dir("/", vec![dir("usr", vec![]), dir("home", vec![]), file("vmlinuz")])],
        home: path("/home/ann"),
        home_entries: vec![dir("Desktop", vec![]), dir("Music", vec![]), file(".profile")],
        desktop: path("/home/ann/Desktop"),
        desktop_entries: vec![dir("work", vec![])],
        fallback: path("/tmp"),
        start_entries: vec![dir("usr", vec![]), dir("home", vec![]), file("vmlinuz")],
        now: 5,
    }
}

#[test]
fn the_browser_starts_in_the_first_root() {
    let p = places();
    assert_eq!(start_directory(&p.roots, &p.fallback), path("/"));
    assert_eq!(start_directory(&Vec::new(), &p.fallback), path("/tmp"));
}

#[test]
fn the_initial_state_shows_the_start_directory() {
    let mut cache = DirectoryCache::new();
    let state = create_initial_state(&mut cache, places());
    assert_eq!(state.selected_path, Some(path("/")));
    let shown: Vec<String> = state.current_dir_files.iter().map(|d| d.name.clone()).collect();
    assert_eq!(shown, vec!["home", "usr", "vmlinuz"]);
    assert_eq!(state.history.len(), 1);
    assert_eq!(state.history.position(), 0);
    assert_eq!(state.history.current(), Some(&path("/")));
    assert_eq!(cache.captured_at(&path("/")), Some(5));
}

#[test]
fn the_initial_tree_has_home_desktop_and_the_machine() {
    let mut cache = DirectoryCache::new();
    let state = create_initial_state(&mut cache, places());
    let root = &state.root;
    assert_eq!(root.name, "Files");
    assert_eq!(root.kind, NodeKind::Category);
    assert!(root.is_expanded);
    assert!(!root.is_selected);
    assert_eq!(root.children.len(), 3);
    let home = &root.children[0];
    assert_eq!(home.name, "Home");
    assert_eq!(home.path, path("/home/ann"));
    assert!(!home.is_expanded);
    assert!(home.is_loaded);
    assert_eq!(home.children.len(), 2);
    assert_eq!(home.children[0].name, "Desktop");
    let desktop = &root.children[1];
    assert_eq!(desktop.name, "Desktop");
    assert!(desktop.is_expanded);
    assert_eq!(desktop.children[0].path, path("/home/ann/Desktop/work"));
    let machine = &root.children[2];
    assert_eq!(machine.name, "This Machine");
    assert_eq!(machine.kind, NodeKind::RootGroup);
    assert!(machine.is_expanded);
    assert_eq!(machine.children.len(), 1);
    assert!(machine.children[0].is_selected);
    assert!(machine.children[0].is_expanded);
    assert_eq!(machine.children[0].children.len(), 2);
    assert!(!home.is_selected);
}

#[test]
fn without_roots_the_browser_starts_in_the_fallback() {
    let mut cache = DirectoryCache::new();
    let mut p = places();
    p.roots = Vec::new();
    p.start_entries = vec![file("scratch")];
    let state = create_initial_state(&mut cache, p);
    assert_eq!(state.selected_path, Some(path("/tmp")));
    assert_eq!(state.current_dir_files.len(), 1);
    assert!(state.root.children[2].children.is_empty());
    assert!(cache.contains(&path("/tmp")));
}
