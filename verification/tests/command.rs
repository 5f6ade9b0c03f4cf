use file_explorer::cache::DirectoryCache;
use file_explorer::delegate::{
    preload_parent_and_siblings, Command, DiskReading, Effect, FileExplorerDelegate, ReadPlan,
};
use file_explorer::file_system::get_directory_contents;
use file_explorer::history::NavigationHistory;
use file_explorer::models::{AppState, FileDetail, FileItem, NodeKind, RawEntry};
use file_explorer::path::FsPath;

fn path(text: &str) -> FsPath {
    FsPath::new(
        "/".to_string(),
        text.split('/').filter(|s| !s.is_empty()).map(|s| s.to_string()).collect(),
    )
}

fn file(name: &str) -> RawEntry {
    RawEntry { name: name.to_string(), is_dir: false, size: 1, modified: None, children: Vec::new() }
}

fn dir(name: &str) -> RawEntry {
    RawEntry { name: name.to_string(), is_dir: true, size: 0, modified: None, children: Vec::new() }
}

fn files(count: usize) -> Vec<RawEntry> {
    (0..count).map(|i| file(&format!("f{:03}", i))).collect()
}

fn node(text: &str, children: Vec<FileItem>) -> FileItem {
    let p = path(text);
    FileItem {
        name: p.file_name().unwrap_or_else(|| "/".to_string()),
        is_expanded: false,
        is_loaded: !children.is_empty(),
        children,
        path: p,
        is_selected: false,
        kind: NodeKind::Directory,
    }
}

fn state() -> AppState {
    let mut history = NavigationHistory::new();
    history.push(path("/home"));
    AppState {
        root: node("/", vec![node("/home", vec![node("/home/ann", vec![]), node("/home/bob", vec![])])]),
        selected_path: Some(path("/home")),
        current_dir_files: Vec::new(),
        history,
    }
}

fn reading(entries: Vec<RawEntry>) -> DiskReading {
    DiskReading {
        now: 1_000,
        is_directory: true,
        entries,
        parent_entries: Vec::new(),
        roots: Vec::new(),
        home: None,
    }
}

fn names(listing: &[FileDetail]) -> Vec<String> {
    listing.iter().map(|d| d.name.clone()).collect()
}

#[test]
fn preloading_names_the_parent_and_the_sibling_directories() {
    let parent_entries = vec![dir("ann"), file("notes.txt"), dir("bob"), dir(".hidden"), dir("cyd")];
    let targets = preload_parent_and_siblings(&path("/home/bob"), &parent_entries);
    assert_eq!(
        targets,
        vec![path("/home"), path("/home/ann"), path("/home/.hidden"), path("/home/cyd")]
    );
}

#[test]
fn preloading_a_root_names_nothing() {
    assert!(preload_parent_and_siblings(&path("/"), &vec![dir("a")]).is_empty());
}

#[test]
fn preloading_with_an_unreadable_parent_names_the_parent_alone() {
    assert_eq!(preload_parent_and_siblings(&path("/home/bob"), &Vec::new()), vec![path("/home")]);
}

#[test]
fn navigate_to_shows_the_directory_and_asks_for_preloads() {
    let mut delegate = FileExplorerDelegate;
    let mut data = state();
    let mut cache = DirectoryCache::new();
    let mut read = reading(vec![file("b.txt"), dir("A"), dir(".git"), file("a.txt")]);
    read.parent_entries = vec![dir("ann"), dir("bob"), file("x")];
    let cmd = Command::NavigateTo(path("/home/ann"));
    assert_eq!(delegate.subject(&cmd, &data, &None), Some(path("/home/ann")));
    let outcome = delegate.command(cmd, &mut data, &mut cache, read);
    assert!(outcome.handled);
    assert_eq!(
        outcome.effects,
        vec![Effect::Preload(path("/home")), Effect::Preload(path("/home/bob"))]
    );
    assert_eq!(names(&data.current_dir_files), vec!["A", "a.txt", "b.txt"]);
    assert_eq!(data.selected_path, Some(path("/home/ann")));
    assert!(data.root.children[0].children[0].is_selected);
    assert!(data.root.children[0].is_expanded);
    assert_eq!(data.history.len(), 1);
    assert!(cache.contains(&path("/home/ann")));
}

#[test]
fn open_file_leaves_the_opening_to_the_driver() {
    let mut delegate = FileExplorerDelegate;
    let mut data = state();
    let mut cache = DirectoryCache::new();
    let cmd = Command::OpenFile(path("/home/ann/a.txt"));
    assert_eq!(delegate.subject(&cmd, &data, &None), None);
    let outcome = delegate.command(cmd, &mut data, &mut cache, reading(Vec::new()));
    assert!(outcome.handled);
    assert_eq!(outcome.effects, vec![Effect::OpenFile(path("/home/ann/a.txt"))]);
    assert_eq!(data.selected_path, Some(path("/home")));
    assert_eq!(cache.len(), 0);
}

#[test]
fn select_directory_records_the_visit() {
    let mut delegate = FileExplorerDelegate;
    let mut data = state();
    let mut cache = DirectoryCache::new();
    let outcome =
        delegate.command(Command::SelectDirectory(path("/home/bob")), &mut data, &mut cache, reading(files(30)));
    assert!(outcome.handled);
    assert!(outcome.effects.is_empty());
    assert_eq!(data.current_dir_files.len(), 30);
    assert_eq!(data.selected_path, Some(path("/home/bob")));
    assert_eq!(data.history.len(), 2);
    assert_eq!(data.history.current(), Some(&path("/home/bob")));
    assert!(data.root.children[0].children[1].is_selected);
}

#[test]
fn select_directory_asks_for_the_rest_of_a_large_directory() {
    let mut delegate = FileExplorerDelegate;
    let mut data = state();
    let mut cache = DirectoryCache::new();
    let mut entries = files(31);
    entries.push(file(".hidden"));
    let outcome =
        delegate.command(Command::SelectDirectory(path("/home/bob")), &mut data, &mut cache, reading(entries));
    assert_eq!(outcome.effects, vec![Effect::LoadRemainder(path("/home/bob"))]);
    assert_eq!(data.current_dir_files.len(), 30);
    assert_eq!(cache.get(&path("/home/bob")).map(|l| l.len()), Some(31));
}

#[test]
fn hidden_entries_do_not_make_a_directory_large() {
    let mut delegate = FileExplorerDelegate;
    let mut data = state();
    let mut cache = DirectoryCache::new();
    let mut entries = files(30);
    entries.push(file(".a"));
    entries.push(file(".b"));
    let outcome =
        delegate.command(Command::SelectDirectory(path("/home/bob")), &mut data, &mut cache, reading(entries));
    assert!(outcome.effects.is_empty());
}

#[test]
fn selecting_what_is_no_directory_shows_nothing_and_records_nothing() {
    let mut delegate = FileExplorerDelegate;
    let mut data = state();
    data.current_dir_files = get_directory_contents(&mut DirectoryCache::new(), &path("/home"), files(2), 1);
    let mut cache = DirectoryCache::new();
    let mut read = reading(Vec::new());
    read.is_directory = false;
    let outcome = delegate.command(Command::SelectDirectory(path("/home/ann")), &mut data, &mut cache, read);
    assert!(outcome.handled);
    assert!(outcome.effects.is_empty());
    assert!(data.current_dir_files.is_empty());
    assert_eq!(data.selected_path, Some(path("/home")));
    assert_eq!(data.history.len(), 1);
    assert!(data.root.children[0].children[0].is_selected);
}

#[test]
fn load_subdirectories_opens_the_node() {
    let mut delegate = FileExplorerDelegate;
    let mut data = state();
    let mut cache = DirectoryCache::new();
    let outcome = delegate.command(
        Command::LoadSubdirectories(path("/home/ann")),
        &mut data,
        &mut cache,
        reading(vec![dir("docs"), file("x"), dir("art")]),
    );
    assert!(outcome.handled);
    assert!(outcome.effects.is_empty());
    let ann = &data.root.children[0].children[0];
    assert!(ann.is_expanded);
    assert_eq!(ann.children.len(), 2);
    assert_eq!(ann.children[0].name, "art");
    assert_eq!(cache.len(), 0);
    assert_eq!(data.selected_path, Some(path("/home")));
}

#[test]
fn reset_cursor_is_handled_and_changes_nothing() {
    let mut delegate = FileExplorerDelegate;
    let mut data = state();
    let mut cache = DirectoryCache::new();
    let outcome = delegate.command(Command::ResetCursor, &mut data, &mut cache, reading(files(3)));
    assert!(outcome.handled);
    assert!(outcome.effects.is_empty());
    assert!(data.current_dir_files.is_empty());
    assert_eq!(data.root, state().root);
    assert_eq!(cache.len(), 0);
}

#[test]
fn update_file_list_puts_the_entries_on_display() {
    let mut delegate = FileExplorerDelegate;
    let mut data = state();
    let mut cache = DirectoryCache::new();
    let listing = get_directory_contents(&mut DirectoryCache::new(), &path("/home"), files(5), 1);
    let outcome = delegate.command(Command::UpdateFileList(listing.clone()), &mut data, &mut cache, reading(Vec::new()));
    assert!(outcome.handled);
    assert_eq!(data.current_dir_files, listing);
    assert_eq!(cache.len(), 0);
}

#[test]
fn navigate_up_shows_the_parent_and_records_it() {
    let mut delegate = FileExplorerDelegate;
    let mut data = state();
    let mut cache = DirectoryCache::new();
    assert_eq!(delegate.subject(&Command::NavigateUp, &data, &None), Some(path("/")));
    let outcome = delegate.command(Command::NavigateUp, &mut data, &mut cache, reading(vec![dir("home"), dir("usr")]));
    assert!(outcome.handled);
    assert_eq!(names(&data.current_dir_files), vec!["home", "usr"]);
    assert_eq!(data.selected_path, Some(path("/")));
    assert_eq!(data.history.len(), 2);
    assert!(data.root.is_selected);
}

#[test]
fn navigate_up_from_a_root_changes_nothing() {
    let mut delegate = FileExplorerDelegate;
    let mut data = state();
    data.selected_path = Some(path("/"));
    let mut cache = DirectoryCache::new();
    assert_eq!(delegate.subject(&Command::NavigateUp, &data, &None), None);
    let outcome = delegate.command(Command::NavigateUp, &mut data, &mut cache, reading(files(3)));
    assert!(outcome.handled);
    assert_eq!(data.selected_path, Some(path("/")));
    assert_eq!(data.history.len(), 1);
    assert!(data.current_dir_files.is_empty());
    assert_eq!(cache.len(), 0);
}

#[test]
fn navigate_back_and_forward_walk_the_history() {
    let mut delegate = FileExplorerDelegate;
    let mut data = state();
    let mut cache = DirectoryCache::new();
    delegate.command(Command::SelectDirectory(path("/home/ann")), &mut data, &mut cache, reading(files(1)));
    assert_eq!(delegate.subject(&Command::NavigateForward, &data, &None), None);
    assert_eq!(delegate.subject(&Command::NavigateBack, &data, &None), Some(path("/home")));
    let outcome = delegate.command(Command::NavigateBack, &mut data, &mut cache, reading(files(2)));
    assert!(outcome.handled);
    assert_eq!(data.selected_path, Some(path("/home")));
    assert_eq!(data.current_dir_files.len(), 2);
    assert_eq!(data.history.position(), 0);
    assert_eq!(data.history.len(), 2);
    assert!(data.root.children[0].is_selected);
    assert_eq!(delegate.subject(&Command::NavigateBack, &data, &None), None);
    assert_eq!(delegate.subject(&Command::NavigateForward, &data, &None), Some(path("/home/ann")));
    delegate.command(Command::NavigateForward, &mut data, &mut cache, reading(files(1)));
    assert_eq!(data.selected_path, Some(path("/home/ann")));
    assert_eq!(data.history.position(), 1);
    assert!(data.root.children[0].children[0].is_selected);
}

#[test]
fn navigate_back_at_the_oldest_path_changes_nothing() {
    let mut delegate = FileExplorerDelegate;
    let mut data = state();
    let mut cache = DirectoryCache::new();
    let outcome = delegate.command(Command::NavigateBack, &mut data, &mut cache, reading(files(2)));
    assert!(outcome.handled);
    assert_eq!(data.selected_path, Some(path("/home")));
    assert!(data.current_dir_files.is_empty());
    assert_eq!(data.history.position(), 0);
    assert_eq!(cache.len(), 0);
}

#[test]
fn refresh_reads_the_shown_directory_anew() {
    let mut delegate = FileExplorerDelegate;
    let mut data = state();
    let mut cache = DirectoryCache::new();
    data.current_dir_files = get_directory_contents(&mut cache, &path("/home"), files(40), 1);
    assert_eq!(data.current_dir_files[0].name, "f000");
    assert_eq!(delegate.subject(&Command::RefreshDirectory, &data, &None), Some(path("/home")));
    let outcome = delegate.command(
        Command::RefreshDirectory,
        &mut data,
        &mut cache,
        reading(vec![file("new.txt")]),
    );
    assert!(outcome.handled);
    assert_eq!(names(&data.current_dir_files), vec!["new.txt"]);
    assert_eq!(cache.captured_at(&path("/home")), Some(1_000));
    assert_eq!(data.history.len(), 1);
}

#[test]
fn navigate_home_shows_the_home_directory() {
    let mut delegate = FileExplorerDelegate;
    let mut data = state();
    let mut cache = DirectoryCache::new();
    let home = Some(path("/home/ann"));
    assert_eq!(delegate.subject(&Command::NavigateHome, &data, &home), Some(path("/home/ann")));
    let mut read = reading(files(4));
    read.home = home;
    let outcome = delegate.command(Command::NavigateHome, &mut data, &mut cache, read);
    assert!(outcome.handled);
    assert_eq!(data.selected_path, Some(path("/home/ann")));
    assert_eq!(data.current_dir_files.len(), 4);
    assert_eq!(data.history.len(), 2);
}

#[test]
fn navigate_home_without_a_home_changes_nothing() {
    let mut delegate = FileExplorerDelegate;
    let mut data = state();
    let mut cache = DirectoryCache::new();
    let outcome = delegate.command(Command::NavigateHome, &mut data, &mut cache, reading(files(4)));
    assert!(outcome.handled);
    assert_eq!(data.selected_path, Some(path("/home")));
    assert_eq!(data.history.len(), 1);
}

#[test]
fn an_unknown_command_is_not_handled() {
    let mut delegate = FileExplorerDelegate;
    let mut data = state();
    let mut cache = DirectoryCache::new();
    assert_eq!(delegate.subject(&Command::Other, &data, &Some(path("/h"))), None);
    let outcome = delegate.command(Command::Other, &mut data, &mut cache, reading(files(4)));
    assert!(!outcome.handled);
    assert!(outcome.effects.is_empty());
    assert_eq!(data.root, state().root);
    assert!(data.current_dir_files.is_empty());
    assert_eq!(cache.len(), 0);
}

#[test]
fn the_state_walks_its_history() {
    let mut data = state();
    assert!(!data.can_navigate_back());
    assert!(!data.can_navigate_forward());
    data.add_to_history(path("/home"));
    assert_eq!(data.history.len(), 1);
    data.add_to_history(path("/usr"));
    assert_eq!(data.history.len(), 2);
    assert!(data.can_navigate_back());
    assert_eq!(data.navigate_back(), Some(path("/home")));
    assert!(data.can_navigate_forward());
    assert_eq!(data.navigate_back(), None);
    assert_eq!(data.navigate_forward(), Some(path("/usr")));
    assert_eq!(data.navigate_forward(), None);
    assert_eq!(data.selected_path, Some(path("/home")));
}

fn plan_for(cmd: &Command, data: &AppState, cache: &DirectoryCache) -> ReadPlan {
    FileExplorerDelegate.plan(cmd, data, cache, &Some(path("/home/ann")))
}

#[test]
fn a_command_without_a_subject_needs_nothing_read() {
    let data = state();
    let cache = DirectoryCache::new();
    for cmd in [Command::OpenFile(path("/f")), Command::ResetCursor, Command::Other, Command::NavigateBack] {
        let plan = plan_for(&cmd, &data, &cache);
        assert_eq!(plan.subject, None);
        assert!(!plan.entries && !plan.parent_entries && !plan.roots);
    }
}

#[test]
fn showing_a_directory_needs_its_entries_on_a_miss_only() {
    let data = state();
    let mut cache = DirectoryCache::new();
    let plan = plan_for(&Command::NavigateHome, &data, &cache);
    assert_eq!(plan.subject, Some(path("/home/ann")));
    assert!(plan.entries);
    assert!(!plan.parent_entries && !plan.roots);
    get_directory_contents(&mut cache, &path("/home/ann"), files(30), 1);
    assert!(!plan_for(&Command::NavigateHome, &data, &cache).entries);
    let plan = plan_for(&Command::NavigateTo(path("/home/ann")), &data, &cache);
    assert!(!plan.entries);
    assert!(plan.parent_entries);
    assert!(!plan_for(&Command::NavigateTo(path("/")), &data, &cache).parent_entries);
    assert!(plan_for(&Command::NavigateUp, &data, &cache).entries);
}

#[test]
fn selecting_and_refreshing_always_need_the_entries() {
    let data = state();
    let mut cache = DirectoryCache::new();
    get_directory_contents(&mut cache, &path("/home"), files(30), 1);
    get_directory_contents(&mut cache, &path("/home/ann"), files(30), 1);
    assert!(plan_for(&Command::SelectDirectory(path("/home/ann")), &data, &cache).entries);
    let plan = plan_for(&Command::RefreshDirectory, &data, &cache);
    assert_eq!(plan.subject, Some(path("/home")));
    assert!(plan.entries);
}

#[test]
fn opening_a_node_needs_its_entries_while_it_is_unloaded() {
    let data = state();
    let cache = DirectoryCache::new();
    let plan = plan_for(&Command::LoadSubdirectories(path("/home/ann")), &data, &cache);
    assert!(plan.entries);
    assert!(!plan.roots && !plan.parent_entries);
    assert!(!plan_for(&Command::LoadSubdirectories(path("/home")), &data, &cache).entries);
    assert!(!plan_for(&Command::LoadSubdirectories(path("/var")), &data, &cache).entries);
}

#[test]
fn opening_a_node_needs_the_roots_while_the_group_is_empty() {
    let mut data = state();
    data.root.children.push(FileItem {
        name: "This Machine".to_string(),
        is_expanded: true,
        is_loaded: true,
        children: Vec::new(),
        path: FsPath::new(String::new(), Vec::new()),
        is_selected: false,
        kind: NodeKind::RootGroup,
    });
    let cache = DirectoryCache::new();
    let plan = plan_for(&Command::LoadSubdirectories(path("/var")), &data, &cache);
    assert!(plan.roots);
    assert!(!plan.entries);
}

#[test]
fn a_reading_covers_a_plan_that_asks_for_no_more() {
    let nothing = ReadPlan::nothing();
    assert!(nothing.covers(&ReadPlan::nothing()));
    let wants = ReadPlan { subject: Some(path("/a")), entries: true, parent_entries: false, roots: false };
    assert!(!nothing.covers(&wants));
    assert!(wants.covers(&wants));
    let less = ReadPlan { subject: Some(path("/a")), entries: false, parent_entries: false, roots: false };
    assert!(wants.covers(&less));
    assert!(!less.covers(&wants));
    let elsewhere = ReadPlan { subject: Some(path("/b")), entries: true, parent_entries: true, roots: true };
    assert!(!elsewhere.covers(&wants));
    assert!(!wants.covers(&nothing));
    let all = ReadPlan { subject: Some(path("/a")), entries: true, parent_entries: true, roots: true };
    assert!(all.covers(&wants));
    assert!(!wants.covers(&all));
}
