//! The state in which the browser starts.

use vstd::prelude::*;
use crate::cache::{cache_valid, DirectoryCache, SlotView};
use crate::tree::{selected, update_selection};
use crate::file_system::{
    build_file_tree, cache_after_request, drives_of, get_directory_contents, get_drives,
    requested_page, tree_of, PAGE_SIZE,
};
use crate::history::{history_valid, HistoryView, NavigationHistory};
use crate::models::{raws_of, AppState, AppView, FileItem, NodeKind, NodeView, RawEntry, RawView};
use crate::path::{FsPath, PathView};

verus! {

/// What was read for the start.
pub ghost struct PlacesView {
    pub roots: Seq<RawView>,
    pub home: PathView,
    pub home_entries: Seq<RawView>,
    pub desktop: PathView,
    pub desktop_entries: Seq<RawView>,
    pub fallback: PathView,
    pub start_entries: Seq<RawView>,
    pub now: u64,
}

/// What whoever drives the browser has read for its start.
///
/// `roots` are the roots of the machine, each a raw entry named as the
/// root is that holds the entries of its first level. `home` and
/// `desktop` are the two directories of the user with their raw entries.
/// `fallback` is the directory to start in where the machine shows no
/// root, and `start_entries` are the raw entries of the directory that
/// `start_directory` names. `now` is the time of the reading in seconds.
#[derive(Debug)]
pub struct StartingPlaces {
    pub roots: Vec<RawEntry>,
    pub home: FsPath,
    pub home_entries: Vec<RawEntry>,
    pub desktop: FsPath,
    pub desktop_entries: Vec<RawEntry>,
    pub fallback: FsPath,
    pub start_entries: Vec<RawEntry>,
    pub now: u64,
}

impl View for StartingPlaces {
    type V = PlacesView;

    open spec fn view(&self) -> PlacesView {
        PlacesView {
            roots: raws_of(self.roots@),
            home: self.home@,
            home_entries: raws_of(self.home_entries@),
            desktop: self.desktop@,
            desktop_entries: raws_of(self.desktop_entries@),
            fallback: self.fallback@,
            start_entries: raws_of(self.start_entries@),
            now: self.now,
        }
    }
}

/// The path that the made-up nodes carry: no root and no segments.
pub open spec fn no_path() -> PathView {
    PathView { root: Seq::empty(), segments: Seq::empty() }
}

/// The directory that the browser shows first: the first root of the
/// machine, or the fallback where there is no root.
pub open spec fn start_of(roots: Seq<RawView>, fallback: PathView) -> PathView {
    if roots.len() > 0 {
        PathView { root: roots[0].name, segments: Seq::empty() }
    } else {
        fallback
    }
}

/// The node of one of the user's directories, with the directories of
/// its first level as children.
pub open spec fn place_node(
    name: Seq<char>,
    path: PathView,
    entries: Seq<RawView>,
    is_expanded: bool,
) -> NodeView {
    NodeView {
        name,
        is_expanded,
        is_loaded: true,
        children: tree_of(entries, path, 1),
        path,
        is_selected: false,
        kind: NodeKind::Directory,
    }
}

/// The tree at the start, before anything is selected: a made-up root
/// over the home directory (collapsed), the desktop (expanded) and the
/// group of the machine's roots (expanded).
pub open spec fn starting_tree(places: PlacesView) -> NodeView {
    NodeView {
        name: "Files"@,
        is_expanded: true,
        is_loaded: true,
        children: seq![
            place_node("Home"@, places.home, places.home_entries, false),
            place_node("Desktop"@, places.desktop, places.desktop_entries, true),
            NodeView {
                name: "This Machine"@,
                is_expanded: true,
                is_loaded: true,
                children: drives_of(places.roots),
                path: no_path(),
                is_selected: false,
                kind: NodeKind::RootGroup,
            },
        ],
        path: no_path(),
        is_selected: false,
        kind: NodeKind::Category,
    }
}

/// The state at the start: the start directory is shown and selected in
/// the tree, its first page is on display, and the history holds it
/// alone.
pub open spec fn starting_state(places: PlacesView, cache: Seq<SlotView>) -> AppView {
    let start = start_of(places.roots, places.fallback);
    AppView {
        root: selected(starting_tree(places), start),
        selected_path: Some(start),
        current_dir_files: requested_page(
            cache,
            start,
            0,
            PAGE_SIZE as int,
            places.start_entries,
            places.now,
        ),
        history: HistoryView { entries: seq![start], position: 0 },
    }
}

/// The directory that the browser shows first, whose entries are to be
/// read for the start.
pub fn start_directory(roots: &Vec<RawEntry>, fallback: &FsPath) -> (r: FsPath)
    ensures
        r@ == start_of(raws_of(roots@), fallback@),
{
    if roots.len() > 0 {
        let r = FsPath::new(roots[0].name.clone(), Vec::new());
        proof {
            assert(r@.segments =~= Seq::<Seq<char>>::empty());
        }
        r
    } else {
        fallback.clone()
    }
}

/// The path of a made-up node.
fn empty_path() -> (r: FsPath)
    ensures
        r@ == no_path(),
{
    let r = FsPath::new(String::new(), Vec::new());
    proof {
        assert(r@.segments =~= Seq::<Seq<char>>::empty());
    }
    r
}

/// Builds the node of one of the user's directories.
fn build_place(name: &str, path: FsPath, entries: Vec<RawEntry>, is_expanded: bool) -> (r: FileItem)
    ensures
        r@ == place_node(name@, path@, raws_of(entries@), is_expanded),
{
    let children = build_file_tree(entries, &path, 1);
    let r = FileItem {
        name: name.to_string(),
        is_expanded,
        is_loaded: true,
        children,
        path,
        is_selected: false,
        kind: NodeKind::Directory,
    };
    proof {
        r.lemma_children();
    }
    r
}

/// Builds the state in which the browser starts, and asks the cache for
/// the first page of the start directory.
pub fn create_initial_state(cache: &mut DirectoryCache, places: StartingPlaces) -> (r: AppState)
    requires
        cache_valid(old(cache)@),
    ensures
        cache_valid(final(cache)@),
        history_valid(r@.history),
        r@ == starting_state(places@, old(cache)@),
        final(cache)@ == cache_after_request(
            old(cache)@,
            start_of(places@.roots, places@.fallback),
            0,
            PAGE_SIZE as int,
            places@.start_entries,
            places.now,
        ),
{
    let StartingPlaces {
        roots,
        home,
        home_entries,
        desktop,
        desktop_entries,
        fallback,
        start_entries,
        now,
    } = places;
    let start = start_directory(&roots, &fallback);
    let home_item = build_place("Home", home, home_entries, false);
    let desktop_item = build_place("Desktop", desktop, desktop_entries, true);
    let machine_item = FileItem {
        name: "This Machine".to_string(),
        is_expanded: true,
        is_loaded: true,
        children: get_drives(roots),
        path: empty_path(),
        is_selected: false,
        kind: NodeKind::RootGroup,
    };
    let mut children: Vec<FileItem> = Vec::new();
    children.push(home_item);
    children.push(desktop_item);
    children.push(machine_item);
    let mut root = FileItem {
        name: "Files".to_string(),
        is_expanded: true,
        is_loaded: true,
        children,
        path: empty_path(),
        is_selected: false,
        kind: NodeKind::Category,
    };
    proof {
        machine_item.lemma_children();
        root.lemma_children();
        assert(root@.children =~= starting_tree(places@).children);
    }
    update_selection(&mut root, &start);
    let files = get_directory_contents(cache, &start, start_entries, now);
    let mut history = NavigationHistory::new();
    history.push(start.clone());
    proof {
        assert(history@.entries =~= seq![start@]);
    }
    AppState { root, selected_path: Some(start), current_dir_files: files, history }
}

} // verus!
