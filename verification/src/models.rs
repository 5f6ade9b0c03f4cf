//! The data the engine works on: raw directory entries as they are read,
//! classified entries as they are listed, and the nodes of the directory
//! tree.

use vstd::prelude::*;
use crate::history::{
    can_go_back, can_go_forward, current_of, history_valid, pushed, went_back, went_forward,
    HistoryView, NavigationHistory,
};
use crate::path::{FsPath, PathView};
use crate::text::to_chars;

verus! {

/// What a raw entry is.
pub ghost struct RawView {
    pub name: Seq<char>,
    pub is_dir: bool,
    pub size: u64,
    pub modified: Option<u64>,
    pub children: Seq<RawView>,
}

/// One entry of a directory as the operating system reports it.
///
/// `modified` is the time of the last change in seconds since the epoch,
/// or nothing where it could not be read. `children` holds the entries of
/// the directory itself as far as the reader went down; a reader that
/// stops at one level leaves it empty.
#[derive(Debug)]
pub struct RawEntry {
    pub name: String,
    pub is_dir: bool,
    pub size: u64,
    pub modified: Option<u64>,
    pub children: Vec<RawEntry>,
}

impl RawEntry {
    pub open spec fn view(&self) -> RawView
        decreases self,
    {
        RawView {
            name: self.name@,
            is_dir: self.is_dir,
            size: self.size,
            modified: self.modified,
            children: Seq::new(
                self.children@.len(),
                |i: int|
                    if 0 <= i < self.children@.len() {
                        self.children@[i].view()
                    } else {
                        arbitrary()
                    },
            ),
        }
    }
}

/// The views of a list of raw entries.
pub open spec fn raws_of(entries: Seq<RawEntry>) -> Seq<RawView> {
    entries.map_values(|e: RawEntry| e@)
}

/// The children in the view of a raw entry are the views of its children.
pub proof fn lemma_raw_children(e: RawEntry)
    ensures
        e@.children == raws_of(e.children@),
{
    assert(e@.children =~= raws_of(e.children@));
}

/// What kind of thing a listed entry is.
pub ghost enum KindView {
    Directory,
    File { extension: Option<Seq<char>> },
}

/// The kind of a listed entry: a directory, or a file with its
/// lower-cased extension.
#[derive(Debug, PartialEq, Eq)]
pub enum EntryKind {
    Directory,
    File { extension: Option<String> },
}

impl View for EntryKind {
    type V = KindView;

    open spec fn view(&self) -> KindView {
        match self {
            EntryKind::Directory => KindView::Directory,
            EntryKind::File { extension: Some(e) } => KindView::File { extension: Some(e@) },
            EntryKind::File { extension: None } => KindView::File { extension: None },
        }
    }
}

impl Clone for EntryKind {
    fn clone(&self) -> (r: Self)
        ensures
            r@ == self@,
    {
        match self {
            EntryKind::Directory => EntryKind::Directory,
            EntryKind::File { extension: Some(e) } => EntryKind::File { extension: Some(e.clone()) },
            EntryKind::File { extension: None } => EntryKind::File { extension: None },
        }
    }
}

/// What a listed entry is.
pub ghost struct DetailView {
    pub name: Seq<char>,
    pub size: u64,
    pub kind: KindView,
    pub modified: Seq<char>,
    pub full_path: PathView,
}

/// One entry of a listing: its name, its size in bytes (zero for a
/// directory), its kind, the label of its last change and its full path.
#[derive(Debug, PartialEq, Eq)]
pub struct FileDetail {
    pub name: String,
    pub size: u64,
    pub kind: EntryKind,
    pub modified: String,
    pub full_path: FsPath,
}

impl View for FileDetail {
    type V = DetailView;

    open spec fn view(&self) -> DetailView {
        DetailView {
            name: self.name@,
            size: self.size,
            kind: self.kind@,
            modified: self.modified@,
            full_path: self.full_path@,
        }
    }
}

impl Clone for FileDetail {
    fn clone(&self) -> (r: Self)
        ensures
            r@ == self@,
    {
        FileDetail {
            name: self.name.clone(),
            size: self.size,
            kind: self.kind.clone(),
            modified: self.modified.clone(),
            full_path: self.full_path.clone(),
        }
    }
}

/// The views of a list of entries.
pub open spec fn details_of(entries: Seq<FileDetail>) -> Seq<DetailView> {
    entries.map_values(|d: FileDetail| d@)
}

/// Copies a list of entries.
pub fn clone_details(entries: &Vec<FileDetail>) -> (r: Vec<FileDetail>)
    ensures
        details_of(r@) == details_of(entries@),
{
    let mut out: Vec<FileDetail> = Vec::new();
    let mut i: usize = 0;
    while i < entries.len()
        invariant
            i <= entries.len(),
            out.len() == i,
            forall|j: int| 0 <= j < i ==> out[j]@ == entries[j]@,
        decreases entries.len() - i,
    {
        out.push(entries[i].clone());
        i += 1;
    }
    assert(details_of(out@) =~= details_of(entries@));
    out
}

/// What a tree node stands for.
///
/// A `Directory` is a directory on disk, and its path is where it lies.
/// The other two are made up and have no place on disk, whatever their
/// `path` holds: a `Category` only groups the nodes below it, as the root
/// of the tree does, and the `RootGroup` is the category that holds the
/// roots of the machine.
#[derive(Debug, Clone, Copy, PartialEq, Eq, Structural)]
pub enum NodeKind {
    Directory,
    Category,
    RootGroup,
}

/// What a tree node is.
pub ghost struct NodeView {
    pub name: Seq<char>,
    pub is_expanded: bool,
    pub is_loaded: bool,
    pub children: Seq<NodeView>,
    pub path: PathView,
    pub is_selected: bool,
    pub kind: NodeKind,
}

/// One node of the directory tree. It holds directories only.
///
/// A node is collapsed and not loaded, collapsed and loaded, or expanded:
/// `is_loaded` says whether its children were ever read, so that a node
/// without children is told apart from one that was never opened.
#[derive(Debug, PartialEq, Eq)]
pub struct FileItem {
    pub name: String,
    pub is_expanded: bool,
    pub is_loaded: bool,
    pub children: Vec<FileItem>,
    pub path: FsPath,
    pub is_selected: bool,
    pub kind: NodeKind,
}

impl FileItem {
    pub open spec fn view(&self) -> NodeView
        decreases self,
    {
        NodeView {
            name: self.name@,
            is_expanded: self.is_expanded,
            is_loaded: self.is_loaded,
            children: Seq::new(
                self.children@.len(),
                |i: int|
                    if 0 <= i < self.children@.len() {
                        self.children@[i].view()
                    } else {
                        arbitrary()
                    },
            ),
            path: self.path@,
            is_selected: self.is_selected,
            kind: self.kind,
        }
    }

    /// The children in the view of a node are the views of its children.
    pub proof fn lemma_children(&self)
        ensures
            self@.children == nodes_of(self.children@),
    {
        assert(self@.children =~= nodes_of(self.children@));
    }

    /// How many children a tree widget shows under this node: all of
    /// them where the node is expanded, is the group of the machine's
    /// roots, or is named as a drive is (`C:\`); none under any other
    /// collapsed node.
    pub fn children_count(&self) -> (r: usize)
        ensures
            r == shown_children(self@),
    {
        shown_child_count(self.kind, self.name.as_str(), self.is_expanded, self.children.len())
    }

    /// A click on the mark that opens and closes this node. The group of
    /// the machine's roots stays open whatever is clicked; any other node
    /// opens if it was closed and closes if it was open, and keeps its
    /// children either way. The result says whether the children have
    /// to be read now: the node is open and was never loaded, or it is the
    /// group of roots and has no children.
    pub fn toggle(&mut self) -> (r: bool)
        ensures
            final(self)@ == toggled(old(self)@),
            r == wants_load(final(self)@),
    {
        self.is_expanded = toggled_expansion(self.kind, self.is_expanded);
        proof {
            assert(self@.children =~= old(self)@.children);
        }
        load_wanted(self.kind, self.is_expanded, self.is_loaded, self.children.len())
    }

    /// A click on the name of this node: the node is opened, and stays
    /// open if it was. The result says whether its children have to be
    /// read now: it was closed and was never loaded. The group of the
    /// machine's roots asks for no read here.
    pub fn open(&mut self) -> (r: bool)
        ensures
            final(self)@ == (NodeView { is_expanded: true, ..old(self)@ }),
            r == (old(self)@.kind != NodeKind::RootGroup && !old(self)@.is_expanded && !old(
                self,
            )@.is_loaded),
    {
        let wanted = open_wants_load(self.kind, self.is_expanded, self.is_loaded);
        self.is_expanded = true;
        proof {
            assert(self@.children =~= old(self)@.children);
        }
        wanted
    }

    /// Whether this node stands for the directory at `path`.
    pub fn stands_for(&self, path: &FsPath) -> (r: bool)
        ensures
            r == stands_for(self@, path@),
    {
        match self.kind {
            NodeKind::Directory => self.path.same_as(path),
            _ => false,
        }
    }

    /// The child at place `index`.
    pub fn get_child(&self, index: usize) -> (r: &FileItem)
        requires
            index < self@.children.len(),
        ensures
            r@ == self@.children[index as int],
    {
        &self.children[index]
    }
}

/// Whether a node stands for the directory at `path`: it is a directory
/// and has that path.
pub open spec fn stands_for(n: NodeView, path: PathView) -> bool {
    n.kind == NodeKind::Directory && n.path == path
}

/// Whether a name is that of a drive: it ends in a colon and a
/// backslash, as `C:\` does.
pub open spec fn is_drive_name(name: Seq<char>) -> bool {
    name.len() >= 2 && name[name.len() - 2] == ':' && name[name.len() - 1] == '\\'
}

/// Whether a name is that of a drive.
pub fn names_a_drive(name: &str) -> (r: bool)
    ensures
        r == is_drive_name(name@),
{
    let chars = to_chars(name);
    let n: usize = chars.len();
    n >= 2 && chars[n - 2] == ':' && chars[n - 1] == '\\'
}

/// How many of `count` children are shown under a node of this kind, name
/// and expansion: all where the node is expanded, is the group of the
/// machine's roots or is named as a drive is, else none.
pub fn shown_child_count(kind: NodeKind, name: &str, is_expanded: bool, count: usize) -> (r: usize)
    ensures
        r == if is_expanded || kind == NodeKind::RootGroup || is_drive_name(name@) {
            count
        } else {
            0
        },
{
    let group = match kind {
        NodeKind::RootGroup => true,
        _ => false,
    };
    if is_expanded || group || names_a_drive(name) {
        count
    } else {
        0
    }
}

/// Whether a click on the name of a node asks for its children to be
/// read: the node was closed and was never loaded, and is not the group
/// of the machine's roots.
pub fn open_wants_load(kind: NodeKind, is_expanded: bool, is_loaded: bool) -> (r: bool)
    ensures
        r == (kind != NodeKind::RootGroup && !is_expanded && !is_loaded),
{
    match kind {
        NodeKind::RootGroup => false,
        _ => !is_expanded && !is_loaded,
    }
}

/// Whether a node of this kind is open after a click on its mark.
pub fn toggled_expansion(kind: NodeKind, is_expanded: bool) -> (r: bool)
    ensures
        r == (kind == NodeKind::RootGroup || !is_expanded),
{
    match kind {
        NodeKind::RootGroup => true,
        _ => !is_expanded,
    }
}

/// Whether the children of a node have to be read: it is open and was
/// never loaded, or it is the group of roots and has no children.
pub fn load_wanted(kind: NodeKind, is_expanded: bool, is_loaded: bool, count: usize) -> (r: bool)
    ensures
        r == if kind == NodeKind::RootGroup {
            count == 0
        } else {
            is_expanded && !is_loaded
        },
{
    match kind {
        NodeKind::RootGroup => count == 0,
        _ => is_expanded && !is_loaded,
    }
}

/// A node after a click on the mark that opens and closes it.
pub open spec fn toggled(n: NodeView) -> NodeView {
    NodeView { is_expanded: n.kind == NodeKind::RootGroup || !n.is_expanded, ..n }
}

/// Whether the children of an open node have to be read.
pub open spec fn wants_load(n: NodeView) -> bool {
    if n.kind == NodeKind::RootGroup {
        n.children.len() == 0
    } else {
        n.is_expanded && !n.is_loaded
    }
}

/// The number of children shown under a node: all of them where the
/// node is expanded, is the group of the machine's roots, or is named as
/// a drive is; none under any other collapsed node.
pub open spec fn shown_children(n: NodeView) -> nat {
    if n.is_expanded || n.kind == NodeKind::RootGroup || is_drive_name(n.name) {
        n.children.len()
    } else {
        0
    }
}

/// The views of a list of nodes.
pub open spec fn nodes_of(nodes: Seq<FileItem>) -> Seq<NodeView> {
    nodes.map_values(|n: FileItem| n@)
}

impl Clone for FileItem {
    fn clone(&self) -> (r: Self)
        ensures
            r@ == self@,
        decreases self,
    {
        let mut children: Vec<FileItem> = Vec::new();
        let mut i: usize = 0;
        while i < self.children.len()
            invariant
                i <= self.children.len(),
                children.len() == i,
                forall|j: int| 0 <= j < i ==> children[j]@ == self.children[j]@,
            decreases self.children.len() - i,
        {
            children.push(self.children[i].clone());
            i += 1;
        }
        let r = FileItem {
            name: self.name.clone(),
            is_expanded: self.is_expanded,
            is_loaded: self.is_loaded,
            children,
            path: self.path.clone(),
            is_selected: self.is_selected,
            kind: self.kind,
        };
        proof {
            assert(r@.children =~= self@.children);
        }
        r
    }
}

/// What the state of the browser is.
pub ghost struct AppView {
    pub root: NodeView,
    pub selected_path: Option<PathView>,
    pub current_dir_files: Seq<DetailView>,
    pub history: HistoryView,
}

/// The view of a path that may be missing.
pub open spec fn path_view_of(p: Option<FsPath>) -> Option<PathView> {
    match p {
        Some(x) => Some(x@),
        None => None,
    }
}

/// The state of the browser: the directory tree, the directory that is
/// shown, the page of its listing on display, and the history of visits.
#[derive(Debug)]
pub struct AppState {
    pub root: FileItem,
    pub selected_path: Option<FsPath>,
    pub current_dir_files: Vec<FileDetail>,
    pub history: NavigationHistory,
}

impl View for AppState {
    type V = AppView;

    open spec fn view(&self) -> AppView {
        AppView {
            root: self.root@,
            selected_path: path_view_of(self.selected_path),
            current_dir_files: details_of(self.current_dir_files@),
            history: self.history@,
        }
    }
}

impl AppState {
    /// Records a visit to `path` in the history. A visit to the path
    /// under the cursor changes nothing.
    pub fn add_to_history(&mut self, path: FsPath)
        requires
            history_valid(old(self)@.history),
        ensures
            final(self)@ == (AppView { history: pushed(old(self)@.history, path@), ..old(self)@ }),
            history_valid(final(self)@.history),
    {
        self.history.push(path);
    }

    /// Steps back in the history and returns the path stepped onto.
    pub fn navigate_back(&mut self) -> (r: Option<FsPath>)
        requires
            history_valid(old(self)@.history),
        ensures
            final(self)@ == (AppView { history: went_back(old(self)@.history), ..old(self)@ }),
            history_valid(final(self)@.history),
            match r {
                Some(p) => can_go_back(old(self)@.history) && Some(p@) == current_of(
                    final(self)@.history,
                ),
                None => !can_go_back(old(self)@.history),
            },
    {
        self.history.back()
    }

    /// Steps forward in the history and returns the path stepped onto.
    pub fn navigate_forward(&mut self) -> (r: Option<FsPath>)
        requires
            history_valid(old(self)@.history),
        ensures
            final(self)@ == (AppView { history: went_forward(old(self)@.history), ..old(self)@ }),
            history_valid(final(self)@.history),
            match r {
                Some(p) => can_go_forward(old(self)@.history) && Some(p@) == current_of(
                    final(self)@.history,
                ),
                None => !can_go_forward(old(self)@.history),
            },
    {
        self.history.forward()
    }

    /// Whether a step back is possible.
    pub fn can_navigate_back(&self) -> (r: bool)
        ensures
            r == can_go_back(self@.history),
    {
        self.history.can_go_back()
    }

    /// Whether a step forward is possible.
    pub fn can_navigate_forward(&self) -> (r: bool)
        requires
            history_valid(self@.history),
        ensures
            r == can_go_forward(self@.history),
    {
        self.history.can_go_forward()
    }
}

/// The state after the path of the shown directory was edited to `p`:
/// a path other than the shown one is shown and recorded as a visit;
/// where nothing is shown yet, the empty path changes nothing.
pub open spec fn path_edited(app: AppView, p: PathView) -> AppView {
    let unchanged = match app.selected_path {
        Some(old) => old == p,
        None => p.root.len() == 0 && p.segments.len() == 0,
    };
    if unchanged {
        app
    } else {
        AppView { selected_path: Some(p), history: pushed(app.history, p), ..app }
    }
}

/// The window through which an address bar reads and edits the path of
/// the shown directory.
#[derive(Debug, Clone, Copy)]
pub struct CurrentPathLens;

impl CurrentPathLens {
    /// The path of the shown directory.
    pub fn get(&self, data: &AppState) -> (r: Option<FsPath>)
        ensures
            path_view_of(r) == data@.selected_path,
    {
        match &data.selected_path {
            Some(p) => Some(p.clone()),
            None => None,
        }
    }

    /// Takes the path as the address bar left it.
    pub fn put(&self, data: &mut AppState, edited: FsPath)
        requires
            history_valid(old(data)@.history),
        ensures
            history_valid(final(data)@.history),
            final(data)@ == path_edited(old(data)@, edited@),
    {
        let unchanged = match &data.selected_path {
            Some(old_path) => old_path.same_as(&edited),
            None => edited.root.as_str().is_empty() && edited.segments.len() == 0,
        };
        if !unchanged {
            data.history.push(edited.clone());
            data.selected_path = Some(edited);
        }
    }
}

} // verus!
