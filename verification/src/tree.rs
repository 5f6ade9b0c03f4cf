//! Walks over the directory tree: moving the selection, finding a node,
//! opening and closing nodes.

use vstd::prelude::*;
use crate::file_system::{build_file_tree, drives_of, get_drives, tree_of};
use crate::models::{nodes_of, raws_of, stands_for, FileItem, NodeKind, NodeView, RawEntry};
use crate::path::{is_under, FsPath, PathView};

verus! {

/// `n` and all below it with nothing selected.
pub open spec fn cleared(n: NodeView) -> NodeView
    decreases n,
{
    NodeView {
        is_selected: false,
        children: Seq::new(
            n.children.len(),
            |i: int|
                if 0 <= i < n.children.len() {
                    cleared(n.children[i])
                } else {
                    arbitrary()
                },
        ),
        ..n
    }
}

/// Whether the walk of a selection goes down below `n`: `n` is made up,
/// or `target` lies below it.
pub open spec fn leads_to(n: NodeView, target: PathView) -> bool {
    n.kind != NodeKind::Directory || is_under(target, n.path)
}

/// Whether the walk of a selection comes to a node that stands for
/// `target`.
pub open spec fn reaches(n: NodeView, target: PathView) -> bool
    decreases n,
{
    stands_for(n, target) || (leads_to(n, target) && exists|i: int|
        0 <= i < n.children.len() && reaches(#[trigger] n.children[i], target))
}

/// Whether the walk of a selection comes to a node that stands for
/// `target` in one of the children of `n`.
pub open spec fn reaches_below(n: NodeView, target: PathView) -> bool {
    exists|i: int| 0 <= i < n.children.len() && reaches(#[trigger] n.children[i], target)
}

/// `n` and all below it after `target` was selected.
///
/// The node that stands for `target` is selected and nothing below it
/// is. A directory that `target` lies below is not selected and is
/// expanded, and the selection goes on in each of its children. A made-up
/// node is not selected either, and the selection goes on in each of its
/// children; it is expanded where the walk comes to a node for `target`
/// below it, and keeps its expansion where it does not. Any other node,
/// with all below it, has nothing selected. No node is collapsed, and
/// names, paths and children stay as they are.
pub open spec fn selected(n: NodeView, target: PathView) -> NodeView
    decreases n,
{
    if stands_for(n, target) {
        NodeView { is_selected: true, ..cleared(n) }
    } else if leads_to(n, target) {
        NodeView {
            is_selected: false,
            is_expanded: n.is_expanded || n.kind == NodeKind::Directory || reaches_below(n, target),
            children: Seq::new(
                n.children.len(),
                |i: int|
                    if 0 <= i < n.children.len() {
                        selected(n.children[i], target)
                    } else {
                        arbitrary()
                    },
            ),
            ..n
        }
    } else {
        cleared(n)
    }
}

/// Whether a node of the tree is selected.
pub open spec fn any_selected(n: NodeView) -> bool
    decreases n,
{
    n.is_selected || exists|i: int|
        0 <= i < n.children.len() && any_selected(#[trigger] n.children[i])
}

/// Nothing is selected in a cleared tree.
pub proof fn lemma_cleared_has_no_selection(n: NodeView)
    ensures
        !any_selected(cleared(n)),
    decreases n,
{
    let c = cleared(n);
    assert forall|i: int| 0 <= i < c.children.len() implies !any_selected(
        #[trigger] c.children[i],
    ) by {
        assert(c.children[i] == cleared(n.children[i]));
        lemma_cleared_has_no_selection(n.children[i]);
    }
    assert(!c.is_selected);
}

/// Whether every selected node stands for `target`.
pub open spec fn only_target_selected(n: NodeView, target: PathView) -> bool
    decreases n,
{
    &&& n.is_selected ==> stands_for(n, target)
    &&& forall|i: int|
        0 <= i < n.children.len() ==> only_target_selected(#[trigger] n.children[i], target)
}

/// A selection leaves no node selected but such as stand for the
/// selected path.
pub proof fn lemma_selected_only_target(n: NodeView, target: PathView)
    ensures
        only_target_selected(selected(n, target), target),
    decreases n,
{
    let s = selected(n, target);
    if stands_for(n, target) {
        assert forall|i: int| 0 <= i < s.children.len() implies only_target_selected(
            #[trigger] s.children[i],
            target,
        ) by {
            assert(s.children[i] == cleared(n.children[i]));
            lemma_cleared_only_target(n.children[i], target);
        }
    } else if leads_to(n, target) {
        assert forall|i: int| 0 <= i < s.children.len() implies only_target_selected(
            #[trigger] s.children[i],
            target,
        ) by {
            assert(s.children[i] == selected(n.children[i], target));
            lemma_selected_only_target(n.children[i], target);
        }
    } else {
        lemma_cleared_only_target(n, target);
    }
}

/// A cleared tree has no selected node, so none for another path.
pub proof fn lemma_cleared_only_target(n: NodeView, target: PathView)
    ensures
        only_target_selected(cleared(n), target),
    decreases n,
{
    let c = cleared(n);
    assert forall|i: int| 0 <= i < c.children.len() implies only_target_selected(
        #[trigger] c.children[i],
        target,
    ) by {
        assert(c.children[i] == cleared(n.children[i]));
        lemma_cleared_only_target(n.children[i], target);
    }
    assert(!c.is_selected);
}

/// Where the walk comes to a node that stands for the selected path, the
/// selection is on it: the tree has a selected node afterwards.
pub proof fn lemma_selected_marks_target(n: NodeView, target: PathView)
    requires
        reaches(n, target),
    ensures
        any_selected(selected(n, target)),
    decreases n,
{
    let s = selected(n, target);
    if !stands_for(n, target) {
        let i = choose|i: int| 0 <= i < n.children.len() && reaches(#[trigger] n.children[i], target);
        lemma_selected_marks_target(n.children[i], target);
        assert(s.children[i] == selected(n.children[i], target));
    }
}

/// Whether `s` is `n` but for what a selection of `target` may change,
/// here and in every node below.
///
/// Names, paths, kinds, the loaded marks and the number of children are
/// the same. No node that was expanded is collapsed. A node is newly
/// expanded only where the walk goes through it: a directory that
/// `target` lies below, or a made-up node with a node for `target` below
/// it.
pub open spec fn changed_by_selection_only(n: NodeView, s: NodeView, target: PathView) -> bool
    decreases n,
{
    &&& s.name == n.name
    &&& s.path == n.path
    &&& s.kind == n.kind
    &&& s.is_loaded == n.is_loaded
    &&& s.children.len() == n.children.len()
    &&& n.is_expanded ==> s.is_expanded
    &&& s.is_expanded && !n.is_expanded ==> if n.kind == NodeKind::Directory {
        is_under(target, n.path) && n.path != target
    } else {
        reaches_below(n, target)
    }
    &&& forall|i: int|
        0 <= i < n.children.len() ==> changed_by_selection_only(
            #[trigger] n.children[i],
            s.children[i],
            target,
        )
}

/// Clearing changes nothing but the selection.
pub proof fn lemma_cleared_changes_selection_only(n: NodeView, target: PathView)
    ensures
        changed_by_selection_only(n, cleared(n), target),
    decreases n,
{
    let c = cleared(n);
    assert forall|i: int| 0 <= i < n.children.len() implies changed_by_selection_only(
        #[trigger] n.children[i],
        c.children[i],
        target,
    ) by {
        assert(c.children[i] == cleared(n.children[i]));
        lemma_cleared_changes_selection_only(n.children[i], target);
    }
}

/// A selection leaves names, paths and children alone, collapses
/// nothing, and expands only the nodes that the walk to the selected
/// path goes through.
pub proof fn lemma_selected_changes_selection_only(n: NodeView, target: PathView)
    ensures
        changed_by_selection_only(n, selected(n, target), target),
    decreases n,
{
    let s = selected(n, target);
    if stands_for(n, target) || !leads_to(n, target) {
        lemma_cleared_changes_selection_only(n, target);
        assert forall|i: int| 0 <= i < n.children.len() implies changed_by_selection_only(
            #[trigger] n.children[i],
            s.children[i],
            target,
        ) by {
            assert(s.children[i] == cleared(n).children[i]);
        }
    } else {
        assert forall|i: int| 0 <= i < n.children.len() implies changed_by_selection_only(
            #[trigger] n.children[i],
            s.children[i],
            target,
        ) by {
            assert(s.children[i] == selected(n.children[i], target));
            lemma_selected_changes_selection_only(n.children[i], target);
        }
    }
}

/// Takes the selection off `item` and all below it.
pub fn clear_selection(item: &mut FileItem)
    ensures
        final(item)@ == cleared(old(item)@),
    decreases *old(item),
{
    item.is_selected = false;
    let mut i: usize = 0;
    while i < item.children.len()
        invariant
            i <= item.children.len(),
            item.children.len() == old(item).children.len(),
            item.name == old(item).name,
            item.is_expanded == old(item).is_expanded,
            item.is_loaded == old(item).is_loaded,
            item.path == old(item).path,
            item.kind == old(item).kind,
            item.is_selected == false,
            forall|j: int| 0 <= j < i ==> (#[trigger] item.children[j])@ == cleared(old(item).children[j]@),
            forall|j: int| i <= j < item.children.len() ==> item.children[j] == old(item).children[j],
        decreases item.children.len() - i,
    {
        clear_selection(&mut item.children[i]);
        i += 1;
    }
    proof {
        assert(item@.children =~= cleared(old(item)@).children);
    }
}

/// The walk of `update_selection`. The result says whether the walk came
/// to a node that stands for `selected_path`.
fn select_below(item: &mut FileItem, selected_path: &FsPath) -> (r: bool)
    ensures
        final(item)@ == selected(old(item)@, selected_path@),
        r == reaches(old(item)@, selected_path@),
    decreases *old(item),
{
    if item.stands_for(selected_path) {
        clear_selection(item);
        item.is_selected = true;
        return true;
    }
    let is_directory = match item.kind {
        NodeKind::Directory => true,
        _ => false,
    };
    if is_directory && !selected_path.starts_with(&item.path) {
        clear_selection(item);
        return false;
    }
    item.is_selected = false;
    let ghost before = old(item)@.children;
    let mut met = false;
    let mut i: usize = 0;
    while i < item.children.len()
        invariant
            i <= item.children.len(),
            item.children.len() == old(item).children.len(),
            before == old(item)@.children,
            item.name == old(item).name,
            item.is_expanded == old(item).is_expanded,
            item.is_loaded == old(item).is_loaded,
            item.path == old(item).path,
            item.kind == old(item).kind,
            item.is_selected == false,
            met ==> reaches_below(old(item)@, selected_path@),
            !met ==> forall|j: int| 0 <= j < i ==> !reaches(#[trigger] before[j], selected_path@),
            forall|j: int|
                0 <= j < i ==> (#[trigger] item.children[j])@ == selected(
                    old(item).children[j]@,
                    selected_path@,
                ),
            forall|j: int| i <= j < item.children.len() ==> item.children[j] == old(item).children[j],
        decreases item.children.len() - i,
    {
        proof {
            assert(before[i as int] == old(item).children[i as int]@);
        }
        let below = select_below(&mut item.children[i], selected_path);
        if below {
            met = true;
        }
        i += 1;
    }
    if is_directory || met {
        item.is_expanded = true;
    }
    proof {
        assert(item@.children =~= selected(old(item)@, selected_path@).children);
    }
    met
}

/// Moves the selection in the tree below `item` to `selected_path`.
///
/// The selection is taken off everywhere and put on the node that stands
/// for `selected_path`. The walk goes down only below made-up nodes and
/// where `selected_path` lies below the node. Every directory that it
/// goes through is expanded, and every made-up node on the way to a
/// node for `selected_path`; no other node changes its expansion.
pub fn update_selection(item: &mut FileItem, selected_path: &FsPath)
    ensures
        final(item)@ == selected(old(item)@, selected_path@),
{
    select_below(item, selected_path);
}

/// The first node that stands for `target` among the children of `n`
/// from place `from` on, each child searched whole before the next.
pub open spec fn found_below(n: NodeView, target: PathView, from: nat) -> Option<NodeView>
    decreases n, n.children.len() - from,
{
    if from >= n.children.len() {
        None
    } else {
        match found(n.children[from as int], target) {
            Some(x) => Some(x),
            None => found_below(n, target, from + 1),
        }
    }
}

/// The first node that stands for `target` in the tree below `n`, a
/// node before its children and a child before its later siblings.
pub open spec fn found(n: NodeView, target: PathView) -> Option<NodeView>
    decreases n, n.children.len() + 1,
{
    if stands_for(n, target) {
        Some(n)
    } else {
        found_below(n, target, 0)
    }
}

/// Whether the tree below `n` has a node that stands for `target`.
pub open spec fn has_path(n: NodeView, target: PathView) -> bool
    decreases n,
{
    stands_for(n, target) || exists|i: int|
        0 <= i < n.children.len() && has_path(#[trigger] n.children[i], target)
}

/// What a search finds stands for the path searched for, and it finds
/// something exactly where the tree has a node for that path.
pub proof fn lemma_found(n: NodeView, target: PathView)
    ensures
        found(n, target) is Some <==> has_path(n, target),
        found(n, target) is Some ==> stands_for(found(n, target)->0, target),
    decreases n, n.children.len() + 1,
{
    if !stands_for(n, target) {
        lemma_found_below(n, target, 0);
        assert(found(n, target) == found_below(n, target, 0));
    }
}

/// The same of a search among the children from place `from` on.
pub proof fn lemma_found_below(n: NodeView, target: PathView, from: nat)
    ensures
        found_below(n, target, from) is Some <==> exists|i: int|
            from <= i < n.children.len() && has_path(#[trigger] n.children[i], target),
        found_below(n, target, from) is Some ==> stands_for(found_below(n, target, from)->0, target),
    decreases n, n.children.len() - from,
{
    if from < n.children.len() {
        lemma_found(n.children[from as int], target);
        lemma_found_below(n, target, from + 1);
        if found_below(n, target, from) is None {
            assert forall|i: int| from <= i < n.children.len() implies !has_path(
                #[trigger] n.children[i],
                target,
            ) by {
                if i > from {
                    assert(from + 1 <= i);
                }
            }
        }
    }
}

/// Finds the first node that stands for `target_path` in the tree below
/// `item`.
pub fn find_item_by_path<'a>(item: &'a FileItem, target_path: &FsPath) -> (r: Option<&'a FileItem>)
    ensures
        found(item@, target_path@) == match r {
            Some(x) => Some(x@),
            None => None,
        },
    decreases item,
{
    if item.stands_for(target_path) {
        return Some(item);
    }
    let mut i: usize = 0;
    while i < item.children.len()
        invariant
            i <= item.children.len(),
            !stands_for(item@, target_path@),
            found(item@, target_path@) == found_below(item@, target_path@, i as nat),
        decreases item.children.len() - i,
    {
        let hit = find_item_by_path(&item.children[i], target_path);
        if hit.is_some() {
            return hit;
        }
        i += 1;
    }
    None
}

/// The nodes `nodes`, each of them expanded.
pub open spec fn all_expanded(nodes: Seq<NodeView>) -> Seq<NodeView> {
    nodes.map_values(|d: NodeView| NodeView { is_expanded: true, ..d })
}

/// `n` and all below it after the node that stands for `target` was
/// opened.
///
/// The walk stops at the group of the machine's roots, wherever it meets
/// it: the group is expanded; without children it gets `drives`, else
/// each of its children is expanded. It stops at a node that stands for
/// `target` as well: the node is expanded, and if its children were
/// never read it gets `fresh` as its children. Through any other node the
/// walk goes on in each child.
pub open spec fn loaded(n: NodeView, target: PathView, fresh: Seq<NodeView>, drives: Seq<NodeView>) -> NodeView
    decreases n,
{
    if n.kind == NodeKind::RootGroup {
        NodeView {
            is_expanded: true,
            is_loaded: true,
            children: if n.children.len() == 0 {
                drives
            } else {
                all_expanded(n.children)
            },
            ..n
        }
    } else if stands_for(n, target) {
        NodeView {
            is_expanded: true,
            is_loaded: true,
            children: if n.is_loaded {
                n.children
            } else {
                fresh
            },
            ..n
        }
    } else {
        NodeView {
            children: Seq::new(
                n.children.len(),
                |i: int|
                    if 0 <= i < n.children.len() {
                        loaded(n.children[i], target, fresh, drives)
                    } else {
                        arbitrary()
                    },
            ),
            ..n
        }
    }
}

/// Whether opening `target` below `n` needs the entries of `target`:
/// the walk reaches a node for that path whose children were never
/// read.
pub open spec fn wants_listing(n: NodeView, target: PathView) -> bool
    decreases n,
{
    if n.kind == NodeKind::RootGroup {
        false
    } else if stands_for(n, target) {
        !n.is_loaded
    } else {
        exists|i: int| 0 <= i < n.children.len() && wants_listing(#[trigger] n.children[i], target)
    }
}

/// Whether opening `target` below `n` needs the roots of the machine:
/// the walk reaches the group of roots and finds it without children.
pub open spec fn wants_roots(n: NodeView, target: PathView) -> bool
    decreases n,
{
    if n.kind == NodeKind::RootGroup {
        n.children.len() == 0
    } else if stands_for(n, target) {
        false
    } else {
        exists|i: int| 0 <= i < n.children.len() && wants_roots(#[trigger] n.children[i], target)
    }
}

/// Where opening a node needs no entries, what was read does not
/// matter: a node that was loaded before is expanded as it is.
pub proof fn lemma_loaded_without_listing(
    n: NodeView,
    target: PathView,
    fresh: Seq<NodeView>,
    other: Seq<NodeView>,
    drives: Seq<NodeView>,
)
    requires
        !wants_listing(n, target),
    ensures
        loaded(n, target, fresh, drives) == loaded(n, target, other, drives),
    decreases n,
{
    if n.kind != NodeKind::RootGroup && !stands_for(n, target) {
        assert forall|i: int| 0 <= i < n.children.len() implies loaded(
            #[trigger] n.children[i],
            target,
            fresh,
            drives,
        ) == loaded(n.children[i], target, other, drives) by {
            lemma_loaded_without_listing(n.children[i], target, fresh, other, drives);
        }
        assert(loaded(n, target, fresh, drives).children =~= loaded(
            n,
            target,
            other,
            drives,
        ).children);
    }
}

/// Where opening a node needs no roots, the roots handed in do not
/// matter.
pub proof fn lemma_loaded_without_roots(
    n: NodeView,
    target: PathView,
    fresh: Seq<NodeView>,
    drives: Seq<NodeView>,
    other: Seq<NodeView>,
)
    requires
        !wants_roots(n, target),
    ensures
        loaded(n, target, fresh, drives) == loaded(n, target, fresh, other),
    decreases n,
{
    if n.kind != NodeKind::RootGroup && !stands_for(n, target) {
        assert forall|i: int| 0 <= i < n.children.len() implies loaded(
            #[trigger] n.children[i],
            target,
            fresh,
            drives,
        ) == loaded(n.children[i], target, fresh, other) by {
            lemma_loaded_without_roots(n.children[i], target, fresh, drives, other);
        }
        assert(loaded(n, target, fresh, drives).children =~= loaded(
            n,
            target,
            fresh,
            other,
        ).children);
    }
}

/// Once a node was opened, opening it again needs no entries: whatever
/// was hung in, nothing on the walk is left unloaded.
pub proof fn lemma_loaded_needs_no_listing(
    n: NodeView,
    target: PathView,
    fresh: Seq<NodeView>,
    drives: Seq<NodeView>,
)
    ensures
        !wants_listing(loaded(n, target, fresh, drives), target),
    decreases n,
{
    let l = loaded(n, target, fresh, drives);
    if n.kind != NodeKind::RootGroup && !stands_for(n, target) {
        assert forall|i: int| 0 <= i < l.children.len() implies !wants_listing(
            #[trigger] l.children[i],
            target,
        ) by {
            assert(l.children[i] == loaded(n.children[i], target, fresh, drives));
            lemma_loaded_needs_no_listing(n.children[i], target, fresh, drives);
        }
    }
}

/// Whether opening `target_path` below `item` needs the entries of
/// `target_path` to be read.
pub fn expansion_needs_listing(item: &FileItem, target_path: &FsPath) -> (r: bool)
    ensures
        r == wants_listing(item@, target_path@),
    decreases item,
{
    match item.kind {
        NodeKind::RootGroup => {
            return false;
        },
        _ => {},
    }
    if item.stands_for(target_path) {
        return !item.is_loaded;
    }
    let mut i: usize = 0;
    while i < item.children.len()
        invariant
            i <= item.children.len(),
            item.kind != NodeKind::RootGroup,
            !stands_for(item@, target_path@),
            forall|j: int| 0 <= j < i ==> !wants_listing(#[trigger] item@.children[j], target_path@),
        decreases item.children.len() - i,
    {
        if expansion_needs_listing(&item.children[i], target_path) {
            assert(item@.children[i as int] == item.children[i as int]@);
            return true;
        }
        assert(item@.children[i as int] == item.children[i as int]@);
        i += 1;
    }
    false
}

/// Whether opening `target_path` below `item` needs the roots of the
/// machine to be read.
pub fn expansion_needs_roots(item: &FileItem, target_path: &FsPath) -> (r: bool)
    ensures
        r == wants_roots(item@, target_path@),
    decreases item,
{
    match item.kind {
        NodeKind::RootGroup => {
            return item.children.len() == 0;
        },
        _ => {},
    }
    if item.stands_for(target_path) {
        return false;
    }
    let mut i: usize = 0;
    while i < item.children.len()
        invariant
            i <= item.children.len(),
            item.kind != NodeKind::RootGroup,
            !stands_for(item@, target_path@),
            forall|j: int| 0 <= j < i ==> !wants_roots(#[trigger] item@.children[j], target_path@),
        decreases item.children.len() - i,
    {
        if expansion_needs_roots(&item.children[i], target_path) {
            assert(item@.children[i as int] == item.children[i as int]@);
            return true;
        }
        assert(item@.children[i as int] == item.children[i as int]@);
        i += 1;
    }
    false
}

/// Copies a list of nodes.
pub fn clone_nodes(nodes: &Vec<FileItem>) -> (r: Vec<FileItem>)
    ensures
        nodes_of(r@) == nodes_of(nodes@),
{
    let mut out: Vec<FileItem> = Vec::new();
    let mut i: usize = 0;
    while i < nodes.len()
        invariant
            i <= nodes.len(),
            out.len() == i,
            forall|j: int| 0 <= j < i ==> out[j]@ == nodes[j]@,
        decreases nodes.len() - i,
    {
        out.push(nodes[i].clone());
        i += 1;
    }
    assert(nodes_of(out@) =~= nodes_of(nodes@));
    out
}

/// Expands one node.
fn expand(item: &mut FileItem)
    ensures
        final(item)@ == (NodeView { is_expanded: true, ..old(item)@ }),
{
    item.is_expanded = true;
    proof {
        assert(item@.children =~= old(item)@.children);
    }
}

/// The walk of `load_subdirectories`, with the nodes to hang in at hand.
fn attach(item: &mut FileItem, target_path: &FsPath, fresh: &Vec<FileItem>, drives: &Vec<FileItem>)
    ensures
        final(item)@ == loaded(old(item)@, target_path@, nodes_of(fresh@), nodes_of(drives@)),
    decreases *old(item),
{
    match item.kind {
        NodeKind::RootGroup => {
            item.is_expanded = true;
            item.is_loaded = true;
            if item.children.len() == 0 {
                item.children = clone_nodes(drives);
                proof {
                    item.lemma_children();
                }
            } else {
                let mut i: usize = 0;
                while i < item.children.len()
                    invariant
                        i <= item.children.len(),
                        item.children.len() == old(item).children.len(),
                        item.name == old(item).name,
                        item.is_expanded,
                        item.is_loaded,
                        item.path == old(item).path,
                        item.kind == old(item).kind,
                        item.is_selected == old(item).is_selected,
                        forall|j: int|
                            0 <= j < i ==> (#[trigger] item.children[j])@ == (NodeView {
                                is_expanded: true,
                                ..old(item).children[j]@
                            }),
                        forall|j: int|
                            i <= j < item.children.len() ==> item.children[j] == old(
                                item,
                            ).children[j],
                    decreases item.children.len() - i,
                {
                    expand(&mut item.children[i]);
                    i += 1;
                }
                proof {
                    assert(item@.children =~= all_expanded(old(item)@.children));
                }
            }
            return;
        },
        _ => {},
    }
    if item.stands_for(target_path) {
        item.is_expanded = true;
        if !item.is_loaded {
            item.children = clone_nodes(fresh);
            item.is_loaded = true;
            proof {
                item.lemma_children();
            }
        } else {
            proof {
                assert(item@.children =~= old(item)@.children);
            }
        }
        return;
    }
    let mut i: usize = 0;
    while i < item.children.len()
        invariant
            i <= item.children.len(),
            item.children.len() == old(item).children.len(),
            item.name == old(item).name,
            item.is_expanded == old(item).is_expanded,
            item.is_loaded == old(item).is_loaded,
            item.path == old(item).path,
            item.kind == old(item).kind,
            item.is_selected == old(item).is_selected,
            forall|j: int|
                0 <= j < i ==> (#[trigger] item.children[j])@ == loaded(
                    old(item).children[j]@,
                    target_path@,
                    nodes_of(fresh@),
                    nodes_of(drives@),
                ),
            forall|j: int| i <= j < item.children.len() ==> item.children[j] == old(item).children[j],
        decreases item.children.len() - i,
    {
        attach(&mut item.children[i], target_path, fresh, drives);
        i += 1;
    }
    proof {
        assert(item@.children =~= loaded(
            old(item)@,
            target_path@,
            nodes_of(fresh@),
            nodes_of(drives@),
        ).children);
    }
}

/// Opens the node that stands for `target_path` in the tree below `item`.
///
/// `listing` holds the raw entries of `target_path` and `roots` the roots
/// of the machine, each with the entries of its first level. They are
/// looked at only where `expansion_needs_listing` and
/// `expansion_needs_roots` say so; a node that was loaded before is
/// expanded with the children it has.
pub fn load_subdirectories(
    item: &mut FileItem,
    target_path: &FsPath,
    listing: Vec<RawEntry>,
    roots: Vec<RawEntry>,
)
    ensures
        final(item)@ == loaded(
            old(item)@,
            target_path@,
            tree_of(raws_of(listing@), target_path@, 1),
            drives_of(raws_of(roots@)),
        ),
{
    let fresh = build_file_tree(listing, target_path, 1);
    let drives = get_drives(roots);
    attach(item, target_path, &fresh, &drives);
}

/// `n` and all below it after the node that stands for `target` was
/// closed: it is collapsed and keeps its children.
pub open spec fn collapsed(n: NodeView, target: PathView) -> NodeView
    decreases n,
{
    if stands_for(n, target) {
        NodeView { is_expanded: false, ..n }
    } else {
        NodeView {
            children: Seq::new(
                n.children.len(),
                |i: int|
                    if 0 <= i < n.children.len() {
                        collapsed(n.children[i], target)
                    } else {
                        arbitrary()
                    },
            ),
            ..n
        }
    }
}

/// Closes the node that stands for `target_path` in the tree below `item`.
/// Its children stay, so that it opens again without a read.
pub fn collapse_node(item: &mut FileItem, target_path: &FsPath)
    ensures
        final(item)@ == collapsed(old(item)@, target_path@),
    decreases *old(item),
{
    if item.stands_for(target_path) {
        item.is_expanded = false;
        proof {
            assert(item@.children =~= old(item)@.children);
        }
        return;
    }
    let mut i: usize = 0;
    while i < item.children.len()
        invariant
            i <= item.children.len(),
            item.children.len() == old(item).children.len(),
            item.name == old(item).name,
            item.is_expanded == old(item).is_expanded,
            item.is_loaded == old(item).is_loaded,
            item.path == old(item).path,
            item.kind == old(item).kind,
            item.is_selected == old(item).is_selected,
            forall|j: int|
                0 <= j < i ==> (#[trigger] item.children[j])@ == collapsed(
                    old(item).children[j]@,
                    target_path@,
                ),
            forall|j: int| i <= j < item.children.len() ==> item.children[j] == old(item).children[j],
        decreases item.children.len() - i,
    {
        collapse_node(&mut item.children[i], target_path);
        i += 1;
    }
    proof {
        assert(item@.children =~= collapsed(old(item)@, target_path@).children);
    }
}

} // verus!
