//! The list of visited directories, with a cursor that moves back and
//! forward through it.

use vstd::prelude::*;
use crate::path::{FsPath, PathView};

verus! {

/// What a history is: the visited paths, oldest first, and the place of
/// the current one among them.
pub ghost struct HistoryView {
    pub entries: Seq<PathView>,
    pub position: nat,
}

/// The cursor points at an entry, or at zero where there is none.
pub open spec fn history_valid(h: HistoryView) -> bool {
    if h.entries.len() == 0 {
        h.position == 0
    } else {
        h.position < h.entries.len()
    }
}

/// The path under the cursor.
pub open spec fn current_of(h: HistoryView) -> Option<PathView> {
    if h.entries.len() == 0 {
        None
    } else {
        Some(h.entries[h.position as int])
    }
}

/// The history after a visit to `p`. A visit to the current path changes
/// nothing. Any other visit drops what lay ahead of the cursor, appends
/// `p` and moves the cursor onto it.
pub open spec fn pushed(h: HistoryView, p: PathView) -> HistoryView {
    if current_of(h) == Some(p) {
        h
    } else {
        let kept = if h.entries.len() == 0 {
            h.entries
        } else {
            h.entries.take(h.position as int + 1)
        };
        HistoryView { entries: kept.push(p), position: kept.len() }
    }
}

/// Whether the cursor can move back.
pub open spec fn can_go_back(h: HistoryView) -> bool {
    h.position > 0
}

/// Whether the cursor can move forward.
pub open spec fn can_go_forward(h: HistoryView) -> bool {
    h.position + 1 < h.entries.len()
}

/// The history after a step back, where one is possible.
pub open spec fn went_back(h: HistoryView) -> HistoryView {
    if can_go_back(h) {
        HistoryView { entries: h.entries, position: (h.position - 1) as nat }
    } else {
        h
    }
}

/// The history after a step forward, where one is possible.
pub open spec fn went_forward(h: HistoryView) -> HistoryView {
    if can_go_forward(h) {
        HistoryView { entries: h.entries, position: h.position + 1 }
    } else {
        h
    }
}

/// A step back followed by a step forward ends where it began: on the
/// same history, with the cursor on the path that was current before.
pub proof fn lemma_back_then_forward(h: HistoryView)
    requires
        history_valid(h),
        can_go_back(h),
    ensures
        can_go_forward(went_back(h)),
        went_forward(went_back(h)) == h,
        current_of(went_forward(went_back(h))) == current_of(h),
{
}

/// A visit to the current path moves nothing: the cursor stays and the
/// history keeps its length.
pub proof fn lemma_push_current_is_noop(h: HistoryView, p: PathView)
    requires
        history_valid(h),
        current_of(h) == Some(p),
    ensures
        pushed(h, p).position == h.position,
        pushed(h, p).entries.len() == h.entries.len(),
        pushed(h, p) == h,
{
}

/// Every visit leaves a valid history whose current path is the one
/// visited.
pub proof fn lemma_push_lands_on_path(h: HistoryView, p: PathView)
    requires
        history_valid(h),
    ensures
        history_valid(pushed(h, p)),
        current_of(pushed(h, p)) == Some(p),
{
}

/// Steps back and forward keep the history valid.
pub proof fn lemma_steps_keep_valid(h: HistoryView)
    requires
        history_valid(h),
    ensures
        history_valid(went_back(h)),
        history_valid(went_forward(h)),
{
}

/// The visited directories and the cursor into them.
#[derive(Debug)]
pub struct NavigationHistory {
    entries: Vec<FsPath>,
    position: usize,
}

/// The views of a list of paths.
pub open spec fn paths_of(paths: Seq<FsPath>) -> Seq<PathView> {
    paths.map_values(|p: FsPath| p@)
}

impl View for NavigationHistory {
    type V = HistoryView;

    closed spec fn view(&self) -> HistoryView {
        HistoryView { entries: paths_of(self.entries@), position: self.position as nat }
    }
}

impl Clone for NavigationHistory {
    fn clone(&self) -> (r: Self)
        ensures
            r@ == self@,
    {
        let mut entries: Vec<FsPath> = Vec::new();
        let mut i: usize = 0;
        while i < self.entries.len()
            invariant
                i <= self.entries.len(),
                entries.len() == i,
                forall|j: int| 0 <= j < i ==> entries[j]@ == self.entries[j]@,
            decreases self.entries.len() - i,
        {
            entries.push(self.entries[i].clone());
            i += 1;
        }
        let r = NavigationHistory { entries, position: self.position };
        proof {
            assert(r@.entries =~= self@.entries);
        }
        r
    }
}

impl NavigationHistory {
    /// The history that holds `entries` with the cursor at `position`,
    /// or nothing where the cursor would point at no entry.
    pub fn restore(entries: Vec<FsPath>, position: usize) -> (r: Option<Self>)
        ensures
            match r {
                Some(h) => h@ == (HistoryView {
                    entries: paths_of(entries@),
                    position: position as nat,
                }) && history_valid(h@),
                None => !history_valid(
                    (HistoryView { entries: paths_of(entries@), position: position as nat }),
                ),
            },
    {
        let valid = if entries.len() == 0 {
            position == 0
        } else {
            position < entries.len()
        };
        if valid {
            Some(NavigationHistory { entries, position })
        } else {
            None
        }
    }

    /// The paths of the history, oldest first.
    pub fn paths(&self) -> (r: Vec<FsPath>)
        ensures
            paths_of(r@) == self@.entries,
    {
        let copy = self.clone();
        copy.entries
    }

    /// An empty history.
    pub fn new() -> (r: Self)
        ensures
            r@.entries.len() == 0,
            r@.position == 0,
            history_valid(r@),
    {
        NavigationHistory { entries: Vec::new(), position: 0 }
    }

    /// The number of paths in the history.
    pub fn len(&self) -> (r: usize)
        ensures
            r == self@.entries.len(),
    {
        self.entries.len()
    }

    /// The place of the cursor.
    pub fn position(&self) -> (r: usize)
        ensures
            r == self@.position,
    {
        self.position
    }

    /// The path at place `index`.
    pub fn entry(&self, index: usize) -> (r: Option<&FsPath>)
        ensures
            match r {
                Some(p) => index < self@.entries.len() && p@ == self@.entries[index as int],
                None => index >= self@.entries.len(),
            },
    {
        if index < self.entries.len() {
            Some(&self.entries[index])
        } else {
            None
        }
    }

    /// The path under the cursor.
    pub fn current(&self) -> (r: Option<&FsPath>)
        requires
            history_valid(self@),
        ensures
            current_of(self@) == match r {
                Some(p) => Some(p@),
                None => None,
            },
    {
        if self.entries.len() == 0 {
            None
        } else {
            Some(&self.entries[self.position])
        }
    }

    /// Records a visit to `path`.
    pub fn push(&mut self, path: FsPath)
        requires
            history_valid(old(self)@),
        ensures
            final(self)@ == pushed(old(self)@, path@),
            history_valid(final(self)@),
    {
        if self.entries.len() > 0 {
            if self.entries[self.position].same_as(&path) {
                return;
            }
            self.entries.truncate(self.position + 1);
        }
        self.entries.push(path);
        self.position = self.entries.len() - 1;
        proof {
            assert(final(self)@.entries =~= pushed(old(self)@, path@).entries);
        }
    }

    /// Whether a step back is possible.
    pub fn can_go_back(&self) -> (r: bool)
        ensures
            r == can_go_back(self@),
    {
        self.position > 0
    }

    /// Whether a step forward is possible.
    pub fn can_go_forward(&self) -> (r: bool)
        requires
            history_valid(self@),
        ensures
            r == can_go_forward(self@),
    {
        self.entries.len() > 0 && self.position < self.entries.len() - 1
    }

    /// Steps back and returns the path stepped onto, or nothing where
    /// the cursor is at the oldest path.
    pub fn back(&mut self) -> (r: Option<FsPath>)
        requires
            history_valid(old(self)@),
        ensures
            final(self)@ == went_back(old(self)@),
            history_valid(final(self)@),
            match r {
                Some(p) => can_go_back(old(self)@) && Some(p@) == current_of(final(self)@),
                None => !can_go_back(old(self)@),
            },
    {
        if self.position > 0 {
            self.position -= 1;
            Some(self.entries[self.position].clone())
        } else {
            None
        }
    }

    /// Steps forward and returns the path stepped onto, or nothing where
    /// the cursor is at the newest path.
    pub fn forward(&mut self) -> (r: Option<FsPath>)
        requires
            history_valid(old(self)@),
        ensures
            final(self)@ == went_forward(old(self)@),
            history_valid(final(self)@),
            match r {
                Some(p) => can_go_forward(old(self)@) && Some(p@) == current_of(final(self)@),
                None => !can_go_forward(old(self)@),
            },
    {
        if self.entries.len() > 0 && self.position < self.entries.len() - 1 {
            self.position += 1;
            Some(self.entries[self.position].clone())
        } else {
            None
        }
    }
}

} // verus!
