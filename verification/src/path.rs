//! Paths as the engine sees them: a root and the names that lead down
//! from it.

use vstd::prelude::*;

verus! {

/// What a path is: the text of its root and its segments, outermost
/// first.
pub ghost struct PathView {
    pub root: Seq<char>,
    pub segments: Seq<Seq<char>>,
}

/// An absolute or relative path, taken apart into its root (`/`, a drive
/// such as `C:\`, or nothing for a relative path) and the names below it.
#[derive(Debug, PartialEq, Eq)]
pub struct FsPath {
    pub root: String,
    pub segments: Vec<String>,
}

/// The texts of a list of strings.
pub open spec fn texts_of(names: Seq<String>) -> Seq<Seq<char>> {
    names.map_values(|s: String| s@)
}

impl View for FsPath {
    type V = PathView;

    open spec fn view(&self) -> PathView {
        PathView { root: self.root@, segments: texts_of(self.segments@) }
    }
}

/// The directory that holds `p`: `p` without its last segment. A bare
/// root, and the empty path, have none.
pub open spec fn parent_of(p: PathView) -> Option<PathView> {
    if p.segments.len() == 0 {
        None
    } else {
        Some(PathView { root: p.root, segments: p.segments.drop_last() })
    }
}

/// The last segment of `p`, if it has one.
pub open spec fn file_name_of(p: PathView) -> Option<Seq<char>> {
    if p.segments.len() == 0 {
        None
    } else {
        Some(p.segments.last())
    }
}

/// The path of the entry called `name` inside `p`.
pub open spec fn child_of(p: PathView, name: Seq<char>) -> PathView {
    PathView { root: p.root, segments: p.segments.push(name) }
}

/// Whether `p` is `base` or lies below it: same root, and the segments of
/// `base` lead the segments of `p`.
pub open spec fn is_under(p: PathView, base: PathView) -> bool {
    &&& p.root == base.root
    &&& base.segments.len() <= p.segments.len()
    &&& p.segments.take(base.segments.len() as int) == base.segments
}

/// Copies a list of strings.
pub fn clone_names(names: &Vec<String>) -> (r: Vec<String>)
    ensures
        texts_of(r@) == texts_of(names@),
{
    let mut out: Vec<String> = Vec::new();
    let mut i: usize = 0;
    while i < names.len()
        invariant
            i <= names.len(),
            out.len() == i,
            forall|j: int| 0 <= j < i ==> out[j]@ == names[j]@,
        decreases names.len() - i,
    {
        out.push(names[i].clone());
        i += 1;
    }
    assert(texts_of(out@) =~= texts_of(names@));
    out
}

/// Whether two lists of strings hold the same texts, up to `count` of
/// the first.
fn names_agree(a: &Vec<String>, b: &Vec<String>, count: usize) -> (r: bool)
    requires
        count <= a.len(),
        count <= b.len(),
    ensures
        r == (texts_of(a@).take(count as int) == texts_of(b@).take(count as int)),
{
    let mut i: usize = 0;
    while i < count
        invariant
            i <= count,
            count <= a.len(),
            count <= b.len(),
            forall|j: int| 0 <= j < i ==> a[j]@ == b[j]@,
        decreases count - i,
    {
        if a[i] != b[i] {
            proof {
                assert(texts_of(a@).take(count as int)[i as int] == a[i as int]@);
                assert(texts_of(b@).take(count as int)[i as int] == b[i as int]@);
            }
            return false;
        }
        i += 1;
    }
    assert(texts_of(a@).take(count as int) =~= texts_of(b@).take(count as int));
    true
}

impl Clone for FsPath {
    fn clone(&self) -> (r: Self)
        ensures
            r@ == self@,
    {
        FsPath { root: self.root.clone(), segments: clone_names(&self.segments) }
    }
}

impl FsPath {
    /// A path from its root and segments.
    pub fn new(root: String, segments: Vec<String>) -> (r: Self)
        ensures
            r.root == root,
            r.segments == segments,
    {
        FsPath { root, segments }
    }

    /// Whether this is the same path as `other`.
    pub fn same_as(&self, other: &FsPath) -> (r: bool)
        ensures
            r == (self@ == other@),
    {
        if self.root != other.root {
            return false;
        }
        if self.segments.len() != other.segments.len() {
            assert(texts_of(self.segments@).len() != texts_of(other.segments@).len());
            return false;
        }
        let r = names_agree(&self.segments, &other.segments, self.segments.len());
        proof {
            let a = texts_of(self.segments@);
            let b = texts_of(other.segments@);
            assert(a.take(a.len() as int) =~= a);
            assert(b.take(b.len() as int) =~= b);
        }
        r
    }

    /// The directory that holds this path.
    pub fn parent(&self) -> (r: Option<FsPath>)
        ensures
            parent_of(self@) == match r {
                Some(p) => Some(p@),
                None => None,
            },
    {
        if self.segments.len() == 0 {
            return None;
        }
        let mut segments = clone_names(&self.segments);
        segments.pop();
        proof {
            assert(texts_of(segments@) =~= texts_of(self.segments@).drop_last());
        }
        Some(FsPath { root: self.root.clone(), segments })
    }

    /// The last segment of this path.
    pub fn file_name(&self) -> (r: Option<String>)
        ensures
            file_name_of(self@) == match r {
                Some(n) => Some(n@),
                None => None,
            },
    {
        if self.segments.len() == 0 {
            None
        } else {
            Some(self.segments[self.segments.len() - 1].clone())
        }
    }

    /// The path of the entry called `name` inside this directory.
    pub fn join(&self, name: &str) -> (r: FsPath)
        ensures
            r@ == child_of(self@, name@),
    {
        let mut segments = clone_names(&self.segments);
        segments.push(name.to_string());
        proof {
            assert(texts_of(segments@) =~= texts_of(self.segments@).push(name@));
        }
        FsPath { root: self.root.clone(), segments }
    }

    /// Whether this path is `base` or lies below it.
    pub fn starts_with(&self, base: &FsPath) -> (r: bool)
        ensures
            r == is_under(self@, base@),
    {
        if self.root != base.root {
            return false;
        }
        if base.segments.len() > self.segments.len() {
            return false;
        }
        let r = names_agree(&self.segments, &base.segments, base.segments.len());
        proof {
            let b = texts_of(base.segments@);
            assert(b.take(b.len() as int) =~= b);
        }
        r
    }
}

} // verus!
