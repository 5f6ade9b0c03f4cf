//! The directory cache: for each path at most one listing, with the time
//! at which it was made. The cache is bounded, and when it grows past its
//! bound the older half of it leaves.

use vstd::prelude::*;
use crate::listing::well_listed;
use crate::models::{details_of, DetailView, FileDetail};
use crate::path::{FsPath, PathView};

verus! {

/// The number of listings the cache keeps at most.
pub const MAX_CACHE_ENTRIES: usize = 100;

/// The number of seconds for which a listing counts as fresh.
pub const CACHE_TTL: u64 = 30;

/// What one slot of the cache is: a path, its listing, and the time in
/// seconds at which the listing was made.
pub ghost struct SlotView {
    pub path: PathView,
    pub listing: Seq<DetailView>,
    pub captured_at: u64,
}

/// The place of the slot for `p` in `c`, or -1 where `c` has none.
pub open spec fn index_of(c: Seq<SlotView>, p: PathView) -> int
    decreases c.len(),
{
    if c.len() == 0 {
        -1
    } else if c[0].path == p {
        0
    } else {
        let r = index_of(c.drop_first(), p);
        if r < 0 {
            -1
        } else {
            r + 1
        }
    }
}

/// The slot that `c` holds for `p`.
pub open spec fn lookup(c: Seq<SlotView>, p: PathView) -> Option<SlotView> {
    if index_of(c, p) < 0 {
        None
    } else {
        Some(c[index_of(c, p)])
    }
}

/// No path has two slots.
pub open spec fn distinct_paths(c: Seq<SlotView>) -> bool {
    forall|i: int, j: int|
        0 <= i < j < c.len() ==> (#[trigger] c[i]).path != (#[trigger] c[j]).path
}

/// Every listing held is ordered and shows no hidden entry.
pub open spec fn all_well_listed(c: Seq<SlotView>) -> bool {
    forall|i: int| 0 <= i < c.len() ==> well_listed((#[trigger] c[i]).listing)
}

/// A cache is valid when no path has two slots, every listing in it is
/// ordered and shows no hidden entry, and it is within its bound.
pub open spec fn cache_valid(c: Seq<SlotView>) -> bool {
    distinct_paths(c) && all_well_listed(c) && c.len() <= MAX_CACHE_ENTRIES
}

/// `c` without the slot for `p`.
pub open spec fn without(c: Seq<SlotView>, p: PathView) -> Seq<SlotView> {
    if index_of(c, p) < 0 {
        c
    } else {
        c.remove(index_of(c, p))
    }
}

/// `c` with `slot` as its newest slot, in place of any slot it had for
/// the same path.
pub open spec fn stored(c: Seq<SlotView>, slot: SlotView) -> Seq<SlotView> {
    without(c, slot.path).push(slot)
}

/// `c` after eviction. A cache within its bound stays as it is. One
/// beyond it keeps its newer half, rounded down.
pub open spec fn evicted(c: Seq<SlotView>) -> Seq<SlotView> {
    if c.len() > MAX_CACHE_ENTRIES {
        c.skip(c.len() - c.len() / 2)
    } else {
        c
    }
}

/// Whether a slot made at `captured_at` is still fresh at `now`.
pub open spec fn fresh_at(captured_at: u64, now: u64) -> bool {
    now < captured_at || now - captured_at < CACHE_TTL
}

/// Where `index_of` points there is the slot for `p`, the first of them;
/// where it points nowhere, no slot is for `p`.
pub proof fn lemma_index_of(c: Seq<SlotView>, p: PathView)
    ensures
        -1 <= index_of(c, p) < c.len(),
        index_of(c, p) >= 0 ==> c[index_of(c, p)].path == p,
        forall|i: int|
            0 <= i < c.len() && (index_of(c, p) < 0 || i < index_of(c, p)) ==> (#[trigger] c[i]).path
                != p,
    decreases c.len(),
{
    if c.len() > 0 && c[0].path != p {
        let rest = c.drop_first();
        lemma_index_of(rest, p);
        assert forall|i: int|
            0 <= i < c.len() && (index_of(c, p) < 0 || i < index_of(c, p)) implies (#[trigger] c[i]).path
            != p by {
            if i > 0 {
                assert(c[i] == rest[i - 1]);
            }
        }
    }
}

/// In a cache without doubles, a slot for `p` at place `i` is the one
/// that `index_of` finds.
pub proof fn lemma_index_of_unique(c: Seq<SlotView>, p: PathView, i: int)
    requires
        distinct_paths(c),
        0 <= i < c.len(),
        c[i].path == p,
    ensures
        index_of(c, p) == i,
{
    lemma_index_of(c, p);
}

/// Taking a path out leaves no slot for it, keeps the slots of the other
/// paths, and keeps the paths distinct and the listings as they have to
/// be.
pub proof fn lemma_without(c: Seq<SlotView>, p: PathView)
    requires
        distinct_paths(c),
    ensures
        distinct_paths(without(c, p)),
        all_well_listed(c) ==> all_well_listed(without(c, p)),
        without(c, p).len() <= c.len(),
        lookup(without(c, p), p) is None,
        forall|q: PathView| q != p ==> lookup(without(c, p), q) == lookup(c, q),
{
    let w = without(c, p);
    let k = index_of(c, p);
    lemma_index_of(c, p);
    lemma_index_of(w, p);
    if k >= 0 {
        assert forall|i: int, j: int| 0 <= i < j < w.len() implies (#[trigger] w[i]).path != (
        #[trigger] w[j]).path by {
            let a = if i < k { i } else { i + 1 };
            let b = if j < k { j } else { j + 1 };
            assert(w[i] == c[a] && w[j] == c[b]);
        }
        if index_of(w, p) >= 0 {
            let i = index_of(w, p);
            let a = if i < k { i } else { i + 1 };
            assert(w[i] == c[a]);
            assert(c[a].path != c[k].path);
        }
        if all_well_listed(c) {
            assert forall|i: int| 0 <= i < w.len() implies well_listed((#[trigger] w[i]).listing) by {
                let a = if i < k { i } else { i + 1 };
                assert(w[i] == c[a]);
            }
        }
    }
    assert forall|q: PathView| q != p implies lookup(w, q) == lookup(c, q) by {
        lemma_index_of(c, q);
        lemma_index_of(w, q);
        if k >= 0 {
            let cq = index_of(c, q);
            let wq = index_of(w, q);
            if cq >= 0 {
                let i = if cq < k { cq } else { cq - 1 };
                assert(w[i] == c[cq]);
                lemma_index_of_unique(w, q, i);
            } else if wq >= 0 {
                let a = if wq < k { wq } else { wq + 1 };
                assert(w[wq] == c[a]);
            }
        }
    }
}

/// Storing a slot leaves exactly that slot for its path, keeps the slots
/// of the other paths, and keeps the paths distinct.
pub proof fn lemma_stored(c: Seq<SlotView>, slot: SlotView)
    requires
        distinct_paths(c),
    ensures
        distinct_paths(stored(c, slot)),
        all_well_listed(c) && well_listed(slot.listing) ==> all_well_listed(stored(c, slot)),
        stored(c, slot).len() <= c.len() + 1,
        stored(c, slot).len() >= 1,
        stored(c, slot).last() == slot,
        lookup(stored(c, slot), slot.path) == Some(slot),
        forall|q: PathView| q != slot.path ==> lookup(stored(c, slot), q) == lookup(c, q),
{
    let w = without(c, slot.path);
    let s = stored(c, slot);
    lemma_without(c, slot.path);
    lemma_index_of(w, slot.path);
    assert forall|i: int, j: int| 0 <= i < j < s.len() implies (#[trigger] s[i]).path != (
    #[trigger] s[j]).path by {
        assert(s[i] == w[i]);
        if j < w.len() {
            assert(s[j] == w[j]);
        }
    }
    lemma_index_of_unique(s, slot.path, s.len() - 1);
    if all_well_listed(c) && well_listed(slot.listing) {
        assert forall|i: int| 0 <= i < s.len() implies well_listed((#[trigger] s[i]).listing) by {
            if i < w.len() {
                assert(s[i] == w[i]);
            }
        }
    }
    assert forall|q: PathView| q != slot.path implies lookup(s, q) == lookup(c, q) by {
        lemma_index_of(s, q);
        lemma_index_of(w, q);
        let sq = index_of(s, q);
        let wq = index_of(w, q);
        if wq >= 0 {
            assert(s[wq] == w[wq]);
            lemma_index_of_unique(s, q, wq);
        } else if sq >= 0 {
            assert(s[sq] == w[sq]);
        }
    }
}

/// Eviction halves a cache that is beyond its bound and leaves any other
/// as it is. What it leaves has its paths distinct and its listings as
/// they have to be, holds the newest slot still, holds nothing that was
/// not held before, and is a valid cache wherever one halving is enough
/// to come within the bound.
pub proof fn lemma_evicted(c: Seq<SlotView>)
    requires
        distinct_paths(c),
        all_well_listed(c),
    ensures
        distinct_paths(evicted(c)),
        all_well_listed(evicted(c)),
        c.len() <= MAX_CACHE_ENTRIES ==> evicted(c) == c,
        c.len() > MAX_CACHE_ENTRIES ==> evicted(c).len() == c.len() / 2,
        c.len() <= 2 * MAX_CACHE_ENTRIES + 1 ==> cache_valid(evicted(c)),
        c.len() > 0 ==> evicted(c).len() > 0 && evicted(c).last() == c.last(),
        forall|q: PathView|
            lookup(evicted(c), q) is Some ==> lookup(evicted(c), q) == #[trigger] lookup(c, q),
{
    let e = evicted(c);
    let d = c.len() - e.len();
    assert forall|i: int| 0 <= i < e.len() implies well_listed((#[trigger] e[i]).listing) by {
        assert(e[i] == c[i + d]);
    }
    assert forall|i: int, j: int| 0 <= i < j < e.len() implies (#[trigger] e[i]).path != (
    #[trigger] e[j]).path by {
        assert(e[i] == c[i + d] && e[j] == c[j + d]);
    }
    assert forall|q: PathView| lookup(e, q) is Some implies lookup(e, q) == #[trigger] lookup(
        c,
        q,
    ) by {
        lemma_index_of(e, q);
        let i = index_of(e, q);
        assert(e[i] == c[i + d]);
        lemma_index_of_unique(c, q, i + d);
    }
}

/// One slot of the cache.
#[derive(Debug)]
pub struct CacheSlot {
    path: FsPath,
    entries: Vec<FileDetail>,
    captured_at: u64,
}

impl View for CacheSlot {
    type V = SlotView;

    closed spec fn view(&self) -> SlotView {
        SlotView {
            path: self.path@,
            listing: details_of(self.entries@),
            captured_at: self.captured_at,
        }
    }
}

/// The cache of directory listings, oldest slot first.
#[derive(Debug)]
pub struct DirectoryCache {
    slots: Vec<CacheSlot>,
}

impl View for DirectoryCache {
    type V = Seq<SlotView>;

    closed spec fn view(&self) -> Seq<SlotView> {
        self.slots@.map_values(|s: CacheSlot| s@)
    }
}

impl DirectoryCache {
    /// An empty cache.
    pub fn new() -> (r: Self)
        ensures
            r@ == Seq::<SlotView>::empty(),
            cache_valid(r@),
    {
        let r = DirectoryCache { slots: Vec::new() };
        assert(r@ =~= Seq::<SlotView>::empty());
        r
    }

    /// The number of listings held.
    pub fn len(&self) -> (r: usize)
        ensures
            r == self@.len(),
    {
        self.slots.len()
    }

    /// The place of the slot for `path`.
    fn find(&self, path: &FsPath) -> (r: Option<usize>)
        ensures
            match r {
                Some(i) => i == index_of(self@, path@) && i < self.slots.len() && self@[i as int]
                    == self.slots[i as int]@,
                None => index_of(self@, path@) < 0,
            },
    {
        let ghost c = self@;
        let mut i: usize = 0;
        proof {
            assert(c.skip(0) =~= c);
        }
        while i < self.slots.len()
            invariant
                i <= self.slots.len(),
                c == self@,
                index_of(c, path@) == if index_of(c.skip(i as int), path@) < 0 {
                    -1
                } else {
                    i + index_of(c.skip(i as int), path@)
                },
            decreases self.slots.len() - i,
        {
            proof {
                assert(c.skip(i as int)[0] == self.slots[i as int]@);
                assert(c.skip(i as int).drop_first() =~= c.skip(i as int + 1));
            }
            if self.slots[i].path.same_as(path) {
                return Some(i);
            }
            i += 1;
        }
        None
    }

    /// Whether the cache holds a listing for `path`.
    pub fn contains(&self, path: &FsPath) -> (r: bool)
        ensures
            r == lookup(self@, path@) is Some,
    {
        self.find(path).is_some()
    }

    /// The listing held for `path`.
    pub fn get(&self, path: &FsPath) -> (r: Option<&Vec<FileDetail>>)
        ensures
            all_well_listed(self@) ==> match r {
                Some(entries) => well_listed(details_of(entries@)),
                None => true,
            },
            match r {
                Some(entries) => lookup(self@, path@) is Some && details_of(entries@) == lookup(
                    self@,
                    path@,
                )->0.listing,
                None => lookup(self@, path@) is None,
            },
    {
        match self.find(path) {
            Some(i) => Some(&self.slots[i].entries),
            None => None,
        }
    }

    /// The time at which the listing held for `path` was made.
    pub fn captured_at(&self, path: &FsPath) -> (r: Option<u64>)
        ensures
            r == match lookup(self@, path@) {
                Some(slot) => Some(slot.captured_at),
                None => None,
            },
    {
        match self.find(path) {
            Some(i) => Some(self.slots[i].captured_at),
            None => None,
        }
    }

    /// Whether the cache holds a listing for `path` that is still fresh
    /// at `now`. A stale listing stays in the cache until it is taken out
    /// or replaced.
    pub fn is_fresh(&self, path: &FsPath, now: u64) -> (r: bool)
        ensures
            r == match lookup(self@, path@) {
                Some(slot) => fresh_at(slot.captured_at, now),
                None => false,
            },
    {
        match self.find(path) {
            Some(i) => {
                let at: u64 = self.slots[i].captured_at;
                now < at || now - at < CACHE_TTL
            },
            None => false,
        }
    }

    /// Takes the listing for `path` out of the cache.
    pub fn invalidate(&mut self, path: &FsPath)
        requires
            cache_valid(old(self)@),
        ensures
            final(self)@ == without(old(self)@, path@),
            cache_valid(final(self)@),
            lookup(final(self)@, path@) is None,
    {
        proof {
            lemma_without(self@, path@);
        }
        match self.find(path) {
            Some(i) => {
                self.slots.remove(i);
                proof {
                    assert(self@ =~= old(self)@.remove(i as int));
                }
            },
            None => {},
        }
    }

    /// Evicts: a cache beyond its bound keeps its newer half, rounded
    /// down, and a cache within its bound stays as it is. One halving
    /// brings a cache of up to twice the bound and one back within it.
    pub fn clean(&mut self)
        requires
            distinct_paths(old(self)@),
            all_well_listed(old(self)@),
        ensures
            final(self)@ == evicted(old(self)@),
            distinct_paths(final(self)@),
            all_well_listed(final(self)@),
            old(self)@.len() <= 2 * MAX_CACHE_ENTRIES + 1 ==> cache_valid(final(self)@),
    {
        proof {
            lemma_evicted(self@);
        }
        let n: usize = self.slots.len();
        if n > MAX_CACHE_ENTRIES {
            let kept = self.slots.split_off(n - n / 2);
            self.slots = kept;
            proof {
                assert(self@ =~= evicted(old(self)@));
            }
        }
    }

    /// Stores a listing for `path`, made at `now`, in place of any that
    /// the cache held for it, and evicts if the cache has grown beyond
    /// its bound. The listing has to be ordered and without hidden
    /// entries, as every listing that `build_listing` makes is.
    pub fn insert(&mut self, path: FsPath, entries: Vec<FileDetail>, now: u64)
        requires
            cache_valid(old(self)@),
            well_listed(details_of(entries@)),
        ensures
            final(self)@ == evicted(
                stored(
                    old(self)@,
                    (SlotView { path: path@, listing: details_of(entries@), captured_at: now }),
                ),
            ),
            cache_valid(final(self)@),
    {
        let ghost slot = SlotView { path: path@, listing: details_of(entries@), captured_at: now };
        proof {
            lemma_stored(self@, slot);
        }
        match self.find(&path) {
            Some(i) => {
                self.slots.remove(i);
                proof {
                    assert(self@ =~= without(old(self)@, path@));
                }
            },
            None => {},
        }
        self.slots.push(CacheSlot { path, entries, captured_at: now });
        proof {
            assert(self@ =~= stored(old(self)@, slot));
        }
        self.clean();
    }
}

} // verus!
