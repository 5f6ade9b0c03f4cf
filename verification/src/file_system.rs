//! The operations on directories: pages of listings served through the
//! cache, preloading, and the building of tree nodes.
//!
//! Reading a directory is the caller's part. Where an operation may need
//! the entries of a directory, it takes them as an argument, and
//! `needs_fetch` tells beforehand whether it will look at them.

use vstd::prelude::*;
use crate::cache::{
    cache_valid, evicted, lookup, stored, without, DirectoryCache, SlotView, lemma_stored,
    lemma_evicted,
};
use crate::listing::{
    build_listing, lemma_page_stays_well_listed, listing_of, page, page_of, shown, well_listed,
    sort_visible, sorted, visible,
};
use crate::models::{
    details_of, nodes_of, raws_of, DetailView, FileDetail, FileItem, NodeKind, NodeView, RawEntry,
    RawView, lemma_raw_children,
};
use crate::path::{child_of, FsPath, PathView};
use crate::text::starts_with_dot;

verus! {

/// The number of entries on one page of a listing.
pub const PAGE_SIZE: usize = 30;

/// The number of entries that a fetched listing holds at most.
pub const FULL_LISTING_LIMIT: usize = 10000;

/// The listing that a fetch of `path` yields from the raw entries `raw`:
/// the whole listing, up to the limit of a fetch.
pub open spec fn full_listing(raw: Seq<RawView>, path: PathView, now: u64) -> Seq<DetailView> {
    page_of(listing_of(raw, path, now), 0, FULL_LISTING_LIMIT as int)
}

/// The page that the cache can serve by itself: it holds a listing for
/// `path` with at least `offset + limit` entries.
pub open spec fn served(c: Seq<SlotView>, path: PathView, offset: int, limit: int) -> Option<
    Seq<DetailView>,
> {
    match lookup(c, path) {
        Some(slot) => if offset + limit <= slot.listing.len() {
            Some(slot.listing.subrange(offset, offset + limit))
        } else {
            None
        },
        None => None,
    }
}

/// The slot that a fetch of `path` at `now` stores.
pub open spec fn fetched_slot(raw: Seq<RawView>, path: PathView, now: u64) -> SlotView {
    SlotView { path, listing: full_listing(raw, path, now), captured_at: now }
}

/// The cache after a request for a page of `path`: unchanged where it
/// could serve the page, else with the fetched listing stored.
pub open spec fn cache_after_request(
    c: Seq<SlotView>,
    path: PathView,
    offset: int,
    limit: int,
    raw: Seq<RawView>,
    now: u64,
) -> Seq<SlotView> {
    if served(c, path, offset, limit) is Some {
        c
    } else {
        evicted(stored(c, fetched_slot(raw, path, now)))
    }
}

/// The page that a request for `path` returns: the cached one where the
/// cache could serve it, else the page of the fetched listing.
pub open spec fn requested_page(
    c: Seq<SlotView>,
    path: PathView,
    offset: int,
    limit: int,
    raw: Seq<RawView>,
    now: u64,
) -> Seq<DetailView> {
    match served(c, path, offset, limit) {
        Some(p) => p,
        None => page_of(full_listing(raw, path, now), offset, limit),
    }
}

/// The cache after a preload of `path`: unchanged where it held a
/// listing for `path`, else with the fetched listing stored.
pub open spec fn cache_after_preload(c: Seq<SlotView>, path: PathView, raw: Seq<RawView>, now: u64) -> Seq<
    SlotView,
> {
    if lookup(c, path) is Some {
        c
    } else {
        evicted(stored(c, fetched_slot(raw, path, now)))
    }
}

/// Whether a request for a page of `path` has to read the directory:
/// the cache holds no listing for it, or too short a one.
pub fn needs_fetch(cache: &DirectoryCache, path: &FsPath, offset: usize, limit: usize) -> (r: bool)
    ensures
        r == served(cache@, path@, offset as int, limit as int) is None,
{
    match cache.get(path) {
        Some(entries) => !(offset <= entries.len() && limit <= entries.len() - offset),
        None => true,
    }
}

/// Returns one page of the listing of `path`.
///
/// Where the cache holds a listing for `path` with at least
/// `offset + limit` entries, the page comes from the cache, the cache
/// stays as it is and `entries` is not looked at. Else `entries` are
/// taken as the raw entries of `path` read at `now`: the full listing
/// made of them is stored in place of any that the cache held for
/// `path`, and the page comes from it. A path that could not be read has
/// no entries, and its page is empty.
pub fn get_directory_contents_paged(
    cache: &mut DirectoryCache,
    path: &FsPath,
    offset: usize,
    limit: usize,
    entries: Vec<RawEntry>,
    now: u64,
) -> (r: Vec<FileDetail>)
    requires
        cache_valid(old(cache)@),
    ensures
        cache_valid(final(cache)@),
        well_listed(details_of(r@)),
        details_of(r@) == requested_page(
            old(cache)@,
            path@,
            offset as int,
            limit as int,
            raws_of(entries@),
            now,
        ),
        final(cache)@ == cache_after_request(
            old(cache)@,
            path@,
            offset as int,
            limit as int,
            raws_of(entries@),
            now,
        ),
{
    match cache.get(path) {
        Some(cached) => {
            if offset <= cached.len() && limit <= cached.len() - offset {
                let r = page(cached, offset, limit);
                proof {
                    assert(details_of(r@) =~= details_of(cached@).subrange(
                        offset as int,
                        offset + limit,
                    ));
                }
                return r;
            }
        },
        None => {},
    }
    let mut listing = build_listing(entries, path, now);
    proof {
        lemma_page_stays_well_listed(details_of(listing@), 0, FULL_LISTING_LIMIT as int);
    }
    listing.truncate(FULL_LISTING_LIMIT);
    proof {
        assert(details_of(listing@) =~= full_listing(raws_of(entries@), path@, now));
    }
    let r = page(&listing, offset, limit);
    cache.insert(path.clone(), listing, now);
    r
}

/// Returns the first page of the listing of `path`.
pub fn get_directory_contents(
    cache: &mut DirectoryCache,
    path: &FsPath,
    entries: Vec<RawEntry>,
    now: u64,
) -> (r: Vec<FileDetail>)
    requires
        cache_valid(old(cache)@),
    ensures
        cache_valid(final(cache)@),
        well_listed(details_of(r@)),
        details_of(r@) == requested_page(
            old(cache)@,
            path@,
            0,
            PAGE_SIZE as int,
            raws_of(entries@),
            now,
        ),
        final(cache)@ == cache_after_request(
            old(cache)@,
            path@,
            0,
            PAGE_SIZE as int,
            raws_of(entries@),
            now,
        ),
{
    get_directory_contents_paged(cache, path, 0, PAGE_SIZE, entries, now)
}

/// Whether a preload of `path` has anything to do: the cache holds no
/// listing for it.
pub fn needs_preload(cache: &DirectoryCache, path: &FsPath) -> (r: bool)
    ensures
        r == lookup(cache@, path@) is None,
{
    !cache.contains(path)
}

/// Warms the cache with the listing of `path`.
///
/// Where the cache holds a listing for `path` nothing happens. Else the
/// full listing made of `entries`, the raw entries of `path` read at
/// `now`, is stored.
pub fn preload_directory(cache: &mut DirectoryCache, path: &FsPath, entries: Vec<RawEntry>, now: u64)
    requires
        cache_valid(old(cache)@),
    ensures
        cache_valid(final(cache)@),
        final(cache)@ == cache_after_preload(old(cache)@, path@, raws_of(entries@), now),
{
    if cache.contains(path) {
        return;
    }
    let mut listing = build_listing(entries, path, now);
    proof {
        lemma_page_stays_well_listed(details_of(listing@), 0, FULL_LISTING_LIMIT as int);
    }
    listing.truncate(FULL_LISTING_LIMIT);
    proof {
        assert(details_of(listing@) =~= full_listing(raws_of(entries@), path@, now));
    }
    cache.insert(path.clone(), listing, now);
}

/// Takes the listing of `path` out of the cache.
pub fn invalidate_cache(cache: &mut DirectoryCache, path: &FsPath)
    requires
        cache_valid(old(cache)@),
    ensures
        cache_valid(final(cache)@),
        final(cache)@ == without(old(cache)@, path@),
{
    cache.invalidate(path);
}

/// Evicts listings where the cache is beyond its bound.
pub fn clean_cache(cache: &mut DirectoryCache)
    requires
        crate::cache::distinct_paths(old(cache)@),
        crate::cache::all_well_listed(old(cache)@),
    ensures
        final(cache)@ == evicted(old(cache)@),
        old(cache)@.len() > crate::cache::MAX_CACHE_ENTRIES ==> final(cache)@.len() == old(
            cache,
        )@.len() / 2,
        old(cache)@.len() <= crate::cache::MAX_CACHE_ENTRIES ==> final(cache)@ == old(cache)@,
        crate::cache::distinct_paths(final(cache)@),
        crate::cache::all_well_listed(final(cache)@),
        old(cache)@.len() <= 2 * crate::cache::MAX_CACHE_ENTRIES + 1 ==> cache_valid(
            final(cache)@,
        ),
{
    cache.clean();
}

/// How many entries of a directory a listing shows: those that are not
/// hidden.
pub fn get_directory_item_count(entries: &Vec<RawEntry>) -> (r: usize)
    ensures
        r == visible(raws_of(entries@)).len(),
{
    let ghost all = raws_of(entries@);
    let mut count: usize = 0;
    let mut i: usize = 0;
    proof {
        reveal(Seq::filter);
        assert(visible(all.take(0)) =~= Seq::<RawView>::empty());
    }
    while i < entries.len()
        invariant
            i <= entries.len(),
            all == raws_of(entries@),
            count <= i,
            count == visible(all.take(i as int)).len(),
        decreases entries.len() - i,
    {
        proof {
            assert(all.take(i as int + 1) =~= all.take(i as int).push(entries[i as int]@));
            all.take(i as int).lemma_filter_push(entries[i as int]@, shown());
        }
        if !starts_with_dot(entries[i].name.as_str()) {
            count += 1;
        }
        i += 1;
    }
    proof {
        assert(all.take(entries.len() as int) =~= all);
    }
    count
}

/// After a path was taken out of the cache, the next request for it
/// finds nothing to serve: its page is made of the entries read for that
/// request, whatever the cache held before. A first page that is wide
/// enough is the whole new listing, as long as the listing is within
/// the limit of a fetch.
pub proof fn lemma_invalidate_forces_fetch(
    c: Seq<SlotView>,
    path: PathView,
    offset: int,
    limit: int,
    raw: Seq<RawView>,
    now: u64,
)
    requires
        cache_valid(c),
    ensures
        served(without(c, path), path, offset, limit) is None,
        requested_page(without(c, path), path, offset, limit, raw, now) == page_of(
            full_listing(raw, path, now),
            offset,
            limit,
        ),
        cache_after_request(without(c, path), path, offset, limit, raw, now) == evicted(
            stored(without(c, path), fetched_slot(raw, path, now)),
        ),
        visible(raw).len() <= raw.len(),
        offset == 0 && visible(raw).len() <= limit && visible(raw).len() <= FULL_LISTING_LIMIT
            ==> requested_page(without(c, path), path, offset, limit, raw, now) == listing_of(
            raw,
            path,
            now,
        ),
{
    crate::cache::lemma_without(c, path);
    crate::listing::lemma_listing_holds_the_visible(raw, path, now);
    raw.lemma_filter_len(shown());
    let whole = listing_of(raw, path, now);
    if offset == 0 && whole.len() <= limit && whole.len() <= FULL_LISTING_LIMIT {
        assert(full_listing(raw, path, now) =~= whole);
        assert(page_of(whole, 0, limit) =~= whole);
    }
}

/// The listing that a fetch yields is ordered and shows no hidden entry.
pub proof fn lemma_full_listing_is_well_listed(raw: Seq<RawView>, path: PathView, now: u64)
    ensures
        well_listed(full_listing(raw, path, now)),
{
    crate::listing::lemma_listing_holds_the_visible(raw, path, now);
    lemma_page_stays_well_listed(listing_of(raw, path, now), 0, FULL_LISTING_LIMIT as int);
}

/// A preload leaves exactly one listing for its path: the one that the
/// cache held, or else the one made of what was read. A second preload
/// of the same path, whatever it read, changes nothing. The listings of
/// all other paths stay wherever the cache had room for one more.
pub proof fn lemma_preload_idempotent(
    c: Seq<SlotView>,
    path: PathView,
    first: Seq<RawView>,
    first_now: u64,
    second: Seq<RawView>,
    second_now: u64,
)
    requires
        cache_valid(c),
    ensures
        cache_valid(cache_after_preload(c, path, first, first_now)),
        lookup(cache_after_preload(c, path, first, first_now), path) is Some,
        forall|i: int, j: int|
            #![trigger cache_after_preload(c, path, first, first_now)[i], cache_after_preload(c, path, first, first_now)[j]]
            {
                let after = cache_after_preload(c, path, first, first_now);
                0 <= i < after.len() && 0 <= j < after.len() && after[i].path == path && after[j].path
                    == path ==> i == j
            },
        cache_after_preload(
            cache_after_preload(c, path, first, first_now),
            path,
            second,
            second_now,
        ) == cache_after_preload(c, path, first, first_now),
        lookup(c, path) is Some ==> cache_after_preload(c, path, first, first_now) == c,
        lookup(c, path) is None ==> lookup(cache_after_preload(c, path, first, first_now), path)
            == Some(fetched_slot(first, path, first_now)),
        c.len() < crate::cache::MAX_CACHE_ENTRIES ==> forall|q: PathView|
            q != path ==> #[trigger] lookup(cache_after_preload(c, path, first, first_now), q)
                == lookup(c, q),
{
    let after = cache_after_preload(c, path, first, first_now);
    if lookup(c, path) is None {
        let slot = fetched_slot(first, path, first_now);
        lemma_full_listing_is_well_listed(first, path, first_now);
        lemma_stored(c, slot);
        lemma_evicted(stored(c, slot));
        crate::cache::lemma_index_of_unique(after, path, after.len() - 1);
    }
}

/// A request leaves a listing for its path in the cache, and a second
/// request for a page that this listing covers is served from the cache
/// without a look at what was read. The listings of all other paths stay
/// wherever the cache had room for one more.
pub proof fn lemma_request_then_served(
    c: Seq<SlotView>,
    path: PathView,
    offset: int,
    limit: int,
    raw: Seq<RawView>,
    now: u64,
    next_offset: int,
    next_limit: int,
)
    requires
        cache_valid(c),
        0 <= offset,
        0 <= limit,
        0 <= next_offset,
        0 <= next_limit,
    ensures
        lookup(cache_after_request(c, path, offset, limit, raw, now), path) is Some,
        served(c, path, offset, limit) is None ==> lookup(
            cache_after_request(c, path, offset, limit, raw, now),
            path,
        ) == Some(fetched_slot(raw, path, now)),
        served(c, path, offset, limit) is None && next_offset + next_limit <= full_listing(
            raw,
            path,
            now,
        ).len() ==> served(
            cache_after_request(c, path, offset, limit, raw, now),
            path,
            next_offset,
            next_limit,
        ) == Some(full_listing(raw, path, now).subrange(next_offset, next_offset + next_limit)),
        c.len() < crate::cache::MAX_CACHE_ENTRIES ==> forall|q: PathView|
            q != path ==> #[trigger] lookup(
                cache_after_request(c, path, offset, limit, raw, now),
                q,
            ) == lookup(c, q),
{
    let after = cache_after_request(c, path, offset, limit, raw, now);
    if served(c, path, offset, limit) is None {
        let slot = fetched_slot(raw, path, now);
        lemma_full_listing_is_well_listed(raw, path, now);
        lemma_stored(c, slot);
        lemma_evicted(stored(c, slot));
        crate::cache::lemma_index_of_unique(after, path, after.len() - 1);
    }
}

/// The test that keeps the directories.
pub open spec fn is_directory() -> spec_fn(RawView) -> bool {
    |e: RawView| e.is_dir
}

/// The tree node that the directory `e` inside `base` becomes when the
/// tree is built `depth` levels deep from `base`: collapsed, not
/// selected, and loaded if its own entries were still within the depth.
pub open spec fn node_of(e: RawView, base: PathView, depth: nat) -> NodeView
    decreases depth, 0nat,
{
    NodeView {
        name: e.name,
        is_expanded: false,
        is_loaded: depth > 1,
        children: if depth > 0 {
            tree_of(e.children, child_of(base, e.name), (depth - 1) as nat)
        } else {
            Seq::empty()
        },
        path: child_of(base, e.name),
        is_selected: false,
        kind: NodeKind::Directory,
    }
}

/// The tree nodes below `base`, `depth` levels deep: one for each visible
/// directory among `raw`, in order of name. At depth zero there are
/// none.
pub open spec fn tree_of(raw: Seq<RawView>, base: PathView, depth: nat) -> Seq<NodeView>
    decreases depth, 1nat,
{
    if depth == 0 {
        Seq::empty()
    } else {
        let dirs = sorted(visible(raw)).filter(is_directory());
        Seq::new(dirs.len(), |i: int| node_of(dirs[i], base, depth))
    }
}

/// Builds the tree nodes below the directory `base` from its raw
/// entries, `depth` levels deep. Files and hidden directories are left
/// out.
pub fn build_file_tree(entries: Vec<RawEntry>, base: &FsPath, depth: usize) -> (r: Vec<FileItem>)
    ensures
        nodes_of(r@) == tree_of(raws_of(entries@), base@, depth as nat),
    decreases depth,
{
    let mut out: Vec<FileItem> = Vec::new();
    if depth == 0 {
        proof {
            assert(nodes_of(out@) =~= Seq::<NodeView>::empty());
        }
        return out;
    }
    let mut rest = sort_visible(entries);
    let ghost all = raws_of(rest@);
    proof {
        assert(all.skip(all.len() as int) =~= Seq::<RawView>::empty());
        reveal(Seq::filter);
        assert(Seq::<RawView>::empty().filter(is_directory()) =~= Seq::<RawView>::empty());
    }
    while rest.len() > 0
        invariant
            depth > 0,
            rest.len() <= all.len(),
            raws_of(rest@) == all.take(rest.len() as int),
            nodes_of(out@).len() == all.skip(rest.len() as int).filter(is_directory()).len(),
            forall|i: int|
                0 <= i < out.len() ==> (#[trigger] out[i])@ == node_of(
                    all.skip(rest.len() as int).filter(is_directory())[i],
                    base@,
                    depth as nat,
                ),
        decreases rest.len(),
    {
        let ghost k = rest.len() as int;
        let ghost done = all.skip(k);
        let ghost before = out@;
        let x = rest.pop().unwrap();
        proof {
            assert(raws_of(rest@) =~= all.take(k - 1));
            assert(x@ == all.take(k)[k - 1]);
            assert(all.skip(k - 1) =~= seq![x@] + done);
            done.lemma_filter_prepend(x@, is_directory());
            lemma_raw_children(x);
        }
        if x.is_dir {
            let RawEntry { name, children, .. } = x;
            let path = base.join(name.as_str());
            let below = build_file_tree(children, &path, depth - 1);
            let node = FileItem {
                name,
                is_expanded: false,
                is_loaded: depth > 1,
                children: below,
                path,
                is_selected: false,
                kind: NodeKind::Directory,
            };
            proof {
                node.lemma_children();
                assert(node@ == node_of(x@, base@, depth as nat));
            }
            out.insert(0, node);
            proof {
                let dirs = all.skip(k - 1).filter(is_directory());
                assert(dirs =~= seq![x@] + done.filter(is_directory()));
                assert forall|i: int| 0 <= i < out.len() implies (#[trigger] out[i])@ == node_of(
                    dirs[i],
                    base@,
                    depth as nat,
                ) by {
                    if i > 0 {
                        assert(out[i] == before[i - 1]);
                    }
                }
            }
        }
    }
    proof {
        assert(all.skip(0) =~= all);
        assert(nodes_of(out@) =~= tree_of(raws_of(entries@), base@, depth as nat));
    }
    out
}

/// The tree node of one root of the machine: named as the root is,
/// expanded, with the directories of its first level as children.
pub open spec fn drive_node(root: RawView) -> NodeView {
    let path = PathView { root: root.name, segments: Seq::empty() };
    NodeView {
        name: root.name,
        is_expanded: true,
        is_loaded: true,
        children: tree_of(root.children, path, 1),
        path,
        is_selected: false,
        kind: NodeKind::Directory,
    }
}

/// The tree nodes of the roots of the machine, in the order given.
pub open spec fn drives_of(roots: Seq<RawView>) -> Seq<NodeView> {
    roots.map_values(|r: RawView| drive_node(r))
}

/// Builds the tree nodes of the roots of the machine: drives such as
/// `C:\`, or the single root `/`. Each root comes as a raw entry named
/// as the root is, holding the entries of its first level.
pub fn get_drives(roots: Vec<RawEntry>) -> (r: Vec<FileItem>)
    ensures
        nodes_of(r@) == drives_of(raws_of(roots@)),
{
    let ghost all = raws_of(roots@);
    let mut rest = roots;
    let mut out: Vec<FileItem> = Vec::new();
    while rest.len() > 0
        invariant
            rest.len() <= all.len(),
            raws_of(rest@) == all.take(rest.len() as int),
            out.len() == all.len() - rest.len(),
            forall|i: int|
                0 <= i < out.len() ==> (#[trigger] out[i])@ == drive_node(all[rest.len() + i]),
        decreases rest.len(),
    {
        let ghost k = rest.len() as int;
        let ghost before = out@;
        let x = rest.pop().unwrap();
        proof {
            assert(raws_of(rest@) =~= all.take(k - 1));
            assert(x@ == all.take(k)[k - 1]);
            lemma_raw_children(x);
        }
        let RawEntry { name, children, .. } = x;
        let path = FsPath::new(name.clone(), Vec::new());
        proof {
            assert(path@.segments =~= Seq::<Seq<char>>::empty());
        }
        let below = build_file_tree(children, &path, 1);
        let node = FileItem {
            name,
            is_expanded: true,
            is_loaded: true,
            children: below,
            path,
            is_selected: false,
            kind: NodeKind::Directory,
        };
        proof {
            node.lemma_children();
        }
        out.insert(0, node);
        proof {
            assert forall|i: int| 0 <= i < out.len() implies (#[trigger] out[i])@ == drive_node(
                all[k - 1 + i],
            ) by {
                if i > 0 {
                    assert(out[i] == before[i - 1]);
                }
            }
        }
    }
    proof {
        assert(nodes_of(out@) =~= drives_of(all));
    }
    out
}

/// The name of the drive with the letter at place `index` of the
/// alphabet: `A:\` for 0, `Z:\` for 25.
pub open spec fn drive_name(index: int) -> Seq<char> {
    seq![(65 + index) as char, ':', '\\']
}

/// The names of the drives that a machine with drive letters may have,
/// `A:\` to `Z:\`. Which of them exist is for the caller to find out.
pub fn drive_letters() -> (r: Vec<String>)
    ensures
        r.len() == 26,
        forall|i: int| 0 <= i < 26 ==> (#[trigger] r[i])@ == drive_name(i),
{
    let mut out: Vec<String> = Vec::new();
    let mut i: u8 = 0;
    while i < 26
        invariant
            i <= 26,
            out.len() == i,
            forall|j: int| 0 <= j < i ==> (#[trigger] out[j])@ == drive_name(j),
        decreases 26 - i,
    {
        let mut name = String::new();
        crate::text::push_char(&mut name, (65u8 + i) as char);
        crate::text::push_char(&mut name, ':');
        crate::text::push_char(&mut name, '\\');
        proof {
            assert(name@ =~= drive_name(i as int));
        }
        out.push(name);
        i += 1;
    }
    out
}

} // verus!
