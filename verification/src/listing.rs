//! From the raw entries of one directory to its listing: hidden entries
//! dropped, directories before files, names in case-sensitive order, each
//! entry classified.

use vstd::prelude::*;
use crate::models::{raws_of, details_of, DetailView, EntryKind, FileDetail, KindView, RawEntry, RawView};
use crate::path::{child_of, FsPath, PathView};
use crate::text::{
    decimal, is_hidden, lemma_text_le_total, lemma_text_le_transitive, lowered_extension, name_le,
    file_extension, push_decimal, push_two_digits, starts_with_dot, text_le, two_digits,
};

verus! {

/// The order of a listing: a directory before a file, and two of a kind
/// by name.
pub open spec fn entry_le(a: RawView, b: RawView) -> bool {
    if a.is_dir == b.is_dir {
        text_le(a.name, b.name)
    } else {
        a.is_dir
    }
}

/// Any two entries are comparable.
pub proof fn lemma_entry_le_total(a: RawView, b: RawView)
    ensures
        entry_le(a, b) || entry_le(b, a),
{
    lemma_text_le_total(a.name, b.name);
}

/// The order of a listing is transitive.
pub proof fn lemma_entry_le_transitive(a: RawView, b: RawView, c: RawView)
    requires
        entry_le(a, b),
        entry_le(b, c),
    ensures
        entry_le(a, c),
{
    if a.is_dir == b.is_dir && b.is_dir == c.is_dir {
        lemma_text_le_transitive(a.name, b.name, c.name);
    }
}

/// Whether every entry comes no later than those after it.
pub open spec fn ordered(s: Seq<RawView>) -> bool {
    forall|i: int, j: int| 0 <= i < j < s.len() ==> entry_le(#[trigger] s[i], #[trigger] s[j])
}

/// The test that keeps the entries a listing shows.
pub open spec fn shown() -> spec_fn(RawView) -> bool {
    |e: RawView| !is_hidden(e.name)
}

/// The entries that are not hidden, in the order given.
pub open spec fn visible(s: Seq<RawView>) -> Seq<RawView> {
    s.filter(shown())
}

/// The place at which `x` goes into `t`: before the first entry that `x`
/// does not come after.
pub open spec fn insert_point(t: Seq<RawView>, x: RawView) -> int
    decreases t.len(),
{
    if t.len() == 0 || entry_le(x, t[0]) {
        0
    } else {
        1 + insert_point(t.drop_first(), x)
    }
}

/// `t` with `x` put in at its place.
pub open spec fn insert_sorted(t: Seq<RawView>, x: RawView) -> Seq<RawView> {
    t.insert(insert_point(t, x), x)
}

/// The entries of `s` in listing order. Entries that compare equal keep
/// the order in which `s` has them.
pub open spec fn sorted(s: Seq<RawView>) -> Seq<RawView>
    decreases s.len(),
{
    if s.len() == 0 {
        s
    } else {
        insert_sorted(sorted(s.drop_first()), s[0])
    }
}

/// The insert point lies within `t`, after every entry that `x` comes
/// after and before one that it does not.
pub proof fn lemma_insert_point(t: Seq<RawView>, x: RawView)
    ensures
        0 <= insert_point(t, x) <= t.len(),
        forall|i: int| 0 <= i < insert_point(t, x) ==> !entry_le(x, #[trigger] t[i]),
        insert_point(t, x) < t.len() ==> entry_le(x, t[insert_point(t, x)]),
    decreases t.len(),
{
    if !(t.len() == 0 || entry_le(x, t[0])) {
        let rest = t.drop_first();
        lemma_insert_point(rest, x);
        assert forall|i: int| 0 <= i < insert_point(t, x) implies !entry_le(x, #[trigger] t[i]) by {
            if i > 0 {
                assert(t[i] == rest[i - 1]);
            }
        }
    }
}

/// Putting an entry into an ordered list leaves it ordered.
pub proof fn lemma_insert_keeps_order(t: Seq<RawView>, x: RawView)
    requires
        ordered(t),
    ensures
        ordered(insert_sorted(t, x)),
{
    let p = insert_point(t, x);
    let r = insert_sorted(t, x);
    lemma_insert_point(t, x);
    assert forall|i: int, j: int| 0 <= i < j < r.len() implies entry_le(
        #[trigger] r[i],
        #[trigger] r[j],
    ) by {
        if j < p {
            assert(r[i] == t[i] && r[j] == t[j]);
        } else if j == p {
            assert(r[i] == t[i]);
            lemma_entry_le_total(x, t[i]);
        } else if i == p {
            assert(r[j] == t[j - 1]);
            if j - 1 > p {
                assert(entry_le(t[p], t[j - 1]));
                lemma_entry_le_transitive(x, t[p], t[j - 1]);
            }
        } else if i < p {
            assert(r[i] == t[i] && r[j] == t[j - 1]);
        } else {
            assert(r[i] == t[i - 1] && r[j] == t[j - 1]);
        }
    }
}

/// Sorting yields an ordered list.
pub proof fn lemma_sorted_is_ordered(s: Seq<RawView>)
    ensures
        ordered(sorted(s)),
    decreases s.len(),
{
    if s.len() > 0 {
        lemma_sorted_is_ordered(s.drop_first());
        lemma_insert_keeps_order(sorted(s.drop_first()), s[0]);
    }
}

/// Sorting keeps every entry, as often as it occurs, and adds none.
pub proof fn lemma_sorted_is_permutation(s: Seq<RawView>)
    ensures
        sorted(s).to_multiset() == s.to_multiset(),
        sorted(s).len() == s.len(),
    decreases s.len(),
{
    broadcast use vstd::seq_lib::group_to_multiset_ensures;

    if s.len() > 0 {
        let rest = s.drop_first();
        lemma_sorted_is_permutation(rest);
        lemma_insert_point(sorted(rest), s[0]);
        vstd::seq_lib::to_multiset_insert(sorted(rest), insert_point(sorted(rest), s[0]), s[0]);
        assert(s =~= seq![s[0]] + rest);
        vstd::seq_lib::to_multiset_insert(rest, 0, s[0]);
        assert(rest.insert(0, s[0]) =~= s);
    }
}

/// Whether `a` comes no later than `b` in a listing.
pub fn raw_entry_le(a: &RawEntry, b: &RawEntry) -> (r: bool)
    ensures
        r == entry_le(a@, b@),
{
    if a.is_dir == b.is_dir {
        name_le(a.name.as_str(), b.name.as_str())
    } else {
        a.is_dir
    }
}

/// In an ordered list, the insert point is the one place with only
/// entries that `x` comes after before it, and none of them from it on.
pub proof fn lemma_insert_point_is_the_boundary(t: Seq<RawView>, x: RawView, p: int)
    requires
        ordered(t),
        0 <= p <= t.len(),
        forall|i: int| 0 <= i < p ==> !entry_le(x, #[trigger] t[i]),
        p < t.len() ==> entry_le(x, t[p]),
    ensures
        insert_point(t, x) == p,
{
    lemma_insert_point(t, x);
}

/// Puts `x` into the ordered list `out` at its place, which a search by
/// halving finds.
fn insert_entry(out: &mut Vec<RawEntry>, x: RawEntry)
    requires
        ordered(raws_of(old(out)@)),
    ensures
        raws_of(final(out)@) == insert_sorted(raws_of(old(out)@), x@),
{
    let ghost t = raws_of(out@);
    let mut lo: usize = 0;
    let mut hi: usize = out.len();
    while lo < hi
        invariant
            lo <= hi <= out.len(),
            out@ == old(out)@,
            t == raws_of(out@),
            ordered(t),
            forall|i: int| 0 <= i < lo ==> !entry_le(x@, #[trigger] t[i]),
            hi < out.len() ==> entry_le(x@, t[hi as int]),
        decreases hi - lo,
    {
        let mid: usize = lo + (hi - lo) / 2;
        assert(t[mid as int] == out[mid as int]@);
        if raw_entry_le(&x, &out[mid]) {
            hi = mid;
        } else {
            proof {
                assert forall|i: int| 0 <= i < mid + 1 implies !entry_le(x@, #[trigger] t[i]) by {
                    if i < mid && entry_le(x@, t[i]) {
                        assert(entry_le(t[i], t[mid as int]));
                        lemma_entry_le_transitive(x@, t[i], t[mid as int]);
                    }
                }
            }
            lo = mid + 1;
        }
    }
    proof {
        lemma_insert_point_is_the_boundary(t, x@, lo as int);
    }
    out.insert(lo, x);
    proof {
        assert(raws_of(out@) =~= t.insert(lo as int, x@));
    }
}

/// The visible entries of a directory in listing order.
pub fn sort_visible(entries: Vec<RawEntry>) -> (r: Vec<RawEntry>)
    ensures
        raws_of(r@) == sorted(visible(raws_of(entries@))),
{
    let ghost all = raws_of(entries@);
    let mut rest = entries;
    let mut out: Vec<RawEntry> = Vec::new();
    proof {
        assert(all.skip(all.len() as int) =~= Seq::<RawView>::empty());
        reveal(Seq::filter);
        assert(visible(Seq::<RawView>::empty()) =~= Seq::<RawView>::empty());
        assert(raws_of(out@) =~= Seq::<RawView>::empty());
    }
    while rest.len() > 0
        invariant
            rest.len() <= all.len(),
            raws_of(rest@) == all.take(rest.len() as int),
            raws_of(out@) == sorted(visible(all.skip(rest.len() as int))),
        decreases rest.len(),
    {
        let ghost k = rest.len() as int;
        let ghost done = all.skip(k);
        let x = rest.pop().unwrap();
        proof {
            assert(raws_of(rest@) =~= all.take(k - 1));
            assert(x@ == all.take(k)[k - 1]);
            assert(all.skip(k - 1) =~= seq![x@] + done);
            done.lemma_filter_prepend(x@, shown());
        }
        if starts_with_dot(x.name.as_str()) {
            proof {
                assert(visible(all.skip(k - 1)) =~= visible(done));
            }
        } else {
            proof {
                let v = visible(done);
                assert(visible(all.skip(k - 1)) =~= seq![x@] + v);
                assert((seq![x@] + v).drop_first() =~= v);
                lemma_sorted_is_ordered(v);
            }
            insert_entry(&mut out, x);
        }
    }
    proof {
        assert(all.skip(0) =~= all);
    }
    out
}

/// The day of a time stamp as `year-month-day`, by a rough rule: every
/// year has 365 days and every month 30. It is no true calendar date.
pub open spec fn date_text(modified: u64) -> Seq<char> {
    let days = modified as nat / 86400;
    decimal(1970 + days / 365) + seq!['-'] + two_digits((days % 365) / 30 + 1) + seq!['-']
        + two_digits((days % 365) % 30 + 1)
}

/// The label of a last change, seen from `now`: under a minute old
/// `just now`, under an hour the minutes, under a day the hours, else the
/// rough date. A change that lies ahead of `now` counts as just made. A
/// time that could not be read is `unknown`.
pub open spec fn modified_text(now: u64, modified: Option<u64>) -> Seq<char> {
    match modified {
        None => "unknown"@,
        Some(m) => {
            let age: nat = if now >= m {
                (now - m) as nat
            } else {
                0
            };
            if age < 60 {
                "just now"@
            } else if age < 3600 {
                decimal(age / 60) + " minutes ago"@
            } else if age < 86400 {
                decimal(age / 3600) + " hours ago"@
            } else {
                date_text(m)
            }
        },
    }
}

/// The label of a last change.
pub fn modified_label(now: u64, modified: Option<u64>) -> (r: String)
    ensures
        r@ == modified_text(now, modified),
{
    match modified {
        None => "unknown".to_string(),
        Some(m) => {
            let age: u64 = if now >= m {
                now - m
            } else {
                0
            };
            if age < 60 {
                "just now".to_string()
            } else if age < 3600 {
                let mut s = String::new();
                push_decimal(&mut s, age / 60);
                s.append(" minutes ago");
                proof {
                    assert(s@ =~= decimal((age / 60) as nat) + " minutes ago"@);
                }
                s
            } else if age < 86400 {
                let mut s = String::new();
                push_decimal(&mut s, age / 3600);
                s.append(" hours ago");
                proof {
                    assert(s@ =~= decimal((age / 3600) as nat) + " hours ago"@);
                }
                s
            } else {
                let days: u64 = m / 86400;
                let mut s = String::new();
                push_decimal(&mut s, 1970 + days / 365);
                s.append("-");
                push_two_digits(&mut s, (days % 365) / 30 + 1);
                s.append("-");
                push_two_digits(&mut s, (days % 365) % 30 + 1);
                proof {
                    reveal_strlit("-");
                    assert("-"@ =~= seq!['-']);
                    assert(s@ =~= date_text(m));
                }
                s
            }
        },
    }
}

/// The tag that names the type of an entry: `directory`, the extension
/// followed by ` file`, or plain `file` where there is no extension.
pub open spec fn type_tag_text(kind: KindView) -> Seq<char> {
    match kind {
        KindView::Directory => "directory"@,
        KindView::File { extension: Some(e) } => e + " file"@,
        KindView::File { extension: None } => "file"@,
    }
}

impl EntryKind {
    /// The tag that names this kind.
    pub fn type_tag(&self) -> (r: String)
        ensures
            r@ == type_tag_text(self@),
    {
        match self {
            EntryKind::Directory => "directory".to_string(),
            EntryKind::File { extension: Some(e) } => {
                let mut s = e.clone();
                s.append(" file");
                s
            },
            EntryKind::File { extension: None } => "file".to_string(),
        }
    }

    /// Whether this is the kind of a directory.
    pub fn is_directory(&self) -> (r: bool)
        ensures
            r == (self@ is Directory),
    {
        match self {
            EntryKind::Directory => true,
            EntryKind::File { .. } => false,
        }
    }
}

/// The listed entry that a raw entry of the directory `base` becomes. A
/// directory has size zero whatever the disk says; a file has its
/// lower-cased extension.
pub open spec fn classified(e: RawView, base: PathView, now: u64) -> DetailView {
    DetailView {
        name: e.name,
        size: if e.is_dir {
            0
        } else {
            e.size
        },
        kind: if e.is_dir {
            KindView::Directory
        } else {
            KindView::File { extension: lowered_extension(e.name) }
        },
        modified: modified_text(now, e.modified),
        full_path: child_of(base, e.name),
    }
}

/// Classifies one raw entry of the directory `base`.
pub fn classify(e: &RawEntry, base: &FsPath, now: u64) -> (r: FileDetail)
    ensures
        r@ == classified(e@, base@, now),
{
    let kind = if e.is_dir {
        EntryKind::Directory
    } else {
        EntryKind::File { extension: file_extension(e.name.as_str()) }
    };
    FileDetail {
        name: e.name.clone(),
        size: if e.is_dir {
            0
        } else {
            e.size
        },
        kind,
        modified: modified_label(now, e.modified),
        full_path: base.join(e.name.as_str()),
    }
}

/// The listing of the directory `base` whose raw entries are `raw`: the
/// visible ones, in listing order, classified.
pub open spec fn listing_of(raw: Seq<RawView>, base: PathView, now: u64) -> Seq<DetailView> {
    sorted(visible(raw)).map_values(|e: RawView| classified(e, base, now))
}

/// Whether a listing has its directories before its files, and each of
/// the two groups in case-sensitive order of names.
pub open spec fn listing_ordered(l: Seq<DetailView>) -> bool {
    forall|i: int, j: int|
        0 <= i < j < l.len() ==> {
            &&& (#[trigger] l[j]).kind is Directory ==> (#[trigger] l[i]).kind is Directory
            &&& (l[i].kind is Directory <==> l[j].kind is Directory) ==> text_le(l[i].name, l[j].name)
        }
}

/// Every listing is ordered: directories first, and names in
/// case-sensitive order within the directories and within the files.
pub proof fn lemma_listing_is_ordered(raw: Seq<RawView>, base: PathView, now: u64)
    ensures
        listing_ordered(listing_of(raw, base, now)),
{
    let s = sorted(visible(raw));
    let l = listing_of(raw, base, now);
    lemma_sorted_is_ordered(visible(raw));
    assert forall|i: int, j: int| 0 <= i < j < l.len() implies {
        &&& (#[trigger] l[j]).kind is Directory ==> (#[trigger] l[i]).kind is Directory
        &&& (l[i].kind is Directory <==> l[j].kind is Directory) ==> text_le(l[i].name, l[j].name)
    } by {
        assert(entry_le(s[i], s[j]));
    }
}

/// Whether no entry of a listing is hidden.
pub open spec fn nothing_hidden(l: Seq<DetailView>) -> bool {
    forall|i: int| 0 <= i < l.len() ==> !is_hidden((#[trigger] l[i]).name)
}

/// What holds of every listing: it is ordered and shows no hidden entry.
pub open spec fn well_listed(l: Seq<DetailView>) -> bool {
    listing_ordered(l) && nothing_hidden(l)
}

/// No listing holds a hidden entry, and every visible raw entry is
/// listed as often as it was read.
pub proof fn lemma_listing_holds_the_visible(raw: Seq<RawView>, base: PathView, now: u64)
    ensures
        listing_of(raw, base, now).len() == visible(raw).len(),
        nothing_hidden(listing_of(raw, base, now)),
        well_listed(listing_of(raw, base, now)),
        sorted(visible(raw)).to_multiset() == visible(raw).to_multiset(),
{
    broadcast use vstd::seq_lib::group_to_multiset_ensures;

    let v = visible(raw);
    let s = sorted(v);
    let l = listing_of(raw, base, now);
    lemma_sorted_is_permutation(v);
    lemma_listing_is_ordered(raw, base, now);
    assert forall|i: int| 0 <= i < l.len() implies !is_hidden((#[trigger] l[i]).name) by {
        assert(s.to_multiset().count(s[i]) > 0);
        assert(v.to_multiset().count(s[i]) > 0);
        assert(v.contains(s[i]));
        let k = choose|k: int| 0 <= k < v.len() && v[k] == s[i];
        raw.lemma_filter_pred(shown(), k);
    }
}

/// Builds the listing of the directory `base` from its raw entries.
pub fn build_listing(entries: Vec<RawEntry>, base: &FsPath, now: u64) -> (r: Vec<FileDetail>)
    ensures
        details_of(r@) == listing_of(raws_of(entries@), base@, now),
        well_listed(details_of(r@)),
{
    proof {
        lemma_listing_holds_the_visible(raws_of(entries@), base@, now);
    }
    let ordered_entries = sort_visible(entries);
    let mut out: Vec<FileDetail> = Vec::new();
    let mut i: usize = 0;
    while i < ordered_entries.len()
        invariant
            i <= ordered_entries.len(),
            out.len() == i,
            forall|j: int| 0 <= j < i ==> out[j]@ == classified(ordered_entries[j]@, base@, now),
        decreases ordered_entries.len() - i,
    {
        out.push(classify(&ordered_entries[i], base, now));
        i += 1;
    }
    proof {
        assert(details_of(out@) =~= raws_of(ordered_entries@).map_values(
            |e: RawView| classified(e, base@, now),
        ));
    }
    out
}

/// The part of `l` that a page holds: at most `limit` entries from place
/// `offset` on.
pub open spec fn page_of<T>(l: Seq<T>, offset: int, limit: int) -> Seq<T> {
    let from = if offset < l.len() {
        offset
    } else {
        l.len() as int
    };
    let to = if offset + limit < l.len() {
        offset + limit
    } else {
        l.len() as int
    };
    l.subrange(from, to)
}

/// A page of a listing is ordered and shows no hidden entry, as the
/// listing is.
pub proof fn lemma_page_stays_well_listed(l: Seq<DetailView>, offset: int, limit: int)
    requires
        well_listed(l),
        0 <= offset,
        0 <= limit,
    ensures
        well_listed(page_of(l, offset, limit)),
{
    let p = page_of(l, offset, limit);
    let from = if offset < l.len() {
        offset
    } else {
        l.len() as int
    };
    assert forall|i: int, j: int| 0 <= i < j < p.len() implies {
        &&& (#[trigger] p[j]).kind is Directory ==> (#[trigger] p[i]).kind is Directory
        &&& (p[i].kind is Directory <==> p[j].kind is Directory) ==> text_le(p[i].name, p[j].name)
    } by {
        assert(p[i] == l[from + i] && p[j] == l[from + j]);
    }
    assert forall|i: int| 0 <= i < p.len() implies !is_hidden((#[trigger] p[i]).name) by {
        assert(p[i] == l[from + i]);
    }
}

/// Copies one page out of a listing.
pub fn page(listing: &Vec<FileDetail>, offset: usize, limit: usize) -> (r: Vec<FileDetail>)
    ensures
        details_of(r@) == page_of(details_of(listing@), offset as int, limit as int),
        well_listed(details_of(listing@)) ==> well_listed(details_of(r@)),
{
    proof {
        if well_listed(details_of(listing@)) {
            lemma_page_stays_well_listed(details_of(listing@), offset as int, limit as int);
        }
    }
    let n: usize = listing.len();
    let from: usize = if offset < n {
        offset
    } else {
        n
    };
    let to: usize = if limit < n - from {
        from + limit
    } else {
        n
    };
    let mut out: Vec<FileDetail> = Vec::new();
    let mut i: usize = from;
    while i < to
        invariant
            from <= i <= to <= n,
            n == listing.len(),
            out.len() == i - from,
            forall|j: int| 0 <= j < out.len() ==> out[j]@ == listing[from + j]@,
        decreases to - i,
    {
        out.push(listing[i].clone());
        i += 1;
    }
    proof {
        assert(details_of(out@) =~= page_of(details_of(listing@), offset as int, limit as int));
    }
    out
}

} // verus!
