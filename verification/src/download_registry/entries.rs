//! Lists of downloads: order, search, and changes to one of them.

use crate::text;
use crate::types::{DownloadCategory, DownloadEntry, DownloadStatus, EntryView, opt_text};
use vstd::prelude::*;

verus! {

/// Why the queue cannot be changed.
#[derive(Debug, Clone, Copy, PartialEq, Eq, Structural)]
pub enum RegistryError {
    /// There is no download with that id.
    NotFound,
    /// There is a download with that id already.
    DuplicateId,
    /// The entry has another id than the one to be changed.
    IdMismatch,
    /// The speed limit is too large to be stored.
    SpeedTooLarge,
    /// The clock stands before 1970.
    ClockBeforeEpoch,
}

/// What some entries hold.
pub open spec fn entry_views(v: Seq<DownloadEntry>) -> Seq<EntryView> {
    v.map_values(|e: DownloadEntry| e@)
}

/// No two entries have the same id.
pub open spec fn distinct_ids(v: Seq<EntryView>) -> bool {
    forall|i: int, j: int| 0 <= i < j < v.len() ==> (#[trigger] v[i]).id != (#[trigger] v[j]).id
}

/// The entry with the id stands at that place, and no one before it has the id.
pub open spec fn is_at(v: Seq<EntryView>, id: Seq<char>, k: int) -> bool {
    0 <= k < v.len() && v[k].id == id && forall|j: int|
        0 <= j < k ==> (#[trigger] v[j]).id != id
}

/// Some entry has the id.
pub open spec fn has_id(v: Seq<EntryView>, id: Seq<char>) -> bool {
    exists|k: int| is_at(v, id, k)
}

/// Where the entry with the id stands.
pub open spec fn place_of(v: Seq<EntryView>, id: Seq<char>) -> int {
    choose|k: int| is_at(v, id, k)
}

/// The entry with the id.
pub open spec fn entry_with(v: Seq<EntryView>, id: Seq<char>) -> Option<EntryView> {
    if has_id(v, id) {
        Some(v[place_of(v, id)])
    } else {
        None
    }
}

/// The place of an entry is unique.
pub proof fn lemma_place(v: Seq<EntryView>, id: Seq<char>, k: int)
    requires
        is_at(v, id, k),
    ensures
        has_id(v, id),
        place_of(v, id) == k,
{
    let m = place_of(v, id);
    assert(is_at(v, id, m));
}

/// Where no place is the first with the id, no entry has it.
pub proof fn lemma_absent(v: Seq<EntryView>, id: Seq<char>, n: int)
    requires
        !has_id(v, id),
        0 <= n <= v.len(),
    ensures
        forall|j: int| 0 <= j < n ==> (#[trigger] v[j]).id != id,
    decreases n,
{
    if n > 0 {
        lemma_absent(v, id, n - 1);
        if v[n - 1].id == id {
            assert(is_at(v, id, n - 1));
        }
    }
}

/// Where the entry with the id stands.
pub fn find(list: &Vec<DownloadEntry>, id: &str) -> (res: Option<usize>)
    ensures
        match res {
            Some(k) => k < list@.len() && is_at(entry_views(list@), id@, k as int) && has_id(
                entry_views(list@),
                id@,
            ) && place_of(entry_views(list@), id@) == k,
            None => !has_id(entry_views(list@), id@) && forall|j: int|
                0 <= j < list@.len() ==> (#[trigger] list@[j])@.id != id@,
        },
{
    let ghost v = entry_views(list@);
    let mut i: usize = 0;
    while i < list.len()
        invariant
            i <= list@.len(),
            v == entry_views(list@),
            forall|j: int| 0 <= j < i ==> (#[trigger] v[j]).id != id@,
        decreases list@.len() - i,
    {
        assert(v[i as int] == list@[i as int]@);
        if text::eq(list[i].id.as_str(), id) {
            proof {
                assert(is_at(v, id@, i as int));
                lemma_place(v, id@, i as int);
            }
            return Some(i);
        }
        i = i + 1;
    }
    proof {
        assert forall|k: int| !is_at(v, id@, k) by {
            if is_at(v, id@, k) {
                assert(v[k].id != id@);
            }
        }
        assert forall|j: int| 0 <= j < list@.len() implies (#[trigger] list@[j])@.id != id@ by {
            assert(v[j] == list@[j]@);
        }
    }
    None
}

/// The entries with priority `p`, then those with the next lower one, and so on.
pub open spec fn from_priority(v: Seq<EntryView>, p: int) -> Seq<EntryView>
    decreases p + 1,
{
    if p < 0 {
        Seq::empty()
    } else {
        v.filter(|e: EntryView| e.priority == p) + from_priority(v, p - 1)
    }
}

/// The entries, those with higher priority first; entries of the same priority keep their order.
pub open spec fn by_priority(v: Seq<EntryView>) -> Seq<EntryView> {
    from_priority(v, 255)
}

/// Appends copies of the entries of one priority.
fn push_priority(out: &mut Vec<DownloadEntry>, list: &Vec<DownloadEntry>, p: u8)
    ensures
        entry_views(final(out)@) == entry_views(old(out)@) + entry_views(list@).filter(
            |e: EntryView| e.priority == p as int,
        ),
{
    let ghost start = entry_views(out@);
    let ghost all = entry_views(list@);
    let ghost keep = |e: EntryView| e.priority == p as int;
    let mut i: usize = 0;
    proof {
        reveal(Seq::filter);
        assert(all.take(0) =~= Seq::empty());
        assert(start + all.take(0).filter(keep) =~= start);
    }
    while i < list.len()
        invariant
            i <= list@.len(),
            all == entry_views(list@),
            keep == (|e: EntryView| e.priority == p as int),
            entry_views(out@) == start + all.take(i as int).filter(keep),
        decreases list@.len() - i,
    {
        let ghost before = entry_views(out@);
        let hit = list[i].priority == p;
        if hit {
            out.push(list[i].clone());
        }
        proof {
            reveal(Seq::filter);
            assert(all[i as int] == list@[i as int]@);
            assert(all.take(i + 1).drop_last() =~= all.take(i as int));
            assert(all.take(i + 1).last() == all[i as int]);
            if hit {
                assert(entry_views(out@) =~= before.push(all[i as int]));
                assert(start + all.take(i as int).filter(keep).push(all[i as int]) =~= (start
                    + all.take(i as int).filter(keep)).push(all[i as int]));
            }
        }
        i = i + 1;
    }
    proof {
        assert(all.take(i as int) =~= all);
    }
}

/// The entries, those with higher priority first; entries of the same priority keep their order.
pub fn sort_by_priority(list: &Vec<DownloadEntry>) -> (res: Vec<DownloadEntry>)
    ensures
        entry_views(res@) == by_priority(entry_views(list@)),
{
    let mut out: Vec<DownloadEntry> = Vec::new();
    let ghost all = entry_views(list@);
    let mut p: u8 = 255;
    proof {
        assert(entry_views(out@) =~= Seq::empty());
        assert(entry_views(out@) + from_priority(all, 255) =~= from_priority(all, 255));
    }
    loop
        invariant
            all == entry_views(list@),
            entry_views(out@) + from_priority(all, p as int) == by_priority(all),
        decreases p,
    {
        let ghost before = entry_views(out@);
        push_priority(&mut out, list, p);
        proof {
            let f = all.filter(|e: EntryView| e.priority == p as int);
            assert(before + (f + from_priority(all, p - 1)) =~= (before + f) + from_priority(
                all,
                p - 1,
            ));
        }
        if p == 0 {
            proof {
                assert(from_priority(all, -1) =~= Seq::empty());
                assert(entry_views(out@) + from_priority(all, -1) =~= entry_views(out@));
            }
            return out;
        }
        p = p - 1;
    }
}

/// The download is not complete.
pub open spec fn unfinished(e: EntryView) -> bool {
    e.status != DownloadStatus::Completed
}

/// The entries that are not complete, in their order.
pub fn not_completed(list: &Vec<DownloadEntry>) -> (res: Vec<DownloadEntry>)
    ensures
        entry_views(res@) == entry_views(list@).filter(|e: EntryView| unfinished(e)),
{
    let mut out: Vec<DownloadEntry> = Vec::new();
    let ghost all = entry_views(list@);
    let ghost keep = |e: EntryView| unfinished(e);
    let mut i: usize = 0;
    proof {
        reveal(Seq::filter);
        assert(all.take(0) =~= Seq::empty());
        assert(entry_views(out@) =~= all.take(0).filter(keep));
    }
    while i < list.len()
        invariant
            i <= list@.len(),
            all == entry_views(list@),
            keep == (|e: EntryView| unfinished(e)),
            entry_views(out@) == all.take(i as int).filter(keep),
        decreases list@.len() - i,
    {
        let ghost before = entry_views(out@);
        let hit = list[i].status != DownloadStatus::Completed;
        if hit {
            out.push(list[i].clone());
        }
        proof {
            reveal(Seq::filter);
            assert(all[i as int] == list@[i as int]@);
            assert(all.take(i + 1).drop_last() =~= all.take(i as int));
            assert(all.take(i + 1).last() == all[i as int]);
            if hit {
                assert(entry_views(out@) =~= before.push(all[i as int]));
            }
        }
        i = i + 1;
    }
    proof {
        assert(all.take(i as int) =~= all);
    }
    out
}

/// The entry has the category, and its URL, its path or its id holds the text; letter case does not
/// count.
pub open spec fn found(
    e: EntryView,
    category: Option<DownloadCategory>,
    search: Option<Seq<char>>,
) -> bool {
    &&& category matches Some(c) ==> e.category == c
    &&& search matches Some(q) ==> {
        let low = text::ascii_lower(q);
        text::has(text::ascii_lower(e.url), low) || text::has(text::ascii_lower(e.target_path), low)
            || text::has(text::ascii_lower(e.id), low)
    }
}

/// Whether an entry has the category and holds the text.
pub fn is_found(entry: &DownloadEntry, category: Option<DownloadCategory>, search: Option<&str>)
    -> (res: bool)
    ensures
        res == found(
            entry@,
            category,
            match search {
                Some(q) => Some(q@),
                None => None,
            },
        ),
{
    if let Some(c) = category {
        if entry.category != c {
            return false;
        }
    }
    match search {
        Some(q) => {
            let low = text::to_ascii_lower(&text::chars_of(q));
            let url = text::to_ascii_lower(&text::chars_of(entry.url.as_str()));
            let path = text::to_ascii_lower(&text::chars_of(entry.target_path.as_str()));
            let id = text::to_ascii_lower(&text::chars_of(entry.id.as_str()));
            text::contains(&url, &low) || text::contains(&path, &low) || text::contains(&id, &low)
        },
        None => true,
    }
}

/// The entries that have the category and hold the text, in their order.
pub fn search_entries(
    list: &Vec<DownloadEntry>,
    category: Option<DownloadCategory>,
    search: Option<&str>,
) -> (res: Vec<DownloadEntry>)
    ensures
        entry_views(res@) == entry_views(list@).filter(
            |e: EntryView|
                found(
                    e,
                    category,
                    match search {
                        Some(q) => Some(q@),
                        None => None,
                    },
                ),
        ),
{
    let mut out: Vec<DownloadEntry> = Vec::new();
    let ghost all = entry_views(list@);
    let ghost wanted = match search {
        Some(q) => Some(q@),
        None => None,
    };
    let ghost keep = |e: EntryView|
        found(
            e,
            category,
            match search {
                Some(q) => Some(q@),
                None => None,
            },
        );
    let mut i: usize = 0;
    proof {
        reveal(Seq::filter);
        assert(all.take(0) =~= Seq::empty());
        assert(entry_views(out@) =~= all.take(0).filter(keep));
    }
    while i < list.len()
        invariant
            i <= list@.len(),
            all == entry_views(list@),
            wanted == match search {
                Some(q) => Some(q@),
                None => None,
            },
            forall|e: EntryView| #[trigger] keep(e) == found(e, category, wanted),
            entry_views(out@) == all.take(i as int).filter(keep),
        decreases list@.len() - i,
    {
        let ghost before = entry_views(out@);
        let hit = is_found(&list[i], category, search);
        if hit {
            out.push(list[i].clone());
        }
        proof {
            reveal(Seq::filter);
            assert(all[i as int] == list@[i as int]@);
            assert(all.take(i + 1).drop_last() =~= all.take(i as int));
            assert(all.take(i + 1).last() == all[i as int]);
            if hit {
                assert(entry_views(out@) =~= before.push(all[i as int]));
            }
        }
        i = i + 1;
    }
    proof {
        assert(all.take(i as int) =~= all);
    }
    out
}

/// The entry after its advanced settings were changed: those that are given replace what was set.
pub open spec fn advanced(
    e: EntryView,
    priority: Option<u8>,
    proxy: Option<Seq<char>>,
    checksum: Option<Seq<char>>,
    max_speed_bytes: Option<u64>,
) -> EntryView {
    EntryView {
        priority: match priority {
            Some(p) => p,
            None => e.priority,
        },
        proxy: match proxy {
            Some(p) => Some(p),
            None => e.proxy,
        },
        checksum: match checksum {
            Some(c) => Some(c),
            None => e.checksum,
        },
        max_speed_bytes: match max_speed_bytes {
            Some(m) => Some(m),
            None => e.max_speed_bytes,
        },
        ..e
    }
}

/// Changes the advanced settings of an entry: those that are given replace what was set.
pub fn apply_advanced(
    entry: &mut DownloadEntry,
    priority: Option<u8>,
    proxy: Option<String>,
    checksum: Option<String>,
    max_speed_bytes: Option<u64>,
)
    ensures
        final(entry)@ == advanced(
            old(entry)@,
            priority,
            opt_text(proxy),
            opt_text(checksum),
            max_speed_bytes,
        ),
{
    if let Some(p) = priority {
        entry.priority = p;
    }
    if proxy.is_some() {
        entry.proxy = proxy;
    }
    if checksum.is_some() {
        entry.checksum = checksum;
    }
    if max_speed_bytes.is_some() {
        entry.max_speed_bytes = max_speed_bytes;
    }
}

proof fn lemma_from_priority(v: Seq<EntryView>, p: int)
    requires
        p <= 255,
    ensures
        forall|i: int, j: int|
            0 <= i <= j < from_priority(v, p).len() ==> (#[trigger] from_priority(v, p)[i]).priority
                >= (#[trigger] from_priority(v, p)[j]).priority,
        forall|i: int|
            0 <= i < from_priority(v, p).len() ==> (#[trigger] from_priority(v, p)[i]).priority <= p
                && v.contains(from_priority(v, p)[i]),
        forall|e: EntryView|
            v.contains(e) && e.priority <= p ==> #[trigger] from_priority(v, p).contains(e),
    decreases p + 1,
{
    if p >= 0 {
        let keep = |e: EntryView| e.priority == p;
        let f = v.filter(keep);
        let rest = from_priority(v, p - 1);
        let r = from_priority(v, p);
        assert(r == f + rest);
        lemma_from_priority(v, p - 1);
        assert forall|i: int| 0 <= i < r.len() implies (#[trigger] r[i]).priority <= p
            && v.contains(r[i]) && (i < f.len() ==> r[i].priority == p) && (i >= f.len() ==> r[i]
            == rest[i - f.len()]) by {
            if i < f.len() {
                assert(r[i] == f[i]);
                v.lemma_filter_pred(keep, i);
                assert(f.contains(f[i]));
                v.lemma_filter_contains_rev(keep, f[i]);
            } else {
                assert(r[i] == rest[i - f.len()]);
            }
        }
        assert forall|e: EntryView| v.contains(e) && e.priority <= p implies #[trigger] r.contains(
            e,
        ) by {
            if e.priority == p {
                let k = choose|k: int| 0 <= k < v.len() && v[k] == e;
                v.lemma_filter_contains(keep, k);
                let m = choose|m: int| 0 <= m < f.len() && f[m] == e;
                assert(r[m] == e);
            } else {
                assert(rest.contains(e));
                let m = choose|m: int| 0 <= m < rest.len() && rest[m] == e;
                assert(r[f.len() + m] == e);
            }
        }
    }
}

/// The entries up to a priority are those that have it and those below.
proof fn lemma_split_priority(v: Seq<EntryView>, p: int)
    ensures
        v.filter(|e: EntryView| e.priority <= p).to_multiset() == v.filter(
            |e: EntryView| e.priority == p,
        ).to_multiset().add(v.filter(|e: EntryView| e.priority <= p - 1).to_multiset()),
    decreases v.len(),
{
    broadcast use vstd::seq_lib::group_to_multiset_ensures;

    let a = |e: EntryView| e.priority <= p;
    let b = |e: EntryView| e.priority == p;
    let c = |e: EntryView| e.priority <= p - 1;
    reveal(Seq::filter);
    if v.len() > 0 {
        let d = v.drop_last();
        let x = v.last();
        lemma_split_priority(d, p);
        let ma = d.filter(a).to_multiset();
        let mb = d.filter(b).to_multiset();
        let mc = d.filter(c).to_multiset();
        assert(ma == mb.add(mc));
        if x.priority == p {
            assert(v.filter(a) == d.filter(a).push(x));
            assert(v.filter(b) == d.filter(b).push(x));
            assert(ma.insert(x) =~= mb.insert(x).add(mc));
        } else if x.priority < p {
            assert(v.filter(a) == d.filter(a).push(x));
            assert(v.filter(c) == d.filter(c).push(x));
            assert(ma.insert(x) =~= mb.add(mc.insert(x)));
        }
    } else {
        assert(v.filter(a).to_multiset() =~= v.filter(b).to_multiset().add(
            v.filter(c).to_multiset(),
        ));
    }
}

/// The entries up to a priority in their order are the entries up to it.
proof fn lemma_same_entries(v: Seq<EntryView>, p: int)
    requires
        p >= -1,
    ensures
        from_priority(v, p).to_multiset() == v.filter(
            |e: EntryView| e.priority <= p,
        ).to_multiset(),
    decreases p + 1,
{
    broadcast use vstd::seq_lib::group_to_multiset_ensures;

    if p < 0 {
        lemma_none_left(v, |e: EntryView| e.priority <= p);
        assert(v.filter(|e: EntryView| e.priority <= p) =~= from_priority(v, p));
    } else {
        lemma_same_entries(v, p - 1);
        lemma_split_priority(v, p);
        vstd::seq_lib::lemma_multiset_commutative(
            v.filter(|e: EntryView| e.priority == p),
            from_priority(v, p - 1),
        );
    }
}

proof fn lemma_none_left(v: Seq<EntryView>, keep: spec_fn(EntryView) -> bool)
    requires
        forall|e: EntryView| !#[trigger] keep(e),
    ensures
        v.filter(keep).len() == 0,
    decreases v.len(),
{
    reveal(Seq::filter);
    if v.len() > 0 {
        lemma_none_left(v.drop_last(), keep);
    }
}

proof fn lemma_all_kept(v: Seq<EntryView>, keep: spec_fn(EntryView) -> bool)
    requires
        forall|e: EntryView| #[trigger] keep(e),
    ensures
        v.filter(keep) == v,
    decreases v.len(),
{
    reveal(Seq::filter);
    if v.len() > 0 {
        lemma_all_kept(v.drop_last(), keep);
        assert(v.drop_last().push(v.last()) =~= v);
    }
}

/// Ids that are distinct stay so when the entries are put in order.
pub proof fn lemma_priority_keeps_distinct(v: Seq<EntryView>)
    requires
        distinct_ids(v),
    ensures
        distinct_ids(by_priority(v)),
{
    let r = by_priority(v);
    law_priority_order(v);
    assert(v.no_duplicates()) by {
        assert forall|i: int, j: int| 0 <= i < v.len() && 0 <= j < v.len() && i != j implies v[i]
            != v[j] by {
            if i < j {
                assert(v[i].id != v[j].id);
            } else {
                assert(v[j].id != v[i].id);
            }
        }
    }
    v.lemma_multiset_has_no_duplicates();
    r.lemma_multiset_has_no_duplicates_conv();
    assert forall|i: int, j: int| 0 <= i < j < r.len() implies (#[trigger] r[i]).id != (
    #[trigger] r[j]).id by {
        assert(r.contains(r[i]) && r.contains(r[j]));
        let a = choose|a: int| 0 <= a < v.len() && v[a] == r[i];
        let b = choose|b: int| 0 <= b < v.len() && v[b] == r[j];
        if a < b {
            assert(v[a].id != v[b].id);
        } else if b < a {
            assert(v[b].id != v[a].id);
        }
    }
}

/// Downloads with higher priority come first, and none is left out or made up.
pub proof fn law_priority_order(v: Seq<EntryView>)
    ensures
        by_priority(v).to_multiset() == v.to_multiset(),
        forall|i: int, j: int|
            0 <= i <= j < by_priority(v).len() ==> (#[trigger] by_priority(v)[i]).priority >= (
            #[trigger] by_priority(v)[j]).priority,
        forall|e: EntryView| v.contains(e) <==> #[trigger] by_priority(v).contains(e),
{
    lemma_from_priority(v, 255);
    lemma_same_entries(v, 255);
    lemma_all_kept(v, |e: EntryView| e.priority <= 255);
    let r = by_priority(v);
    assert forall|e: EntryView| v.contains(e) <==> #[trigger] r.contains(e) by {
        if r.contains(e) {
            let k = choose|k: int| 0 <= k < r.len() && r[k] == e;
            assert(v.contains(r[k]));
        }
    }
}

/// The entry under an id is the one entry that has the id, and there is none where no entry has it.
pub proof fn law_lookup_goes_by_id(v: Seq<EntryView>, id: Seq<char>, k: int)
    requires
        distinct_ids(v),
        0 <= k < v.len(),
    ensures
        v[k].id == id ==> entry_with(v, id) == Some(v[k]),
        entry_with(v, id) == Some(v[k]) ==> v[k].id == id,
        entry_with(v, id) is None ==> v[k].id != id,
        entry_with(v, id) is Some <==> exists|j: int| 0 <= j < v.len() && (#[trigger] v[j]).id == id,
{
    if has_id(v, id) {
        assert(is_at(v, id, place_of(v, id)));
    } else {
        lemma_absent(v, id, v.len() as int);
    }
    if v[k].id == id {
        assert forall|j: int| 0 <= j < k implies (#[trigger] v[j]).id != id by {
            assert(v[j].id != v[k].id);
        }
        lemma_place(v, id, k);
    }
}

/// A download that waits, runs, is paused or has failed is unfinished; a complete one is not.
pub proof fn law_only_complete_downloads_are_finished(e: EntryView)
    ensures
        unfinished(e) <==> e.status == DownloadStatus::Pending || e.status
            == DownloadStatus::Downloading || e.status == DownloadStatus::Paused || e.status
            == DownloadStatus::Error,
{
}

proof fn lemma_filter_twice(v: Seq<EntryView>, p: int, q: int)
    ensures
        v.filter(|e: EntryView| e.priority == p).filter(|e: EntryView| e.priority == q) == if p
            == q {
            v.filter(|e: EntryView| e.priority == q)
        } else {
            Seq::<EntryView>::empty()
        },
    decreases v.len(),
{
    reveal(Seq::filter);
    let a = |e: EntryView| e.priority == p;
    let b = |e: EntryView| e.priority == q;
    if v.len() > 0 {
        let d = v.drop_last();
        let x = v.last();
        lemma_filter_twice(d, p, q);
        if a(x) {
            assert(d.filter(a).push(x).drop_last() =~= d.filter(a));
        }
    }
}

proof fn lemma_one_priority(v: Seq<EntryView>, p: int, q: int)
    ensures
        from_priority(v, p).filter(|e: EntryView| e.priority == q) == if 0 <= q <= p {
            v.filter(|e: EntryView| e.priority == q)
        } else {
            Seq::<EntryView>::empty()
        },
    decreases p + 1,
{
    let b = |e: EntryView| e.priority == q;
    if p < 0 {
        reveal(Seq::filter);
    } else {
        lemma_one_priority(v, p - 1, q);
        lemma_filter_twice(v, p, q);
        let f = v.filter(|e: EntryView| e.priority == p);
        Seq::filter_distributes_over_add(f, from_priority(v, p - 1), b);
        assert(from_priority(v, p) == f + from_priority(v, p - 1));
        assert(f.filter(b) + from_priority(v, p - 1).filter(b) =~= if 0 <= q <= p {
            v.filter(b)
        } else {
            Seq::<EntryView>::empty()
        });
    }
}

/// Downloads of the same priority keep the order in which they were added.
pub proof fn law_equal_priorities_keep_their_order(v: Seq<EntryView>, p: u8)
    ensures
        by_priority(v).filter(|e: EntryView| e.priority == p as int) == v.filter(
            |e: EntryView| e.priority == p as int,
        ),
        by_priority(v).len() == v.len(),
{
    lemma_one_priority(v, 255, p as int);
    law_priority_order(v);
    broadcast use vstd::seq_lib::group_to_multiset_ensures;

    assert(by_priority(v).to_multiset().len() == v.to_multiset().len());
}

/// A search finds a download by any part of its URL, its path or its id, in whatever letter case both
/// are written, and by nothing else; a category leaves out the downloads of every other.
pub proof fn law_search_finds_parts(
    e: EntryView,
    before: Seq<char>,
    part: Seq<char>,
    behind: Seq<char>,
    typed: Seq<char>,
    c: DownloadCategory,
)
    requires
        typed.len() == part.len(),
        forall|i: int|
            0 <= i < part.len() ==> (#[trigger] typed[i]) == part[i] || ('A' <= typed[i] <= 'Z'
                && part[i] as int == typed[i] as int + 32) || ('A' <= part[i] <= 'Z' && typed[i] as int
                == part[i] as int + 32),
    ensures
        e.url == before + part + behind ==> found(e, None, Some(typed)),
        e.target_path == before + part + behind ==> found(e, None, Some(typed)),
        e.id == before + part + behind ==> found(e, None, Some(typed)),
        found(e, Some(c), Some(typed)) <==> e.category == c && found(e, None, Some(typed)),
        found(e, Some(c), None) <==> e.category == c,
        found(e, None, None),
{
    let low = text::ascii_lower(typed);
    assert(low =~= text::ascii_lower(part)) by {
        assert forall|i: int| 0 <= i < part.len() implies low[i] == text::ascii_lower(part)[i] by {
            assert(low[i] == text::lower_char(typed[i]));
            assert(text::ascii_lower(part)[i] == text::lower_char(part[i]));
        }
    }
    let whole = text::ascii_lower(before + part + behind);
    let at = before.len() as int;
    assert(whole.subrange(at, at + low.len()) =~= low) by {
        assert forall|i: int| 0 <= i < low.len() implies whole.subrange(at, at + low.len())[i]
            == low[i] by {
            assert((before + part + behind)[at + i] == part[i]);
        }
    }
    assert(text::occurs_at(whole, low, at));
}

/// What is found by a text holds it somewhere, letter case aside.
pub proof fn law_found_downloads_hold_the_text(e: EntryView, q: Seq<char>)
    requires
        found(e, None, Some(q)),
    ensures
        exists|s: Seq<char>, at: int|
            (s == e.url || s == e.target_path || s == e.id) && 0 <= at && at + q.len() <= s.len()
                && #[trigger] text::ascii_lower(s.subrange(at, at + q.len())) == text::ascii_lower(
                q,
            ),
{
    let low = text::ascii_lower(q);
    let s = if text::has(text::ascii_lower(e.url), low) {
        e.url
    } else if text::has(text::ascii_lower(e.target_path), low) {
        e.target_path
    } else {
        e.id
    };
    let at = choose|at: int| text::occurs_at(text::ascii_lower(s), low, at);
    assert(text::ascii_lower(s.subrange(at, at + q.len())) =~= text::ascii_lower(s).subrange(
        at,
        at + q.len(),
    ));
}

/// Advanced settings that are given take the place of the old ones, those that are not given stay, and
/// nothing else of the download changes.
pub proof fn law_advanced_settings_replace_what_is_given(
    e: EntryView,
    priority: Option<u8>,
    proxy: Option<Seq<char>>,
    checksum: Option<Seq<char>>,
    speed: Option<u64>,
)
    ensures
        ({
            let f = advanced(e, priority, proxy, checksum, speed);
            &&& priority is Some ==> Some(f.priority) == priority
            &&& priority is None ==> f.priority == e.priority
            &&& proxy is Some ==> f.proxy == proxy
            &&& proxy is None ==> f.proxy == e.proxy
            &&& checksum is Some ==> f.checksum == checksum
            &&& checksum is None ==> f.checksum == e.checksum
            &&& speed is Some ==> f.max_speed_bytes == speed
            &&& speed is None ==> f.max_speed_bytes == e.max_speed_bytes
            &&& f == (EntryView {
                priority: f.priority,
                proxy: f.proxy,
                checksum: f.checksum,
                max_speed_bytes: f.max_speed_bytes,
                ..e
            })
        }),
{
}

} // verus!
