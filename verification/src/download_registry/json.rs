//! The queue as one document: every download under its id.

use crate::clock;
use crate::download_registry::entries::{
    advanced, apply_advanced, distinct_ids, entry_views, entry_with, find, has_id, is_at,
    lemma_place, place_of, unfinished,
};
use crate::number;
use crate::text;
use crate::types::{DownloadEntry, DownloadStatus, EntryView, http_entry, opt_text};
use vstd::prelude::*;

verus! {

/// Downloads, each under its id.
#[derive(Debug)]
pub struct Downloads {
    /// The downloads in the order in which their ids came up; no id occurs twice.
    pub entries: Vec<DownloadEntry>,
}

impl View for Downloads {
    type V = Seq<EntryView>;

    open spec fn view(&self) -> Seq<EntryView> {
        entry_views(self.entries@)
    }
}

/// The downloads after one was put under its id: it replaces the one that had the id.
pub open spec fn inserted(v: Seq<EntryView>, e: EntryView) -> Seq<EntryView> {
    if has_id(v, e.id) {
        v.update(place_of(v, e.id), e)
    } else {
        v.push(e)
    }
}

/// The downloads after the one with the id was taken out.
pub open spec fn removed(v: Seq<EntryView>, id: Seq<char>) -> Seq<EntryView> {
    if has_id(v, id) {
        v.remove(place_of(v, id))
    } else {
        v
    }
}

impl Downloads {
    /// No id occurs twice.
    pub open spec fn wf(self) -> bool {
        distinct_ids(self@)
    }

    /// No downloads.
    pub fn new() -> (res: Self)
        ensures
            res.wf(),
            res@.len() == 0,
    {
        Downloads { entries: Vec::new() }
    }

    /// How many downloads there are.
    pub fn len(&self) -> (res: usize)
        ensures
            res == self@.len(),
    {
        self.entries.len()
    }

    /// Whether a download has the id.
    pub fn contains_key(&self, id: &str) -> (res: bool)
        ensures
            res == has_id(self@, id@),
    {
        find(&self.entries, id).is_some()
    }

    /// The download with the id.
    pub fn get(&self, id: &str) -> (res: Option<&DownloadEntry>)
        ensures
            match res {
                Some(e) => entry_with(self@, id@) == Some(e@),
                None => entry_with(self@, id@) is None,
            },
    {
        match find(&self.entries, id) {
            Some(k) => Some(&self.entries[k]),
            None => None,
        }
    }

    /// Puts a download under its id, in place of the one that had the id.
    pub fn insert(&mut self, entry: DownloadEntry)
        requires
            old(self).wf(),
        ensures
            final(self).wf(),
            final(self)@ == inserted(old(self)@, entry@),
    {
        match find(&self.entries, entry.id.as_str()) {
            Some(k) => {
                self.entries.set(k, entry);
                proof {
                    assert(self@ =~= old(self)@.update(k as int, entry@));
                    lemma_update_distinct(old(self)@, k as int, entry@);
                }
            },
            None => {
                self.entries.push(entry);
                proof {
                    assert(self@ =~= old(self)@.push(entry@));
                    lemma_push_distinct(old(self)@, entry@);
                }
            },
        }
    }

    /// Takes the download with the id out.
    pub fn remove(&mut self, id: &str) -> (res: Option<DownloadEntry>)
        requires
            old(self).wf(),
        ensures
            final(self).wf(),
            final(self)@ == removed(old(self)@, id@),
            match res {
                Some(e) => entry_with(old(self)@, id@) == Some(e@),
                None => entry_with(old(self)@, id@) is None,
            },
    {
        match find(&self.entries, id) {
            Some(k) => {
                let e = self.entries.remove(k);
                proof {
                    assert(self@ =~= old(self)@.remove(k as int));
                    lemma_remove_distinct(old(self)@, k as int);
                    assert(old(self)@[k as int] == e@);
                }
                Some(e)
            },
            None => None,
        }
    }
}

/// Another entry with the same id keeps the ids distinct.
pub proof fn lemma_update_distinct(v: Seq<EntryView>, k: int, e: EntryView)
    requires
        distinct_ids(v),
        0 <= k < v.len(),
        v[k].id == e.id,
    ensures
        distinct_ids(v.update(k, e)),
{
    let u = v.update(k, e);
    assert forall|i: int, j: int| 0 <= i < j < u.len() implies (#[trigger] u[i]).id != (
    #[trigger] u[j]).id by {
        assert(v[i].id != v[j].id);
    }
}

/// An entry with a new id keeps the ids distinct.
pub proof fn lemma_push_distinct(v: Seq<EntryView>, e: EntryView)
    requires
        distinct_ids(v),
        !has_id(v, e.id),
    ensures
        distinct_ids(v.push(e)),
{
    let u = v.push(e);
    assert forall|i: int, j: int| 0 <= i < j < u.len() implies (#[trigger] u[i]).id != (
    #[trigger] u[j]).id by {
        if j < v.len() {
            assert(v[i].id != v[j].id);
        } else if v[i].id == e.id {
            assert forall|m: int| 0 <= m < i implies (#[trigger] v[m]).id != e.id by {
                assert(v[m].id != v[i].id);
            }
            assert(is_at(v, e.id, i));
        }
    }
}

/// Fewer entries keep the ids distinct.
pub proof fn lemma_remove_distinct(v: Seq<EntryView>, k: int)
    requires
        distinct_ids(v),
        0 <= k < v.len(),
    ensures
        distinct_ids(v.remove(k)),
{
    let u = v.remove(k);
    assert forall|i: int, j: int| 0 <= i < j < u.len() implies (#[trigger] u[i]).id != (
    #[trigger] u[j]).id by {
        let a = if i < k {
            i
        } else {
            i + 1
        };
        let b = if j < k {
            j
        } else {
            j + 1
        };
        assert(u[i] == v[a] && u[j] == v[b]);
        assert(v[a].id != v[b].id);
    }
}

/// The queue as one document.
#[derive(Debug)]
pub struct Registry {
    pub downloads: Downloads,
}

impl Default for Registry {
    fn default() -> (res: Self)
        ensures
            res.downloads.wf(),
            res.downloads@.len() == 0,
    {
        Registry { downloads: Downloads::new() }
    }
}

impl Registry {
    /// Adds a download under an id; it waits to be run.
    pub fn add_with_id(&mut self, id: String, url: String, target_path: String)
        requires
            old(self).downloads.wf(),
        ensures
            final(self).downloads.wf(),
            final(self).downloads@ == inserted(
                old(self).downloads@,
                http_entry(id@, url@, target_path@),
            ),
    {
        self.downloads.insert(DownloadEntry::new_http(id, url, target_path));
    }

    /// Adds a download under the present second as its id, which is given back. A clock that stands
    /// before 1970 counts as 1970.
    pub fn add(&mut self, url: String, target_path: String) -> (res: String)
        requires
            old(self).downloads.wf(),
        ensures
            final(self).downloads.wf(),
            exists|n: nat| res@ == #[trigger] number::decimal(n),
            final(self).downloads@ == inserted(
                old(self).downloads@,
                http_entry(res@, url@, target_path@),
            ),
    {
        let secs: u64 = match clock::seconds_since_epoch() {
            Some(s) => s,
            None => 0,
        };
        let id = text::string_of(&number::to_decimal(secs as u128));
        self.add_with_id(id.clone(), url, target_path);
        id
    }

    /// Takes the download with the id out.
    pub fn remove(&mut self, id: &str) -> (res: Option<DownloadEntry>)
        requires
            old(self).downloads.wf(),
        ensures
            final(self).downloads.wf(),
            final(self).downloads@ == removed(old(self).downloads@, id@),
            match res {
                Some(e) => entry_with(old(self).downloads@, id@) == Some(e@),
                None => entry_with(old(self).downloads@, id@) is None,
            },
    {
        self.downloads.remove(id)
    }

    /// Sets the status of the download with the id, if there is one.
    pub fn update_status(&mut self, id: &str, status: DownloadStatus)
        requires
            old(self).downloads.wf(),
        ensures
            final(self).downloads.wf(),
            final(self).downloads@ == match entry_with(old(self).downloads@, id@) {
                Some(e) => inserted(old(self).downloads@, EntryView { status, ..e }),
                None => old(self).downloads@,
            },
    {
        match find(&self.downloads.entries, id) {
            Some(k) => {
                let mut e = self.downloads.entries[k].clone();
                e.status = status;
                assert(old(self).downloads@[k as int] == self.downloads.entries@[k as int]@);
                self.downloads.insert(e);
            },
            None => {},
        }
    }

    /// Changes the advanced settings of the download with the id, if there is one.
    pub fn update_advanced(
        &mut self,
        id: &str,
        priority: Option<u8>,
        proxy: Option<String>,
        checksum: Option<String>,
        max_speed_bytes: Option<u64>,
    )
        requires
            old(self).downloads.wf(),
        ensures
            final(self).downloads.wf(),
            final(self).downloads@ == match entry_with(old(self).downloads@, id@) {
                Some(e) => inserted(
                    old(self).downloads@,
                    advanced(
                        e,
                        priority,
                        opt_text(proxy),
                        opt_text(checksum),
                        max_speed_bytes,
                    ),
                ),
                None => old(self).downloads@,
            },
    {
        match find(&self.downloads.entries, id) {
            Some(k) => {
                let mut e = self.downloads.entries[k].clone();
                assert(old(self).downloads@[k as int] == self.downloads.entries@[k as int]@);
                apply_advanced(&mut e, priority, proxy, checksum, max_speed_bytes);
                self.downloads.insert(e);
            },
            None => {},
        }
    }

    /// Takes the completed downloads out and says how many they were.
    pub fn clean_completed(&mut self) -> (res: usize)
        requires
            old(self).downloads.wf(),
        ensures
            final(self).downloads.wf(),
            final(self).downloads@ == old(self).downloads@.filter(|e: EntryView| unfinished(e)),
            res == old(self).downloads@.len() - final(self).downloads@.len(),
    {
        let before: usize = self.downloads.entries.len();
        let kept = crate::download_registry::entries::not_completed(&self.downloads.entries);
        proof {
            let v = self.downloads@;
            lemma_filter_distinct(v, |e: EntryView| unfinished(e));
            assert(entry_views(kept@).len() == kept@.len());
        }
        let after: usize = kept.len();
        self.downloads.entries = kept;
        before - after
    }
}

/// A selection of entries has distinct ids, and holds nothing that the whole does not.
pub proof fn lemma_filter_distinct(v: Seq<EntryView>, p: spec_fn(EntryView) -> bool)
    requires
        distinct_ids(v),
    ensures
        distinct_ids(v.filter(p)),
        v.filter(p).len() <= v.len(),
        forall|e: EntryView| #[trigger] v.filter(p).contains(e) ==> v.contains(e) && p(e),
    decreases v.len(),
{
    reveal(Seq::filter);
    if v.len() > 0 {
        let d = v.drop_last();
        assert(distinct_ids(d)) by {
            assert forall|i: int, j: int| 0 <= i < j < d.len() implies (#[trigger] d[i]).id != (
            #[trigger] d[j]).id by {
                assert(v[i].id != v[j].id);
            }
        }
        lemma_filter_distinct(d, p);
        let f = d.filter(p);
        assert forall|e: EntryView| #[trigger] f.contains(e) implies v.contains(e) by {
            assert(d.contains(e));
            let k = choose|k: int| 0 <= k < d.len() && d[k] == e;
            assert(v[k] == e);
        }
        if p(v.last()) {
            let u = f.push(v.last());
            assert(v.filter(p) =~= u);
            assert forall|i: int, j: int| 0 <= i < j < u.len() implies (#[trigger] u[i]).id != (
            #[trigger] u[j]).id by {
                if j < f.len() {
                    assert(f[i].id != f[j].id);
                } else {
                    assert(f.contains(f[i]));
                    assert(d.contains(f[i]));
                    let k = choose|k: int| 0 <= k < d.len() && d[k] == f[i];
                    assert(v[k].id != v[v.len() - 1].id);
                }
            }
            assert forall|e: EntryView| #[trigger] u.contains(e) implies v.contains(e) && p(e) by {
                let k = choose|k: int| 0 <= k < u.len() && u[k] == e;
                if k < f.len() {
                    assert(f[k] == e);
                    assert(f.contains(e));
                } else {
                    assert(v[v.len() - 1] == e);
                }
            }
        }
    }
}

/// What was put under an id is found there, and nothing else changes.
pub proof fn law_insert_is_found(v: Seq<EntryView>, e: EntryView, other: Seq<char>)
    requires
        distinct_ids(v),
    ensures
        entry_with(inserted(v, e), e.id) == Some(e),
        other != e.id ==> entry_with(inserted(v, e), other) == entry_with(v, other),
{
    let u = inserted(v, e);
    if has_id(v, e.id) {
        let k = place_of(v, e.id);
        assert(is_at(v, e.id, k));
        assert(is_at(u, e.id, k));
        lemma_place(u, e.id, k);
    } else {
        let n = v.len() as int;
        assert forall|j: int| 0 <= j < n implies (#[trigger] u[j]).id != e.id by {
            if v[j].id == e.id {
                assert forall|m: int| 0 <= m < j implies (#[trigger] v[m]).id != e.id by {
                    assert(v[m].id != v[j].id);
                }
                assert(is_at(v, e.id, j));
            }
        }
        assert(is_at(u, e.id, n));
        lemma_place(u, e.id, n);
    }
    if other != e.id {
        if has_id(v, other) {
            let k = place_of(v, other);
            assert(is_at(v, other, k));
            assert(is_at(u, other, k)) by {
                assert forall|j: int| 0 <= j < k implies (#[trigger] u[j]).id != other by {
                    assert(v[j].id != other);
                }
            }
            lemma_place(u, other, k);
        } else if has_id(u, other) {
            let k = place_of(u, other);
            assert(is_at(u, other, k));
            assert(v[k].id == other);
            assert(is_at(v, other, k)) by {
                assert forall|j: int| 0 <= j < k implies (#[trigger] v[j]).id != other by {
                    assert(u[j].id != other);
                }
            }
        }
    }
}

/// What was taken out is not found any more, and nothing else changes.
pub proof fn law_removed_is_gone(v: Seq<EntryView>, id: Seq<char>, other: Seq<char>)
    requires
        distinct_ids(v),
    ensures
        entry_with(removed(v, id), id) is None,
        other != id ==> entry_with(removed(v, id), other) == entry_with(v, other),
{
    let u = removed(v, id);
    if has_id(v, id) {
        let k = place_of(v, id);
        assert(is_at(v, id, k));
        if has_id(u, id) {
            let m = place_of(u, id);
            assert(is_at(u, id, m));
            let a = if m < k {
                m
            } else {
                m + 1
            };
            assert(u[m] == v[a]);
            assert(v[a].id == v[k].id && a != k);
            assert(false) by {
                if a < k {
                    assert(v[a].id != v[k].id);
                } else {
                    assert(v[k].id != v[a].id);
                }
            }
        }
        if other != id {
            if has_id(v, other) {
                let m = place_of(v, other);
                assert(is_at(v, other, m));
                let a = if m < k {
                    m
                } else {
                    m - 1
                };
                assert(u[a] == v[m]);
                assert(is_at(u, other, a)) by {
                    assert forall|j: int| 0 <= j < a implies (#[trigger] u[j]).id != other by {
                        let b = if j < k {
                            j
                        } else {
                            j + 1
                        };
                        assert(u[j] == v[b]);
                        assert(v[b].id != other);
                    }
                }
                lemma_place(u, other, a);
            } else if has_id(u, other) {
                let a = place_of(u, other);
                assert(is_at(u, other, a));
                let m = if a < k {
                    a
                } else {
                    a + 1
                };
                assert(u[a] == v[m]);
                assert(is_at(v, other, m)) by {
                    assert forall|j: int| 0 <= j < m implies (#[trigger] v[j]).id != other by {
                        if j < k {
                            assert(u[j] == v[j]);
                        } else if j > k {
                            assert(u[j - 1] == v[j]);
                        }
                    }
                }
            }
        }
    }
}

/// To put a download under an id leaves every other one where it stands: it takes the place of the one
/// with its id, or stands behind all others where there is none.
pub proof fn law_insert_keeps_places(v: Seq<EntryView>, e: EntryView, k: int)
    requires
        distinct_ids(v),
        0 <= k < v.len(),
    ensures
        v[k].id == e.id ==> inserted(v, e).len() == v.len() && inserted(v, e)[k] == e,
        v[k].id != e.id ==> inserted(v, e)[k] == v[k],
        (forall|j: int| 0 <= j < v.len() ==> (#[trigger] v[j]).id != e.id) ==> inserted(v, e)
            == v.push(e),
{
    crate::download_registry::entries::law_lookup_goes_by_id(v, e.id, k);
    if has_id(v, e.id) {
        let m = place_of(v, e.id);
        assert(is_at(v, e.id, m));
        if v[k].id == e.id {
            if k < m {
                assert(v[k].id != v[m].id);
            } else if m < k {
                assert(v[m].id != v[k].id);
            }
        }
    } else {
        crate::download_registry::entries::lemma_absent(v, e.id, v.len() as int);
    }
}

/// To take a download out closes its gap and moves nothing else; without one under the id nothing
/// changes.
pub proof fn law_remove_closes_the_gap(v: Seq<EntryView>, id: Seq<char>, k: int)
    requires
        distinct_ids(v),
        0 <= k < v.len(),
    ensures
        v[k].id == id ==> removed(v, id) == v.take(k) + v.skip(k + 1),
        (forall|j: int| 0 <= j < v.len() ==> (#[trigger] v[j]).id != id) ==> removed(v, id) == v,
{
    if v[k].id == id {
        assert forall|j: int| 0 <= j < k implies (#[trigger] v[j]).id != id by {
            assert(v[j].id != v[k].id);
        }
        lemma_place(v, id, k);
        assert(v.remove(k) =~= v.take(k) + v.skip(k + 1));
    }
    if has_id(v, id) {
        assert(is_at(v, id, place_of(v, id)));
    }
}

} // verus!
