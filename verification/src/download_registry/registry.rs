//! The queue as the program uses it: ids come from the clock, and an older queue is taken over once.

use crate::clock;
use crate::download_registry::entries::{
    RegistryError, advanced, by_priority, distinct_ids, entry_views, entry_with, found, has_id,
    unfinished,
};
use crate::download_registry::json;
use crate::download_registry::json::{inserted, removed};
use crate::download_registry::repository::{
    DownloadRegistry, Repository, can_claim, claimable, query, settings_of, storable,
};
use crate::number;
use crate::text;
use crate::types::{
    AppSettings, DownloadCategory, DownloadEntry, DownloadStatus, EntryView,
    default_settings, hls_entry, http_entry, opt_text,
};
use vstd::prelude::*;

verus! {

/// The queue.
#[derive(Debug)]
pub struct Registry {
    pub inner: Repository,
}

impl View for Registry {
    type V = Seq<EntryView>;

    open spec fn view(&self) -> Seq<EntryView> {
        self.inner.rows()
    }
}

/// An entry was added under a fresh id that is a whole number, or nothing changed: the clock stands
/// before 1970, or its second is taken.
pub open spec fn added(
    before: Seq<EntryView>,
    after: Seq<EntryView>,
    res: Result<Seq<char>, RegistryError>,
    entry: spec_fn(Seq<char>) -> EntryView,
) -> bool {
    match res {
        Ok(id) => {
            &&& exists|n: nat| id == #[trigger] number::decimal(n)
            &&& !has_id(before, id)
            &&& after == before.push(entry(id))
        },
        Err(e) => {
            &&& after == before
            &&& e == RegistryError::ClockBeforeEpoch || (e == RegistryError::DuplicateId
                && exists|n: nat| has_id(before, #[trigger] number::decimal(n)))
        },
    }
}

/// The text of an id, or why there is none.
pub open spec fn id_text(res: Result<String, RegistryError>) -> Result<Seq<char>, RegistryError> {
    match res {
        Ok(id) => Ok(id@),
        Err(e) => Err(e),
    }
}

/// How many entries at the start can all be stored.
pub open spec fn storable_prefix(v: Seq<EntryView>) -> nat
    decreases v.len(),
{
    if v.len() > 0 && storable(v[0]) {
        1 + storable_prefix(v.drop_first())
    } else {
        0
    }
}

/// The id that a second stands for, in decimal; nothing where there is no second.
pub open spec fn id_of_second(secs: Option<u64>) -> Option<Seq<char>> {
    match secs {
        Some(s) => Some(number::decimal(s as nat)),
        None => None,
    }
}

/// The id that a second stands for; nothing where there is no second.
pub fn id_at(secs: Option<u64>) -> (res: Option<String>)
    ensures
        opt_text(res) == id_of_second(secs),
{
    match secs {
        Some(s) => Some(text::string_of(&number::to_decimal(s as u128))),
        None => None,
    }
}

/// The present second as an id; nothing where the clock stands before 1970.
pub(crate) fn fresh_id() -> (res: Option<String>)
    ensures
        exists|secs: Option<u64>| opt_text(res) == #[trigger] id_of_second(secs),
{
    id_at(clock::seconds_since_epoch())
}

impl Registry {
    /// No id occurs twice.
    pub open spec fn wf(self) -> bool {
        distinct_ids(self@)
    }

    /// An empty queue.
    pub fn open_in_memory() -> (res: Self)
        ensures
            res.wf(),
            res@.len() == 0,
            settings_of(res.inner.settings) == default_settings(),
    {
        Registry { inner: Repository::new() }
    }

    /// Adds a plain download under an id.
    pub fn add_with_id(&mut self, id: String, url: String, target_path: String) -> (res: Result<
        (),
        RegistryError,
    >)
        requires
            old(self).wf(),
        ensures
            final(self).wf(),
            final(self).inner.settings == old(self).inner.settings,
            res == if has_id(old(self)@, id@) {
                Err::<(), RegistryError>(RegistryError::DuplicateId)
            } else {
                Ok(())
            },
            final(self)@ == if res is Ok {
                old(self)@.push(http_entry(id@, url@, target_path@))
            } else {
                old(self)@
            },
    {
        self.inner.add(DownloadEntry::new_http(id, url, target_path))
    }

    /// Adds a stream under an id.
    pub fn add_hls_with_id(
        &mut self,
        id: String,
        url: String,
        target_path: String,
        quality: Option<String>,
        concurrent: Option<u32>,
    ) -> (res: Result<(), RegistryError>)
        requires
            old(self).wf(),
        ensures
            final(self).wf(),
            final(self).inner.settings == old(self).inner.settings,
            res == if has_id(old(self)@, id@) {
                Err::<(), RegistryError>(RegistryError::DuplicateId)
            } else {
                Ok(())
            },
            final(self)@ == if res is Ok {
                old(self)@.push(
                    hls_entry(id@, url@, target_path@, opt_text(quality), concurrent),
                )
            } else {
                old(self)@
            },
    {
        self.inner.add(DownloadEntry::new_hls(id, url, target_path, quality, concurrent))
    }

    /// Adds a plain download under the present second as its id, which is given back.
    pub fn add(&mut self, url: String, target_path: String) -> (res: Result<String, RegistryError>)
        requires
            old(self).wf(),
        ensures
            final(self).wf(),
            final(self).inner.settings == old(self).inner.settings,
            added(
                old(self)@,
                final(self)@,
                id_text(res),
                |id: Seq<char>| http_entry(id, url@, target_path@),
            ),
    {
        match fresh_id() {
            Some(id) => match self.add_with_id(id.clone(), url, target_path) {
                Ok(()) => Ok(id),
                Err(e) => Err(e),
            },
            None => Err(RegistryError::ClockBeforeEpoch),
        }
    }

    /// Adds a stream under the present second as its id, which is given back.
    pub fn add_hls(
        &mut self,
        url: String,
        target_path: String,
        quality: Option<String>,
        concurrent: Option<u32>,
    ) -> (res: Result<String, RegistryError>)
        requires
            old(self).wf(),
        ensures
            final(self).wf(),
            final(self).inner.settings == old(self).inner.settings,
            added(
                old(self)@,
                final(self)@,
                id_text(res),
                |id: Seq<char>|
                    hls_entry(id, url@, target_path@, opt_text(quality), concurrent),
            ),
    {
        match fresh_id() {
            Some(id) => match self.add_hls_with_id(
                id.clone(),
                url,
                target_path,
                quality,
                concurrent,
            ) {
                Ok(()) => Ok(id),
                Err(e) => Err(e),
            },
            None => Err(RegistryError::ClockBeforeEpoch),
        }
    }

    /// The download with the id.
    pub fn get(&self, id: &str) -> (res: Option<DownloadEntry>)
        requires
            self.wf(),
        ensures
            match res {
                Some(e) => entry_with(self@, id@) == Some(e@),
                None => entry_with(self@, id@) is None,
            },
    {
        self.inner.get(id)
    }

    /// Takes the download with the id out.
    pub fn remove(&mut self, id: &str) -> (res: Option<DownloadEntry>)
        requires
            old(self).wf(),
        ensures
            final(self).wf(),
            final(self).inner.settings == old(self).inner.settings,
            final(self)@ == removed(old(self)@, id@),
            match res {
                Some(e) => entry_with(old(self)@, id@) == Some(e@),
                None => entry_with(old(self)@, id@) is None,
            },
    {
        self.inner.remove(id)
    }

    /// Sets the status of the download with the id.
    pub fn update_status(&mut self, id: &str, status: DownloadStatus) -> (res: Result<
        (),
        RegistryError,
    >)
        requires
            old(self).wf(),
        ensures
            final(self).wf(),
            final(self).inner.settings == old(self).inner.settings,
            match entry_with(old(self)@, id@) {
                Some(e) => res is Ok && final(self)@ == inserted(
                    old(self)@,
                    EntryView { status, ..e },
                ),
                None => res == Err::<(), RegistryError>(RegistryError::NotFound) && final(self)@
                    == old(self)@,
            },
    {
        self.inner.update_status(id, status)
    }

    /// Takes over the download with the id for a run, and says whether that succeeded: it does not
    /// where another run has the download, or where it is complete or gone.
    pub fn try_claim_download(&mut self, id: &str) -> (res: bool)
        requires
            old(self).wf(),
        ensures
            final(self).wf(),
            final(self).inner.settings == old(self).inner.settings,
            match entry_with(old(self)@, id@) {
                Some(e) => res == claimable(e.status) && final(self)@ == if res {
                    inserted(
                        old(self)@,
                        EntryView { status: DownloadStatus::Downloading, ..e },
                    )
                } else {
                    old(self)@
                },
                None => !res && final(self)@ == old(self)@,
            },
    {
        match self.inner.get(id) {
            Some(e) => {
                if !can_claim(e.status) {
                    return false;
                }
                self.inner.update_status(id, DownloadStatus::Downloading).is_ok()
            },
            None => false,
        }
    }

    /// Replaces the download with the id by one that has the same id.
    pub fn update_entry(&mut self, id: &str, entry: DownloadEntry) -> (res: Result<
        (),
        RegistryError,
    >)
        requires
            old(self).wf(),
        ensures
            final(self).wf(),
            final(self).inner.settings == old(self).inner.settings,
            res == if entry@.id != id@ {
                Err::<(), RegistryError>(RegistryError::IdMismatch)
            } else if !storable(entry@) {
                Err(RegistryError::SpeedTooLarge)
            } else if !has_id(old(self)@, id@) {
                Err(RegistryError::NotFound)
            } else {
                Ok(())
            },
            final(self)@ == if res is Ok {
                inserted(old(self)@, entry@)
            } else {
                old(self)@
            },
    {
        self.inner.update(id, entry)
    }

    /// Changes the advanced settings of the download with the id; what is not given stays.
    pub fn update_advanced(
        &mut self,
        id: &str,
        priority: Option<u8>,
        proxy: Option<String>,
        checksum: Option<String>,
        max_speed_bytes: Option<u64>,
    ) -> (res: Result<(), RegistryError>)
        requires
            old(self).wf(),
        ensures
            final(self).wf(),
            final(self).inner.settings == old(self).inner.settings,
            match entry_with(old(self)@, id@) {
                Some(e) => {
                    let changed = advanced(
                        e,
                        priority,
                        opt_text(proxy),
                        opt_text(checksum),
                        max_speed_bytes,
                    );
                    if storable(changed) {
                        res is Ok && final(self)@ == inserted(old(self)@, changed)
                    } else {
                        res == Err::<(), RegistryError>(RegistryError::SpeedTooLarge)
                            && final(self)@ == old(self)@
                    }
                },
                None => res == Err::<(), RegistryError>(RegistryError::NotFound) && final(self)@
                    == old(self)@,
            },
    {
        self.inner.update_advanced(id, priority, proxy, checksum, max_speed_bytes)
    }

    /// All downloads, those with higher priority first, then those that were added first.
    pub fn list(&self) -> (res: Vec<DownloadEntry>)
        ensures
            entry_views(res@) == by_priority(self@),
    {
        self.inner.list()
    }

    /// The downloads that are not complete, in the same order.
    pub fn list_not_completed(&self) -> (res: Vec<DownloadEntry>)
        ensures
            entry_views(res@) == by_priority(self@.filter(|e: EntryView| unfinished(e))),
    {
        self.inner.list_not_completed()
    }

    /// The downloads that have the category and hold the text, in the same order.
    pub fn list_filtered(&self, category: Option<DownloadCategory>, search: Option<&str>) -> (res:
        Vec<DownloadEntry>)
        ensures
            entry_views(res@) == by_priority(self@).filter(
                |e: EntryView| found(e, category, query(search)),
            ),
    {
        self.inner.list_filtered(category, search)
    }

    /// Takes the completed downloads out and says how many they were.
    pub fn clean_completed(&mut self) -> (res: usize)
        requires
            old(self).wf(),
        ensures
            final(self).wf(),
            final(self).inner.settings == old(self).inner.settings,
            final(self)@ == old(self)@.filter(|e: EntryView| unfinished(e)),
            res == old(self)@.len() - final(self)@.len(),
    {
        self.inner.clean_completed()
    }

    /// The settings that hold.
    pub fn get_settings(&self) -> (res: AppSettings)
        ensures
            res@ == settings_of(self.inner.settings),
    {
        self.inner.get_settings()
    }

    /// Saves the settings.
    pub fn save_settings(&mut self, settings: &AppSettings)
        ensures
            settings_of(final(self).inner.settings) == settings@,
            final(self)@ == old(self)@,
    {
        self.inner.save_settings(settings);
    }

    /// Takes over the downloads of an older queue, where this one is empty. It stops before the first
    /// one that cannot be stored.
    pub fn take_over(&mut self, older: &json::Registry) -> (res: Result<usize, RegistryError>)
        requires
            old(self).wf(),
            older.downloads.wf(),
        ensures
            final(self).wf(),
            final(self).inner.settings == old(self).inner.settings,
            old(self)@.len() > 0 ==> res == Ok::<usize, RegistryError>(0) && final(self)@ == old(
                self,
            )@,
            old(self)@.len() == 0 ==> {
                let n = storable_prefix(older.downloads@);
                &&& final(self)@ == older.downloads@.take(n as int)
                &&& n == older.downloads@.len() ==> res == Ok::<usize, RegistryError>(n as usize)
                &&& n < older.downloads@.len() ==> res == Err::<usize, RegistryError>(
                    RegistryError::SpeedTooLarge,
                )
            },
    {
        if !self.inner.is_empty() {
            return Ok(0);
        }
        let ghost all = older.downloads@;
        let list = &older.downloads.entries;
        let mut i: usize = 0;
        proof {
            assert(self@ =~= all.take(0));
            assert(all.skip(0) =~= all);
        }
        while i < list.len()
            invariant
                i <= list@.len(),
                all == entry_views(list@),
                all == older.downloads@,
                distinct_ids(all),
                old(self)@.len() == 0,
                self.wf(),
                self.inner.settings == old(self).inner.settings,
                self@ == all.take(i as int),
                storable_prefix(all) == i + storable_prefix(all.skip(i as int)),
            decreases list@.len() - i,
        {
            proof {
                assert(all[i as int] == list@[i as int]@);
                assert(all.skip(i as int)[0] == all[i as int]);
                assert(all.skip(i as int).drop_first() =~= all.skip(i + 1));
                assert forall|k: int| !crate::download_registry::entries::is_at(
                    self@,
                    all[i as int].id,
                    k,
                ) by {
                    if crate::download_registry::entries::is_at(self@, all[i as int].id, k) {
                        assert(self@[k] == all[k]);
                    }
                }
            }
            match self.inner.add(list[i].clone()) {
                Ok(()) => {},
                Err(e) => {
                    return Err(e);
                },
            }
            i = i + 1;
            proof {
                assert(self@ =~= all.take(i as int));
            }
        }
        proof {
            assert(all.skip(i as int).len() == 0);
        }
        Ok(i)
    }
}

/// A download that a run has taken over cannot be taken over again.
pub proof fn law_claims_are_exclusive(rows: Seq<EntryView>, id: Seq<char>)
    requires
        distinct_ids(rows),
        entry_with(rows, id) is Some,
        claimable(entry_with(rows, id)->0.status),
    ensures
        ({
            let e = entry_with(rows, id)->0;
            let after = inserted(rows, EntryView { status: DownloadStatus::Downloading, ..e });
            entry_with(after, id) matches Some(f) && !claimable(f.status)
        }),
{
    let e = entry_with(rows, id)->0;
    let k = crate::download_registry::entries::place_of(rows, id);
    assert(crate::download_registry::entries::is_at(rows, id, k));
    json::law_insert_is_found(
        rows,
        EntryView { status: DownloadStatus::Downloading, ..e },
        id,
    );
}

/// A download that was added under a new id is found under it, and no other one changed.
pub proof fn law_added_is_found(rows: Seq<EntryView>, e: EntryView, other: Seq<char>)
    requires
        distinct_ids(rows),
        !has_id(rows, e.id),
    ensures
        entry_with(rows.push(e), e.id) == Some(e),
        other != e.id ==> entry_with(rows.push(e), other) == entry_with(rows, other),
{
    json::law_insert_is_found(rows, e, other);
}

/// What is taken over of an older queue can all be stored, and ends only before a download that cannot.
pub proof fn law_taking_over_ends_at_the_first_that_cannot_be_stored(v: Seq<EntryView>, k: int)
    ensures
        storable_prefix(v) <= v.len(),
        0 <= k < storable_prefix(v) ==> storable(v[k]),
        storable_prefix(v) < v.len() ==> !storable(v[storable_prefix(v) as int]),
    decreases v.len(),
{
    if v.len() > 0 && storable(v[0]) {
        law_taking_over_ends_at_the_first_that_cannot_be_stored(v.drop_first(), k - 1);
        if k > 0 {
            assert(0 <= k < storable_prefix(v) ==> v[k] == v.drop_first()[k - 1]);
        }
    }
}

/// The id of a second reads back as that second, so that two seconds have two ids.
pub proof fn law_ids_are_seconds(s: u64, t: u64)
    ensures
        id_of_second(Some(s)) is Some,
        number::u64_of(id_of_second(Some(s))->0) == Some(s),
        id_of_second(Some(s)) == id_of_second(Some(t)) ==> s == t,
{
    number::law_decimal_reads_back(s as nat);
    number::law_decimal_reads_back(t as nat);
}

} // verus!
