//! What a window asks of the queue.

use crate::download_registry::entries::{
    RegistryError, by_priority, entry_views, entry_with, found, unfinished,
};
use crate::download_registry::json::{inserted, removed};
use crate::download_registry::registry::{Registry, added, id_text};
use crate::download_registry::repository::{query, settings_of};
use crate::types::{
    AppSettings, DownloadCategory, DownloadEntry, DownloadStatus, EntryView, http_entry,
};
use vstd::prelude::*;

verus! {

/// The queue behind a window.
#[derive(Debug)]
pub struct RegistryBridge {
    pub registry: Registry,
}

/// The text that a window searches for: an empty one is none.
pub open spec fn search_text(s: Seq<char>) -> Option<Seq<char>> {
    if s.len() == 0 {
        None
    } else {
        Some(s)
    }
}

/// The status of a download was set, or there is none with the id.
pub open spec fn status_set(
    before: Seq<EntryView>,
    after: Seq<EntryView>,
    id: Seq<char>,
    status: DownloadStatus,
    res: Result<(), RegistryError>,
) -> bool {
    match entry_with(before, id) {
        Some(e) => res is Ok && after == inserted(before, EntryView { status, ..e }),
        None => res == Err::<(), RegistryError>(RegistryError::NotFound) && after == before,
    }
}

impl RegistryBridge {
    /// The queue behind a window.
    pub fn new(registry: Registry) -> (res: Self)
        ensures
            res.registry == registry,
    {
        RegistryBridge { registry }
    }

    /// The downloads that have the category and hold the text.
    pub fn list_filtered(&self, category: Option<DownloadCategory>, search: String) -> (res: Vec<
        DownloadEntry,
    >)
        ensures
            entry_views(res@) == by_priority(self.registry@).filter(
                |e: EntryView| found(e, category, search_text(search@)),
            ),
    {
        let held: Option<&str> = if search.as_str().unicode_len() == 0 {
            None
        } else {
            Some(search.as_str())
        };
        proof {
            let a = |e: EntryView| found(e, category, query(held));
            let b = |e: EntryView| found(e, category, search_text(search@));
            assert(a =~= b);
        }
        self.registry.list_filtered(category, held)
    }

    /// The settings that hold.
    pub fn get_settings(&self) -> (res: AppSettings)
        ensures
            res@ == settings_of(self.registry.inner.settings),
    {
        self.registry.get_settings()
    }

    /// Adds a download under the present second as its id, which is given back.
    pub fn add(&mut self, url: String, path: String) -> (res: Result<String, RegistryError>)
        requires
            old(self).registry.wf(),
        ensures
            final(self).registry.wf(),
            final(self).registry.inner.settings == old(self).registry.inner.settings,
            added(
                old(self).registry@,
                final(self).registry@,
                id_text(res),
                |id: Seq<char>| http_entry(id, url@, path@),
            ),
    {
        self.registry.add(url, path)
    }

    /// Removes a download; it need not be there.
    pub fn remove(&mut self, id: String)
        requires
            old(self).registry.wf(),
        ensures
            final(self).registry.wf(),
            final(self).registry.inner.settings == old(self).registry.inner.settings,
            final(self).registry@ == removed(old(self).registry@, id@),
    {
        let _ = self.registry.remove(id.as_str());
    }

    /// Pauses a download.
    pub fn pause(&mut self, id: String) -> (res: Result<(), RegistryError>)
        requires
            old(self).registry.wf(),
        ensures
            final(self).registry.wf(),
            final(self).registry.inner.settings == old(self).registry.inner.settings,
            status_set(
                old(self).registry@,
                final(self).registry@,
                id@,
                DownloadStatus::Paused,
                res,
            ),
    {
        self.registry.update_status(id.as_str(), DownloadStatus::Paused)
    }

    /// Makes a download wait to be run again.
    pub fn resume(&mut self, id: String) -> (res: Result<(), RegistryError>)
        requires
            old(self).registry.wf(),
        ensures
            final(self).registry.wf(),
            final(self).registry.inner.settings == old(self).registry.inner.settings,
            status_set(
                old(self).registry@,
                final(self).registry@,
                id@,
                DownloadStatus::Pending,
                res,
            ),
    {
        self.registry.update_status(id.as_str(), DownloadStatus::Pending)
    }

    /// Makes a failed download wait to be run again.
    pub fn retry(&mut self, id: String) -> (res: Result<(), RegistryError>)
        requires
            old(self).registry.wf(),
        ensures
            final(self).registry.wf(),
            final(self).registry.inner.settings == old(self).registry.inner.settings,
            status_set(
                old(self).registry@,
                final(self).registry@,
                id@,
                DownloadStatus::Pending,
                res,
            ),
    {
        self.registry.update_status(id.as_str(), DownloadStatus::Pending)
    }

    /// Removes the completed downloads and says how many they were.
    pub fn clean(&mut self) -> (res: usize)
        requires
            old(self).registry.wf(),
        ensures
            final(self).registry.wf(),
            final(self).registry.inner.settings == old(self).registry.inner.settings,
            final(self).registry@ == old(self).registry@.filter(|e: EntryView| unfinished(e)),
            res == old(self).registry@.len() - final(self).registry@.len(),
    {
        self.registry.clean_completed()
    }
}

/// A window that searches for nothing is shown everything of the category.
pub proof fn law_empty_searches_find_all(e: EntryView, s: Seq<char>)
    ensures
        found(e, None, search_text(Seq::empty())),
        s.len() > 0 ==> found(e, None, search_text(s)) == found(e, None, Some(s)),
{
}

/// A status that was set is the only change; an id that none has is answered as such and changes
/// nothing.
pub proof fn law_set_status_is_the_only_change(
    before: Seq<EntryView>,
    after: Seq<EntryView>,
    id: Seq<char>,
    status: DownloadStatus,
    res: Result<(), RegistryError>,
    k: int,
)
    requires
        crate::download_registry::entries::distinct_ids(before),
        status_set(before, after, id, status, res),
        0 <= k < before.len(),
    ensures
        after.len() == before.len(),
        before[k].id == id ==> res is Ok && after[k] == (EntryView { status, ..before[k] }),
        before[k].id != id ==> after[k] == before[k],
        res is Err ==> res == Err::<(), RegistryError>(RegistryError::NotFound) && after == before
            && before[k].id != id,
{
    crate::ui::backend::law_set_status_stays_in_place(before, id, status, k);
    crate::download_registry::entries::law_lookup_goes_by_id(before, id, k);
    assert(after == crate::ui::backend::with_status(before, id, status));
}

} // verus!
