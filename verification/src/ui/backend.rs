//! The progress of the downloads as a window shows it, and the messages that change it.

use crate::download_registry::entries::{
    RegistryError, by_priority, distinct_ids, entry_views, entry_with, has_id, is_at,
    lemma_place, lemma_priority_keeps_distinct, law_priority_order, place_of,
};
use crate::download_registry::json::{inserted, law_insert_is_found, law_removed_is_gone, removed};
use crate::download_registry::registry::{Registry, added, fresh_id};
use crate::download_registry::repository::storable;
use crate::text;
use crate::types::{DownloadEntry, DownloadStatus, EntryView, http_entry, opt_text};
use vstd::prelude::*;

verus! {

/// How far a download is.
#[derive(Debug)]
pub struct DownloadProgress {
    pub id: String,
    pub url: String,
    pub target_path: String,
    pub status: DownloadStatus,
    pub downloaded: u64,
    pub total: u64,
    /// Bytes per second.
    pub speed: u64,
}

/// The content of a `DownloadProgress`.
pub struct ProgressView {
    pub id: Seq<char>,
    pub url: Seq<char>,
    pub target_path: Seq<char>,
    pub status: DownloadStatus,
    pub downloaded: u64,
    pub total: u64,
    pub speed: u64,
}

impl View for DownloadProgress {
    type V = ProgressView;

    open spec fn view(&self) -> ProgressView {
        ProgressView {
            id: self.id@,
            url: self.url@,
            target_path: self.target_path@,
            status: self.status,
            downloaded: self.downloaded,
            total: self.total,
            speed: self.speed,
        }
    }
}

impl Clone for DownloadProgress {
    fn clone(&self) -> (res: Self)
        ensures
            res@ == self@,
    {
        DownloadProgress {
            id: self.id.clone(),
            url: self.url.clone(),
            target_path: self.target_path.clone(),
            status: self.status,
            downloaded: self.downloaded,
            total: self.total,
            speed: self.speed,
        }
    }
}

/// What a window asks for.
#[derive(Debug)]
pub enum UiMessage {
    /// Add the download at a URL, to a path.
    Add(String, String),
    Pause(String),
    Resume(String),
    Remove(String),
    Quit,
}

/// What is to be done once a message was handled.
#[derive(Debug)]
pub enum UiAction {
    Nothing,
    /// The download could not be added.
    Report(RegistryError),
    /// The new download is to be resumed next.
    ResumeNext(String),
    /// The download is to be run.
    Start(DownloadEntry),
    /// All is to end.
    Quit,
}

/// What some downloads look like in a window.
pub open spec fn progress_views(v: Seq<DownloadProgress>) -> Seq<ProgressView> {
    v.map_values(|p: DownloadProgress| p@)
}

/// What a download of the queue looks like when a window opens: one that is complete counts as one
/// byte of one.
pub open spec fn opened(e: EntryView) -> ProgressView {
    let n: u64 = if e.status == DownloadStatus::Completed {
        1
    } else {
        0
    };
    ProgressView {
        id: e.id,
        url: e.url,
        target_path: e.target_path,
        status: e.status,
        downloaded: n,
        total: n,
        speed: 0,
    }
}

/// What a new download looks like.
pub open spec fn fresh(id: Seq<char>, url: Seq<char>, target_path: Seq<char>) -> ProgressView {
    ProgressView {
        id,
        url,
        target_path,
        status: DownloadStatus::Pending,
        downloaded: 0,
        total: 0,
        speed: 0,
    }
}

/// The list after the download with an id was changed.
pub open spec fn changed(
    v: Seq<ProgressView>,
    id: Seq<char>,
    f: spec_fn(ProgressView) -> ProgressView,
) -> Seq<ProgressView> {
    v.map_values(
        |p: ProgressView|
            if p.id == id {
                f(p)
            } else {
                p
            },
    )
}

/// The list without the download with an id.
pub open spec fn without(v: Seq<ProgressView>, id: Seq<char>) -> Seq<ProgressView> {
    v.filter(|p: ProgressView| p.id != id)
}

/// Some download of the list has the id.
pub open spec fn shows(v: Seq<ProgressView>, id: Seq<char>) -> bool {
    exists|k: int| 0 <= k < v.len() && (#[trigger] v[k]).id == id
}

/// The list after a download was put under its id: it replaces the one that had the id.
pub open spec fn put(v: Seq<ProgressView>, p: ProgressView) -> Seq<ProgressView> {
    if shows(v, p.id) {
        changed(v, p.id, |q: ProgressView| p)
    } else {
        v.push(p)
    }
}

/// A download with another status, which does not move.
pub open spec fn halted(status: DownloadStatus) -> spec_fn(ProgressView) -> ProgressView {
    |p: ProgressView| ProgressView { status, speed: 0, ..p }
}

/// A download that is being fetched.
pub open spec fn fetching() -> spec_fn(ProgressView) -> ProgressView {
    |p: ProgressView| ProgressView { status: DownloadStatus::Downloading, ..p }
}

/// A download whose size became known.
pub open spec fn sized(total: u64) -> spec_fn(ProgressView) -> ProgressView {
    |p: ProgressView| ProgressView { total, ..p }
}

/// A download half a second after it had fetched `last` bytes: it has `now`.
pub open spec fn ticked(now: u64, last: u64) -> spec_fn(ProgressView) -> ProgressView {
    |p: ProgressView|
        ProgressView {
            downloaded: now,
            speed: if now >= last {
                (2 * (now - last)) as u64
            } else {
                0
            },
            ..p
        }
}

/// No download is shown twice.
pub open spec fn distinct_rows(v: Seq<ProgressView>) -> bool {
    forall|i: int, j: int| 0 <= i < j < v.len() ==> (#[trigger] v[i]).id != (#[trigger] v[j]).id
}

/// Where no download is shown twice, a change of the one with an id is a change at its place.
proof fn lemma_changed_at(
    v: Seq<ProgressView>,
    id: Seq<char>,
    f: spec_fn(ProgressView) -> ProgressView,
    k: int,
)
    requires
        distinct_rows(v),
        0 <= k < v.len(),
        v[k].id == id,
        f(v[k]).id == id,
    ensures
        changed(v, id, f) == v.update(k, f(v[k])),
        distinct_rows(changed(v, id, f)),
{
    let u = v.update(k, f(v[k]));
    assert forall|i: int| 0 <= i < v.len() && i != k implies (#[trigger] v[i]).id != id by {
        if i < k {
            assert(v[i].id != v[k].id);
        } else {
            assert(v[k].id != v[i].id);
        }
    }
    assert(changed(v, id, f) =~= u);
    assert forall|i: int, j: int| 0 <= i < j < u.len() implies (#[trigger] u[i]).id != (
    #[trigger] u[j]).id by {
        assert(v[i].id != v[j].id);
    }
}

/// Where no download has an id, a change of the one with the id changes nothing.
proof fn lemma_changed_nowhere(
    v: Seq<ProgressView>,
    id: Seq<char>,
    f: spec_fn(ProgressView) -> ProgressView,
)
    requires
        forall|i: int| 0 <= i < v.len() ==> (#[trigger] v[i]).id != id,
    ensures
        changed(v, id, f) == v,
        !shows(v, id),
        without(v, id) == v,
{
    assert(changed(v, id, f) =~= v);
    lemma_keep_all(v, |p: ProgressView| p.id != id);
}

proof fn lemma_keep_all(v: Seq<ProgressView>, keep: spec_fn(ProgressView) -> bool)
    requires
        forall|i: int| 0 <= i < v.len() ==> keep(#[trigger] v[i]),
    ensures
        v.filter(keep) == v,
    decreases v.len(),
{
    reveal(Seq::filter);
    if v.len() > 0 {
        assert forall|i: int| 0 <= i < v.drop_last().len() implies keep(
            #[trigger] v.drop_last()[i],
        ) by {
            assert(v.drop_last()[i] == v[i]);
        }
        lemma_keep_all(v.drop_last(), keep);
        assert(v.drop_last().push(v.last()) =~= v);
    }
}

/// Where no download is shown twice, the list without the one with an id is the list without its
/// place.
proof fn lemma_without_at(v: Seq<ProgressView>, id: Seq<char>, k: int)
    requires
        distinct_rows(v),
        0 <= k < v.len(),
        v[k].id == id,
    ensures
        without(v, id) == v.remove(k),
        distinct_rows(v.remove(k)),
    decreases v.len(),
{
    let keep = |p: ProgressView| p.id != id;
    reveal(Seq::filter);
    if k == v.len() - 1 {
        assert forall|i: int| 0 <= i < v.drop_last().len() implies keep(
            #[trigger] v.drop_last()[i],
        ) by {
            assert(v.drop_last()[i] == v[i]);
            assert(v[i].id != v[k].id);
        }
        lemma_keep_all(v.drop_last(), keep);
        assert(v.remove(k) =~= v.drop_last());
    } else {
        assert(v[k].id != v[v.len() - 1].id);
        assert forall|i: int, j: int| 0 <= i < j < v.drop_last().len() implies (
        #[trigger] v.drop_last()[i]).id != (#[trigger] v.drop_last()[j]).id by {
            assert(v[i].id != v[j].id);
        }
        lemma_without_at(v.drop_last(), id, k);
        assert(v.remove(k) =~= v.drop_last().remove(k).push(v.last()));
    }
    let u = v.remove(k);
    assert forall|i: int, j: int| 0 <= i < j < u.len() implies (#[trigger] u[i]).id != (
    #[trigger] u[j]).id by {
        let a = if i < k {
            i
        } else {
            i + 1
        };
        let b = if j < k {
            j
        } else {
            j + 1
        };
        assert(u[i] == v[a] && u[j] == v[b]);
        assert(v[a].id != v[b].id);
    }
}

/// The list that is shown.
#[derive(Debug)]
pub struct UiBackend {
    pub state: Vec<DownloadProgress>,
}

impl View for UiBackend {
    type V = Seq<ProgressView>;

    open spec fn view(&self) -> Seq<ProgressView> {
        progress_views(self.state@)
    }
}

impl UiBackend {
    /// No download is shown twice.
    pub open spec fn wf(self) -> bool {
        distinct_rows(self@)
    }

    /// An empty list.
    pub fn new() -> (res: Self)
        ensures
            res.wf(),
            res@ == Seq::<ProgressView>::empty(),
    {
        let res = UiBackend { state: Vec::new() };
        assert(res@ =~= Seq::<ProgressView>::empty());
        res
    }

    /// Where the download with an id stands.
    fn place(&self, id: &str) -> (res: Option<usize>)
        ensures
            match res {
                Some(k) => k < self@.len() && k < self.state@.len() && self@[k as int].id == id@,
                None => forall|k: int| 0 <= k < self@.len() ==> (#[trigger] self@[k]).id != id@,
            },
    {
        let mut i: usize = 0;
        while i < self.state.len()
            invariant
                i <= self.state@.len(),
                self@.len() == self.state@.len(),
                forall|k: int| 0 <= k < i ==> (#[trigger] self@[k]).id != id@,
            decreases self.state@.len() - i,
        {
            assert(self@[i as int] == self.state@[i as int]@);
            if text::eq(self.state[i].id.as_str(), id) {
                return Some(i);
            }
            i = i + 1;
        }
        None
    }

    /// Puts a download under its id; it replaces the one that had the id.
    pub fn insert(&mut self, p: DownloadProgress)
        requires
            old(self).wf(),
        ensures
            final(self).wf(),
            final(self)@ == put(old(self)@, p@),
    {
        let ghost v = self@;
        let ghost f = |q: ProgressView| p@;
        match self.place(p.id.as_str()) {
            Some(k) => {
                self.state.set(k, p);
                proof {
                    assert(shows(v, p@.id)) by {
                        assert(v[k as int].id == p@.id);
                    }
                    lemma_changed_at(v, p@.id, f, k as int);
                    assert(self@ =~= v.update(k as int, p@));
                }
            },
            None => {
                self.state.push(p);
                proof {
                    lemma_changed_nowhere(v, p@.id, f);
                    assert(self@ =~= v.push(p@));
                    let u = self@;
                    assert forall|i: int, j: int| 0 <= i < j < u.len() implies (
                    #[trigger] u[i]).id != (#[trigger] u[j]).id by {
                        assert(u[i] == v[i]);
                        if j < v.len() {
                            assert(u[j] == v[j]);
                        }
                    }
                }
            },
        }
    }

    /// Sets the status of a download, and that it does not move.
    pub fn halt(&mut self, id: &str, status: DownloadStatus)
        requires
            old(self).wf(),
        ensures
            final(self).wf(),
            final(self)@ == changed(old(self)@, id@, halted(status)),
    {
        let ghost v = self@;
        match self.place(id) {
            Some(k) => {
                assert(v[k as int] == self.state@[k as int]@);
                let mut p = self.state[k].clone();
                p.status = status;
                p.speed = 0;
                self.state.set(k, p);
                proof {
                    lemma_changed_at(v, id@, halted(status), k as int);
                    assert(self@ =~= v.update(k as int, p@));
                }
            },
            None => {
                proof {
                    lemma_changed_nowhere(v, id@, halted(status));
                }
            },
        }
    }

    /// Marks a download as being fetched.
    pub fn fetch(&mut self, id: &str)
        requires
            old(self).wf(),
        ensures
            final(self).wf(),
            final(self)@ == changed(old(self)@, id@, fetching()),
    {
        let ghost v = self@;
        match self.place(id) {
            Some(k) => {
                assert(v[k as int] == self.state@[k as int]@);
                let mut p = self.state[k].clone();
                p.status = DownloadStatus::Downloading;
                self.state.set(k, p);
                proof {
                    lemma_changed_at(v, id@, fetching(), k as int);
                    assert(self@ =~= v.update(k as int, p@));
                }
            },
            None => {
                proof {
                    lemma_changed_nowhere(v, id@, fetching());
                }
            },
        }
    }

    /// Sets the size of a download.
    pub fn set_total(&mut self, id: &str, total: u64)
        requires
            old(self).wf(),
        ensures
            final(self).wf(),
            final(self)@ == changed(old(self)@, id@, sized(total)),
    {
        let ghost v = self@;
        match self.place(id) {
            Some(k) => {
                assert(v[k as int] == self.state@[k as int]@);
                let mut p = self.state[k].clone();
                p.total = total;
                self.state.set(k, p);
                proof {
                    lemma_changed_at(v, id@, sized(total), k as int);
                    assert(self@ =~= v.update(k as int, p@));
                }
            },
            None => {
                proof {
                    lemma_changed_nowhere(v, id@, sized(total));
                }
            },
        }
    }

    /// Takes in how many bytes a download has, half a second after it had `last`.
    pub fn tick(&mut self, id: &str, now: u64, last: u64)
        requires
            old(self).wf(),
            now - last <= u64::MAX / 2,
        ensures
            final(self).wf(),
            final(self)@ == changed(old(self)@, id@, ticked(now, last)),
    {
        let ghost v = self@;
        match self.place(id) {
            Some(k) => {
                assert(v[k as int] == self.state@[k as int]@);
                let mut p = self.state[k].clone();
                p.speed =
                if now >= last {
                    (now - last) * 2
                } else {
                    0
                };
                p.downloaded = now;
                self.state.set(k, p);
                proof {
                    lemma_changed_at(v, id@, ticked(now, last), k as int);
                    assert(self@ =~= v.update(k as int, p@));
                }
            },
            None => {
                proof {
                    lemma_changed_nowhere(v, id@, ticked(now, last));
                }
            },
        }
    }

    /// Takes a download out.
    pub fn forget(&mut self, id: &str)
        requires
            old(self).wf(),
        ensures
            final(self).wf(),
            final(self)@ == without(old(self)@, id@),
    {
        let ghost v = self@;
        match self.place(id) {
            Some(k) => {
                self.state.remove(k);
                proof {
                    lemma_without_at(v, id@, k as int);
                    assert(self@ =~= v.remove(k as int));
                }
            },
            None => {
                proof {
                    lemma_changed_nowhere(v, id@, fetching());
                }
            },
        }
    }

    /// The list that a window opens with.
    pub fn spawn(registry: &Registry) -> (res: Self)
        requires
            registry.wf(),
        ensures
            res.wf(),
            res@ == opening(registry@),
    {
        let entries = registry.list();
        let ghost all = by_priority(registry@);
        let ghost show = |e: EntryView| opened(e);
        proof {
            lemma_priority_keeps_distinct(registry@);
        }
        let mut out = UiBackend::new();
        let mut i: usize = 0;
        proof {
            assert(out@ =~= all.take(0).map_values(show));
        }
        while i < entries.len()
            invariant
                i <= entries@.len(),
                all == entry_views(entries@),
                show == (|e: EntryView| opened(e)),
                distinct_ids(all),
                out.wf(),
                out@ == all.take(i as int).map_values(show),
            decreases entries@.len() - i,
        {
            let n: u64 = if entries[i].status == DownloadStatus::Completed {
                1
            } else {
                0
            };
            let ghost before = out@;
            out.insert(
                DownloadProgress {
                    id: entries[i].id.clone(),
                    url: entries[i].url.clone(),
                    target_path: entries[i].target_path.clone(),
                    status: entries[i].status,
                    downloaded: n,
                    total: n,
                    speed: 0,
                },
            );
            proof {
                let e = entries@[i as int]@;
                assert(all[i as int] == e);
                assert(!shows(before, e.id)) by {
                    assert forall|k: int| 0 <= k < before.len() implies (
                    #[trigger] before[k]).id != e.id by {
                        assert(before[k] == opened(all[k]));
                        assert(all[k].id != all[i as int].id);
                    }
                }
                assert(out@ =~= all.take(i + 1).map_values(show));
            }
            i = i + 1;
        }
        proof {
            assert(all.take(i as int) =~= all);
        }
        out
    }

    /// Takes in that a download was added or not: it is shown and resumed next, or the failure is
    /// reported.
    pub fn on_added(&mut self, id: Result<String, RegistryError>, url: String, path: String) -> (res:
        UiAction)
        requires
            old(self).wf(),
        ensures
            final(self).wf(),
            match id {
                Ok(i) => final(self)@ == put(old(self)@, fresh(i@, url@, path@)) && (
                res matches UiAction::ResumeNext(r) && r@ == i@),
                Err(e) => final(self)@ == old(self)@ && res == UiAction::Report(e),
            },
    {
        match id {
            Ok(i) => {
                self.insert(
                    DownloadProgress {
                        id: i.clone(),
                        url,
                        target_path: path,
                        status: DownloadStatus::Pending,
                        downloaded: 0,
                        total: 0,
                        speed: 0,
                    },
                );
                UiAction::ResumeNext(i)
            },
            Err(e) => UiAction::Report(e),
        }
    }

    /// Adds a download to the queue under an id and shows it; where there is no id, or it is taken,
    /// that is reported and nothing changes.
    pub fn add_as(
        &mut self,
        registry: &mut Registry,
        id: Option<String>,
        url: String,
        path: String,
    ) -> (res: UiAction)
        requires
            old(self).wf(),
            old(registry).wf(),
        ensures
            final(self).wf(),
            final(registry).wf(),
            final(registry).inner.settings == old(registry).inner.settings,
            match opt_text(id) {
                Some(i) => if has_id(old(registry)@, i) {
                    &&& res == UiAction::Report(RegistryError::DuplicateId)
                    &&& final(registry)@ == old(registry)@
                    &&& final(self)@ == old(self)@
                } else {
                    &&& res matches UiAction::ResumeNext(r) && r@ == i
                    &&& final(registry)@ == old(registry)@.push(http_entry(i, url@, path@))
                    &&& final(self)@ == put(old(self)@, fresh(i, url@, path@))
                },
                None => {
                    &&& res == UiAction::Report(RegistryError::ClockBeforeEpoch)
                    &&& final(registry)@ == old(registry)@
                    &&& final(self)@ == old(self)@
                },
            },
    {
        let under: Result<String, RegistryError> = match id {
            Some(i) => match registry.add_with_id(i.clone(), url.clone(), path.clone()) {
                Ok(()) => Ok(i),
                Err(e) => Err(e),
            },
            None => Err(RegistryError::ClockBeforeEpoch),
        };
        self.on_added(under, url, path)
    }

    /// Adds a download to the queue under the present second as its id, and shows it.
    pub fn add(&mut self, registry: &mut Registry, url: String, path: String) -> (res: UiAction)
        requires
            old(self).wf(),
            old(registry).wf(),
        ensures
            final(self).wf(),
            final(registry).wf(),
            final(registry).inner.settings == old(registry).inner.settings,
            match res {
                UiAction::ResumeNext(id) => {
                    &&& added(
                        old(registry)@,
                        final(registry)@,
                        Ok(id@),
                        |id: Seq<char>| http_entry(id, url@, path@),
                    )
                    &&& final(self)@ == put(old(self)@, fresh(id@, url@, path@))
                },
                UiAction::Report(e) => {
                    &&& added(
                        old(registry)@,
                        final(registry)@,
                        Err(e),
                        |id: Seq<char>| http_entry(id, url@, path@),
                    )
                    &&& final(self)@ == old(self)@
                },
                _ => false,
            },
    {
        self.add_as(registry, fresh_id(), url, path)
    }

    /// Pauses a download.
    pub fn pause(&mut self, registry: &mut Registry, id: &str)
        requires
            old(self).wf(),
            old(registry).wf(),
        ensures
            final(self).wf(),
            final(registry).wf(),
            final(registry).inner.settings == old(registry).inner.settings,
            final(registry)@ == with_status(old(registry)@, id@, DownloadStatus::Paused),
            final(self)@ == changed(old(self)@, id@, halted(DownloadStatus::Paused)),
    {
        let _ = registry.update_status(id, DownloadStatus::Paused);
        self.halt(id, DownloadStatus::Paused);
    }

    /// Resumes a download: it is run where the queue holds it and can store it.
    pub fn resume(&mut self, registry: &mut Registry, id: &str) -> (res: UiAction)
        requires
            old(self).wf(),
            old(registry).wf(),
        ensures
            final(self).wf(),
            final(registry).wf(),
            final(registry).inner.settings == old(registry).inner.settings,
            match entry_with(old(registry)@, id@) {
                Some(e) => if storable(e) {
                    &&& final(registry)@ == with_status(
                        old(registry)@,
                        id@,
                        DownloadStatus::Downloading,
                    )
                    &&& final(self)@ == changed(old(self)@, id@, fetching())
                    &&& res matches UiAction::Start(s) && s@ == (EntryView {
                        status: DownloadStatus::Downloading,
                        ..e
                    })
                } else {
                    res is Nothing && final(registry)@ == old(registry)@ && final(self)@ == old(
                        self,
                    )@
                },
                None => res is Nothing && final(registry)@ == old(registry)@ && final(self)@
                    == old(self)@,
            },
    {
        match registry.get(id) {
            Some(e) => {
                let mut entry = e;
                entry.status = DownloadStatus::Downloading;
                proof {
                    let k = place_of(registry@, id@);
                    assert(is_at(registry@, id@, k));
                }
                match registry.update_entry(id, entry.clone()) {
                    Ok(()) => {
                        self.fetch(id);
                        UiAction::Start(entry)
                    },
                    Err(_) => UiAction::Nothing,
                }
            },
            None => UiAction::Nothing,
        }
    }

    /// Removes a download.
    pub fn remove(&mut self, registry: &mut Registry, id: &str)
        requires
            old(self).wf(),
            old(registry).wf(),
        ensures
            final(self).wf(),
            final(registry).wf(),
            final(registry).inner.settings == old(registry).inner.settings,
            final(registry)@ == removed(old(registry)@, id@),
            final(self)@ == without(old(self)@, id@),
    {
        let _ = registry.remove(id);
        self.forget(id);
    }

    /// Takes in that a download has ended, well or not.
    pub fn finish(&mut self, registry: &mut Registry, id: &str, well: bool)
        requires
            old(self).wf(),
            old(registry).wf(),
        ensures
            final(self).wf(),
            final(registry).wf(),
            final(registry).inner.settings == old(registry).inner.settings,
            final(registry)@ == with_status(old(registry)@, id@, end_status(well)),
            final(self)@ == changed(old(self)@, id@, halted(end_status(well))),
    {
        let status: DownloadStatus = if well {
            DownloadStatus::Completed
        } else {
            DownloadStatus::Error
        };
        let _ = registry.update_status(id, status);
        self.halt(id, status);
    }

    /// Handles a message.
    pub fn handle(&mut self, registry: &mut Registry, message: UiMessage) -> (res: UiAction)
        requires
            old(self).wf(),
            old(registry).wf(),
        ensures
            final(self).wf(),
            final(registry).wf(),
            final(registry).inner.settings == old(registry).inner.settings,
            match message {
                UiMessage::Add(url, path) => match res {
                    UiAction::ResumeNext(id) => {
                        &&& added(
                            old(registry)@,
                            final(registry)@,
                            Ok(id@),
                            |id: Seq<char>| http_entry(id, url@, path@),
                        )
                        &&& final(self)@ == put(old(self)@, fresh(id@, url@, path@))
                    },
                    UiAction::Report(e) => {
                        &&& added(
                            old(registry)@,
                            final(registry)@,
                            Err(e),
                            |id: Seq<char>| http_entry(id, url@, path@),
                        )
                        &&& final(self)@ == old(self)@
                    },
                    _ => false,
                },
                UiMessage::Pause(id) => {
                    &&& res is Nothing
                    &&& final(registry)@ == with_status(
                        old(registry)@,
                        id@,
                        DownloadStatus::Paused,
                    )
                    &&& final(self)@ == changed(old(self)@, id@, halted(DownloadStatus::Paused))
                },
                UiMessage::Resume(id) => match entry_with(old(registry)@, id@) {
                    Some(e) => if storable(e) {
                        &&& final(registry)@ == with_status(
                            old(registry)@,
                            id@,
                            DownloadStatus::Downloading,
                        )
                        &&& final(self)@ == changed(old(self)@, id@, fetching())
                        &&& res matches UiAction::Start(s) && s@ == (EntryView {
                            status: DownloadStatus::Downloading,
                            ..e
                        })
                    } else {
                        res is Nothing && final(registry)@ == old(registry)@ && final(self)@
                            == old(self)@
                    },
                    None => res is Nothing && final(registry)@ == old(registry)@ && final(self)@
                        == old(self)@,
                },
                UiMessage::Remove(id) => res is Nothing && final(registry)@ == removed(
                    old(registry)@,
                    id@,
                ) && final(self)@ == without(old(self)@, id@),
                UiMessage::Quit => res is Quit && final(registry)@ == old(registry)@
                    && final(self)@ == old(self)@,
            },
    {
        match message {
            UiMessage::Add(url, path) => self.add(registry, url, path),
            UiMessage::Pause(id) => {
                self.pause(registry, id.as_str());
                UiAction::Nothing
            },
            UiMessage::Resume(id) => self.resume(registry, id.as_str()),
            UiMessage::Remove(id) => {
                self.remove(registry, id.as_str());
                UiAction::Nothing
            },
            UiMessage::Quit => UiAction::Quit,
        }
    }
}

/// The list that a window opens with.
pub open spec fn opening(rows: Seq<EntryView>) -> Seq<ProgressView> {
    by_priority(rows).map_values(|e: EntryView| opened(e))
}

/// The queue after the status of a download was set; nothing changes where it is not there.
pub open spec fn with_status(rows: Seq<EntryView>, id: Seq<char>, status: DownloadStatus) -> Seq<
    EntryView,
> {
    match entry_with(rows, id) {
        Some(e) => inserted(rows, EntryView { status, ..e }),
        None => rows,
    }
}

/// The status of a download that has ended, well or not.
pub open spec fn end_status(well: bool) -> DownloadStatus {
    if well {
        DownloadStatus::Completed
    } else {
        DownloadStatus::Error
    }
}

/// What is shown of a download is what the queue holds of it.
pub open spec fn true_of(p: ProgressView, rows: Seq<EntryView>) -> bool {
    entry_with(rows, p.id) matches Some(e) && e.status == p.status && e.url == p.url
        && e.target_path == p.target_path
}

/// What is shown is what the queue holds.
pub open spec fn agrees(v: Seq<ProgressView>, rows: Seq<EntryView>) -> bool {
    forall|k: int| 0 <= k < v.len() ==> true_of(#[trigger] v[k], rows)
}

/// An entry of the queue is found under its id.
proof fn lemma_found(rows: Seq<EntryView>, k: int)
    requires
        distinct_ids(rows),
        0 <= k < rows.len(),
    ensures
        entry_with(rows, rows[k].id) == Some(rows[k]),
{
    assert forall|j: int| 0 <= j < k implies (#[trigger] rows[j]).id != rows[k].id by {
    }
    assert(is_at(rows, rows[k].id, k));
    lemma_place(rows, rows[k].id, k);
}

/// What a window opens with is what the queue holds, and all of it.
pub proof fn law_opening_shows_the_queue(rows: Seq<EntryView>)
    requires
        distinct_ids(rows),
    ensures
        agrees(opening(rows), rows),
        opening(rows).len() == rows.len(),
        forall|k: int| 0 <= k < rows.len() ==> shows(opening(rows), (#[trigger] rows[k]).id),
{
    broadcast use vstd::seq_lib::group_to_multiset_ensures;

    let v = opening(rows);
    let sorted = by_priority(rows);
    law_priority_order(rows);
    assert forall|k: int| 0 <= k < v.len() implies true_of(#[trigger] v[k], rows) by {
        assert(v[k] == opened(sorted[k]));
        assert(sorted.contains(sorted[k]));
        let a = choose|a: int| 0 <= a < rows.len() && rows[a] == sorted[k];
        lemma_found(rows, a);
    }
    assert forall|k: int| 0 <= k < rows.len() implies shows(v, (#[trigger] rows[k]).id) by {
        assert(rows.contains(rows[k]));
        assert(sorted.contains(rows[k]));
        let a = choose|a: int| 0 <= a < sorted.len() && sorted[a] == rows[k];
        assert(v[a].id == rows[k].id);
    }
    assert(sorted.to_multiset().len() == rows.to_multiset().len());
}

/// A new download keeps what is shown true.
pub proof fn law_adding_keeps_the_window_true(
    v: Seq<ProgressView>,
    rows: Seq<EntryView>,
    id: Seq<char>,
    url: Seq<char>,
    path: Seq<char>,
)
    requires
        distinct_ids(rows),
        agrees(v, rows),
        !has_id(rows, id),
    ensures
        agrees(put(v, fresh(id, url, path)), rows.push(http_entry(id, url, path))),
{
    let e = http_entry(id, url, path);
    let p = fresh(id, url, path);
    let after = rows.push(e);
    assert(after == inserted(rows, e));
    law_insert_is_found(rows, e, id);
    let u = put(v, p);
    assert forall|k: int| 0 <= k < u.len() implies true_of(#[trigger] u[k], after) by {
        if u[k].id != id {
            assert(u[k] == v[k]);
            assert(true_of(v[k], rows));
            law_insert_is_found(rows, e, u[k].id);
        } else if k < v.len() && v[k].id == id {
            assert(true_of(v[k], rows));
        }
    }
}

/// A new status keeps what is shown true, where the download is shown with it and else as before.
pub proof fn law_status_keeps_the_window_true(
    v: Seq<ProgressView>,
    rows: Seq<EntryView>,
    id: Seq<char>,
    status: DownloadStatus,
)
    requires
        distinct_ids(rows),
        agrees(v, rows),
    ensures
        agrees(changed(v, id, halted(status)), with_status(rows, id, status)),
        agrees(
            changed(v, id, fetching()),
            with_status(rows, id, DownloadStatus::Downloading),
        ),
{
    lemma_status_stays_true(v, rows, id, status, halted(status));
    lemma_status_stays_true(v, rows, id, DownloadStatus::Downloading, fetching());
}

proof fn lemma_status_stays_true(
    v: Seq<ProgressView>,
    rows: Seq<EntryView>,
    id: Seq<char>,
    status: DownloadStatus,
    f: spec_fn(ProgressView) -> ProgressView,
)
    requires
        distinct_ids(rows),
        agrees(v, rows),
        f == halted(status) || (f == fetching() && status == DownloadStatus::Downloading),
    ensures
        agrees(changed(v, id, f), with_status(rows, id, status)),
{
    let u = changed(v, id, f);
    let after = with_status(rows, id, status);
    assert forall|k: int| 0 <= k < u.len() implies true_of(#[trigger] u[k], after) by {
        assert(true_of(v[k], rows));
        if let Some(e) = entry_with(rows, id) {
            let m = place_of(rows, id);
            assert(is_at(rows, id, m));
            let g = EntryView { status, ..e };
            assert(g.id == id);
            law_insert_is_found(rows, g, v[k].id);
        }
    }
}

/// The size and the speed of a download are not part of the queue: they leave what is shown true.
pub proof fn law_progress_keeps_the_window_true(
    v: Seq<ProgressView>,
    rows: Seq<EntryView>,
    id: Seq<char>,
    total: u64,
    now: u64,
    last: u64,
)
    requires
        agrees(v, rows),
    ensures
        agrees(changed(v, id, sized(total)), rows),
        agrees(changed(v, id, ticked(now, last)), rows),
{
    let a = changed(v, id, sized(total));
    let b = changed(v, id, ticked(now, last));
    assert forall|k: int| 0 <= k < a.len() implies true_of(#[trigger] a[k], rows) by {
        assert(true_of(v[k], rows));
    }
    assert forall|k: int| 0 <= k < b.len() implies true_of(#[trigger] b[k], rows) by {
        assert(true_of(v[k], rows));
    }
}

/// Once a download was removed it is shown no more, and the rest stays true.
pub proof fn law_removing_keeps_the_window_true(
    v: Seq<ProgressView>,
    rows: Seq<EntryView>,
    id: Seq<char>,
)
    requires
        distinct_ids(rows),
        agrees(v, rows),
    ensures
        agrees(without(v, id), removed(rows, id)),
        !shows(without(v, id), id),
{
    let keep = |p: ProgressView| p.id != id;
    let u = without(v, id);
    let after = removed(rows, id);
    assert forall|k: int| 0 <= k < u.len() implies (#[trigger] u[k]).id != id && true_of(
        u[k],
        after,
    ) by {
        v.lemma_filter_pred(keep, k);
        assert(u.contains(u[k]));
        v.lemma_filter_contains_rev(keep, u[k]);
        let a = choose|a: int| 0 <= a < v.len() && v[a] == u[k];
        assert(true_of(v[a], rows));
        law_removed_is_gone(rows, id, u[k].id);
    }
}

/// News about a download changes what it is about in the row of that download, and nothing else there
/// or in any other row.
pub proof fn law_news_changes_one_row(
    v: Seq<ProgressView>,
    k: int,
    id: Seq<char>,
    status: DownloadStatus,
    total: u64,
    now: u64,
    last: u64,
)
    requires
        0 <= k < v.len(),
        now - last <= u64::MAX / 2,
    ensures
        ({
            let a = changed(v, id, halted(status));
            let b = changed(v, id, fetching());
            let c = changed(v, id, sized(total));
            let d = changed(v, id, ticked(now, last));
            &&& a.len() == v.len() && b.len() == v.len() && c.len() == v.len() && d.len() == v.len()
            &&& v[k].id != id ==> a[k] == v[k] && b[k] == v[k] && c[k] == v[k] && d[k] == v[k]
            &&& v[k].id == id ==> {
                &&& a[k].status == status && a[k].speed == 0 && a[k].downloaded == v[k].downloaded
                    && a[k].total == v[k].total
                &&& b[k].status == DownloadStatus::Downloading && b[k].speed == v[k].speed
                    && b[k].downloaded == v[k].downloaded && b[k].total == v[k].total
                &&& c[k].status == v[k].status && c[k].speed == v[k].speed && c[k].downloaded
                    == v[k].downloaded && c[k].total == total
                &&& d[k].status == v[k].status && d[k].downloaded == now && d[k].total == v[k].total
                &&& now >= last ==> d[k].speed == 2 * (now - last)
                &&& now < last ==> d[k].speed == 0
                &&& a[k].id == id && b[k].id == id && c[k].id == id && d[k].id == id
                &&& a[k].url == v[k].url && b[k].url == v[k].url && c[k].url == v[k].url && d[k].url
                    == v[k].url
                &&& a[k].target_path == v[k].target_path && b[k].target_path == v[k].target_path
                    && c[k].target_path == v[k].target_path && d[k].target_path == v[k].target_path
            }
        }),
{
}

/// A download that is shown takes the row of the one that had its id, or the last one; one that is
/// forgotten leaves no gap, and the others stay in order.
pub proof fn law_rows_stay_in_order(v: Seq<ProgressView>, p: ProgressView, k: int)
    requires
        distinct_rows(v),
        0 <= k < v.len(),
    ensures
        v[k].id == p.id ==> put(v, p) == v.take(k) + seq![p] + v.skip(k + 1) && without(v, p.id)
            == v.take(k) + v.skip(k + 1),
        (forall|j: int| 0 <= j < v.len() ==> (#[trigger] v[j]).id != p.id) ==> put(v, p) == v.push(p)
            && without(v, p.id) == v,
{
    let f = |q: ProgressView| p;
    if v[k].id == p.id {
        assert(shows(v, p.id));
        lemma_changed_at(v, p.id, f, k);
        lemma_without_at(v, p.id, k);
        assert(v.update(k, p) =~= v.take(k) + seq![p] + v.skip(k + 1));
        assert(v.remove(k) =~= v.take(k) + v.skip(k + 1));
    }
    if forall|j: int| 0 <= j < v.len() ==> (#[trigger] v[j]).id != p.id {
        lemma_changed_nowhere(v, p.id, f);
    }
}

/// When a window opens, a download that is complete shows one byte of one, and any other none of none;
/// so does a new one.
pub proof fn law_only_complete_downloads_open_full(e: EntryView)
    ensures
        opened(e).id == e.id && opened(e).url == e.url && opened(e).target_path == e.target_path
            && opened(e).status == e.status && opened(e).speed == 0,
        e.status == DownloadStatus::Completed ==> opened(e).downloaded == 1 && opened(e).total == 1,
        e.status != DownloadStatus::Completed ==> opened(e).downloaded == 0 && opened(e).total == 0,
        e.status == DownloadStatus::Pending ==> opened(e) == fresh(e.id, e.url, e.target_path),
{
}

/// To set a status in the queue changes the status of that download, and nothing where none has the id.
pub proof fn law_set_status_stays_in_place(
    rows: Seq<EntryView>,
    id: Seq<char>,
    status: DownloadStatus,
    k: int,
)
    requires
        distinct_ids(rows),
        0 <= k < rows.len(),
    ensures
        with_status(rows, id, status).len() == rows.len(),
        rows[k].id == id ==> with_status(rows, id, status)[k] == (EntryView { status, ..rows[k] }),
        rows[k].id != id ==> with_status(rows, id, status)[k] == rows[k],
{
    crate::download_registry::entries::law_lookup_goes_by_id(rows, id, k);
    if has_id(rows, id) {
        let m = place_of(rows, id);
        assert(is_at(rows, id, m));
        crate::download_registry::entries::law_lookup_goes_by_id(rows, id, m);
        let e = EntryView { status, ..rows[m] };
        crate::download_registry::json::law_insert_keeps_places(rows, e, k);
        crate::download_registry::json::law_insert_keeps_places(rows, e, m);
        if rows[k].id == id {
            if k < m {
                assert(rows[k].id != rows[m].id);
            } else if m < k {
                assert(rows[m].id != rows[k].id);
            }
        }
    }
}

/// A download that ended well is complete, and any other has failed.
pub proof fn law_ends_are_told_apart(well: bool)
    ensures
        end_status(well) == DownloadStatus::Completed <==> well,
        end_status(well) == DownloadStatus::Error <==> !well,
{
}

} // verus!
