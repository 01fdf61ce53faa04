//! Which downloads a run takes up, and in which order.

use crate::clock;
use crate::download_registry::entries::{
    RegistryError, by_priority, distinct_ids, entry_views, entry_with, has_id, is_at, place_of,
    sort_by_priority, unfinished,
};
use crate::download_registry::json::{inserted, law_insert_is_found, lemma_push_distinct};
use crate::download_registry::registry::Registry;
use crate::download_registry::repository::storable;
use crate::pipeline::executor::Outcome;
use crate::pipeline::scheduler;
use crate::types::{DownloadEntry, EntryView, opt_text};
use vstd::prelude::*;

verus! {

/// How many seconds pass between two looks at the queue.
pub const POLL_INTERVAL_SECS: u64 = 5;

/// A download may be taken up at an instant: it is not complete, and its schedule has come.
pub open spec fn is_due(e: EntryView, now: (i64, u32)) -> bool {
    unfinished(e) && scheduler::ready_at(scheduler::scheduled_instant(e.scheduled_at), now)
}

/// The downloads that are taken up at an instant, those with higher priority first.
pub open spec fn queue_at(v: Seq<EntryView>, now: (i64, u32)) -> Seq<EntryView> {
    by_priority(v.filter(|e: EntryView| is_due(e, now)))
}

/// Whether a download may be taken up at an instant.
fn due(entry: &DownloadEntry, now: (i64, u32)) -> (res: bool)
    ensures
        res == is_due(entry@, now),
{
    entry.status != crate::types::DownloadStatus::Completed && scheduler::is_ready_at(
        scheduler::entry_instant(entry),
        now,
    )
}

/// The downloads that are taken up at an instant, those with higher priority first.
pub fn pending_at(list: &Vec<DownloadEntry>, now: (i64, u32)) -> (res: Vec<DownloadEntry>)
    ensures
        entry_views(res@) == queue_at(entry_views(list@), now),
{
    let mut out: Vec<DownloadEntry> = Vec::new();
    let ghost all = entry_views(list@);
    let ghost keep = |e: EntryView| is_due(e, now);
    let mut i: usize = 0;
    proof {
        reveal(Seq::filter);
        assert(all.take(0) =~= Seq::empty());
        assert(entry_views(out@) =~= all.take(0).filter(keep));
    }
    while i < list.len()
        invariant
            i <= list@.len(),
            all == entry_views(list@),
            keep == (|e: EntryView| is_due(e, now)),
            entry_views(out@) == all.take(i as int).filter(keep),
        decreases list@.len() - i,
    {
        let ghost before = entry_views(out@);
        let hit = due(&list[i], now);
        if hit {
            out.push(list[i].clone());
        }
        proof {
            reveal(Seq::filter);
            assert(all[i as int] == list@[i as int]@);
            assert(all.take(i + 1).drop_last() =~= all.take(i as int));
            assert(all.take(i + 1).last() == all[i as int]);
            if hit {
                assert(entry_views(out@) =~= before.push(all[i as int]));
            }
        }
        i = i + 1;
    }
    proof {
        assert(all.take(i as int) =~= all);
    }
    sort_by_priority(&out)
}

/// The downloads that are taken up now, those with higher priority first.
pub fn pending_now(list: &Vec<DownloadEntry>) -> (res: Vec<DownloadEntry>)
    ensures
        exists|now: (i64, u32)|
            entry_views(res@) == #[trigger] queue_at(entry_views(list@), now),
{
    let now = clock::present();
    pending_at(list, now)
}

/// What a run does after a look at the queue.
#[derive(Debug, Clone, Copy, PartialEq, Eq, Structural)]
pub enum Round {
    /// There is nothing to do: look again in so many seconds.
    Idle(u64),
    /// Others do all there is to do: look again in so many seconds.
    Busy(u64),
    /// Wait for the downloads that were taken up.
    Collect,
}

/// What a run does after it found so many downloads and could claim so many of them.
pub fn after_look(found: usize, claimed: usize) -> (res: Round)
    requires
        claimed <= found,
    ensures
        res == if found == 0 {
            Round::Idle(POLL_INTERVAL_SECS)
        } else if claimed == 0 {
            Round::Busy(POLL_INTERVAL_SECS)
        } else {
            Round::Collect
        },
{
    if found == 0 {
        Round::Idle(POLL_INTERVAL_SECS)
    } else if claimed == 0 {
        Round::Busy(POLL_INTERVAL_SECS)
    } else {
        Round::Collect
    }
}

/// The queue after the outcome of a download was noted: its status, and why it failed where it did. A
/// download that cannot be stored keeps its old message.
pub open spec fn noted(
    rows: Seq<EntryView>,
    e: EntryView,
    status: crate::types::DownloadStatus,
    message: Option<Seq<char>>,
) -> Seq<EntryView> {
    match message {
        Some(m) => if storable(e) {
            inserted(rows, EntryView { status, error_message: Some(m), ..e })
        } else {
            inserted(rows, EntryView { status, ..e })
        },
        None => inserted(rows, EntryView { status, ..e }),
    }
}

/// Putting an entry under an id twice is putting the second one there.
proof fn lemma_inserted_twice(rows: Seq<EntryView>, a: EntryView, b: EntryView)
    requires
        distinct_ids(rows),
        a.id == b.id,
        entry_with(rows, a.id) is Some,
    ensures
        inserted(inserted(rows, a), b) == inserted(rows, b),
        distinct_ids(inserted(rows, a)),
{
    let k = place_of(rows, a.id);
    assert(is_at(rows, a.id, k));
    let u = rows.update(k, a);
    assert(is_at(u, a.id, k)) by {
        assert forall|j: int| 0 <= j < k implies (#[trigger] u[j]).id != a.id by {
            assert(rows[j].id != a.id);
        }
    }
    crate::download_registry::entries::lemma_place(u, a.id, k);
    crate::download_registry::json::lemma_update_distinct(rows, k, a);
    assert(u.update(k, b) =~= rows.update(k, b));
}

/// Notes the outcome of a download in the queue.
pub fn settle(registry: &mut Registry, id: &str, outcome: Outcome) -> (res: Result<
    (),
    RegistryError,
>)
    requires
        old(registry).wf(),
    ensures
        final(registry).wf(),
        final(registry).inner.settings == old(registry).inner.settings,
        match entry_with(old(registry)@, id@) {
            Some(e) => {
                &&& final(registry)@ == noted(
                    old(registry)@,
                    e,
                    outcome.status,
                    opt_text(outcome.error_message),
                )
                &&& res == if outcome.error_message is Some && !storable(e) {
                    Err::<(), RegistryError>(RegistryError::SpeedTooLarge)
                } else {
                    Ok(())
                }
            },
            None => res == Err::<(), RegistryError>(RegistryError::NotFound) && final(registry)@
                == old(registry)@,
        },
{
    let ghost before = registry@;
    match registry.update_status(id, outcome.status) {
        Ok(()) => {},
        Err(e) => {
            return Err(e);
        },
    }
    let ghost held = entry_with(before, id@)->0;
    let ghost first = EntryView { status: outcome.status, ..held };
    proof {
        let k = place_of(before, id@);
        assert(is_at(before, id@, k));
        law_insert_is_found(before, first, id@);
    }
    if let Some(message) = outcome.error_message {
        if let Some(entry) = registry.get(id) {
            let mut changed = entry;
            changed.error_message = Some(message);
            proof {
                lemma_inserted_twice(before, first, changed@);
            }
            return registry.update_entry(id, changed);
        }
    }
    Ok(())
}

/// A run takes up nothing but downloads of the queue that are not complete, those with higher
/// priority first, and leaves none out whose time has come.
pub proof fn law_run_takes_up_what_is_due(v: Seq<EntryView>, now: (i64, u32), e: EntryView)
    ensures
        queue_at(v, now).contains(e) <==> v.contains(e) && is_due(e, now),
        forall|i: int, j: int|
            0 <= i <= j < queue_at(v, now).len() ==> (#[trigger] queue_at(v, now)[i]).priority >= (
            #[trigger] queue_at(v, now)[j]).priority,
{
    let keep = |e: EntryView| is_due(e, now);
    let f = v.filter(keep);
    crate::download_registry::entries::law_priority_order(f);
    if f.contains(e) {
        let k = choose|k: int| 0 <= k < f.len() && f[k] == e;
        v.lemma_filter_pred(keep, k);
        v.lemma_filter_contains_rev(keep, e);
    }
    if v.contains(e) && is_due(e, now) {
        let k = choose|k: int| 0 <= k < v.len() && v[k] == e;
        v.lemma_filter_contains(keep, k);
    }
    assert(queue_at(v, now).contains(e) <==> f.contains(e));
}

/// To note how a download ended changes that download alone: it has the status, and the reason where
/// there is one that can be stored, and every other download is as it was.
pub proof fn law_noting_changes_one_download(
    rows: Seq<EntryView>,
    e: EntryView,
    status: crate::types::DownloadStatus,
    message: Option<Seq<char>>,
    other: Seq<char>,
)
    requires
        distinct_ids(rows),
        entry_with(rows, e.id) == Some(e),
    ensures
        ({
            let after = noted(rows, e, status, message);
            &&& entry_with(after, e.id) matches Some(f) && f.status == status && (message is Some
                && storable(e) ==> f.error_message == message)
            &&& other != e.id ==> entry_with(after, other) == entry_with(rows, other)
        }),
{
    law_insert_is_found(rows, EntryView { status, ..e }, other);
    if let Some(m) = message {
        law_insert_is_found(rows, EntryView { status, error_message: Some(m), ..e }, other);
    }
}

/// A download that is added while a run fetches another one is still there, as it was added, once the
/// run has noted how the other one ended.
pub proof fn law_a_run_loses_no_added_download(
    rows: Seq<EntryView>,
    fetched: EntryView,
    new: EntryView,
    status: crate::types::DownloadStatus,
    message: Option<Seq<char>>,
)
    requires
        distinct_ids(rows),
        entry_with(rows, fetched.id) == Some(fetched),
        !has_id(rows, new.id),
    ensures
        ({
            let after = noted(rows.push(new), fetched, status, message);
            &&& entry_with(after, new.id) == Some(new)
            &&& entry_with(after, fetched.id) matches Some(f) && f.status == status
        }),
{
    let grown = rows.push(new);
    assert(inserted(rows, new) == grown);
    law_insert_is_found(rows, new, fetched.id);
    lemma_push_distinct(rows, new);
    law_noting_changes_one_download(grown, fetched, status, message, new.id);
}

/// Every download of the queue that waits, runs, is paused or has failed is taken up once its schedule
/// has come, and at once where it has none or one that cannot be read. A complete one never is, and
/// one that is scheduled for later is not yet.
pub proof fn law_unfinished_downloads_are_taken_up(
    v: Seq<EntryView>,
    now: (i64, u32),
    e: EntryView,
    at: (i64, u32),
)
    requires
        v.contains(e),
    ensures
        ({
            let open = e.status == crate::types::DownloadStatus::Pending || e.status
                == crate::types::DownloadStatus::Downloading || e.status
                == crate::types::DownloadStatus::Paused || e.status
                == crate::types::DownloadStatus::Error;
            let read = match e.scheduled_at {
                Some(ts) => scheduler::rfc3339_instant(ts),
                None => None,
            };
            &&& open && read is None ==> queue_at(v, now).contains(e)
            &&& open && read == Some(at) && (at.0 < now.0 || at.0 == now.0 && at.1 <= now.1)
                ==> queue_at(v, now).contains(e)
            &&& read == Some(at) && (at.0 > now.0 || at.0 == now.0 && at.1 > now.1)
                ==> !queue_at(v, now).contains(e)
            &&& e.status == crate::types::DownloadStatus::Completed ==> !queue_at(
                v,
                now,
            ).contains(e)
        }),
{
    law_run_takes_up_what_is_due(v, now, e);
}

/// A run takes up each download once: of distinct downloads no two that it takes up are the same, and
/// of the same priority those come first that were added first.
pub proof fn law_queue_is_a_selection_in_order(v: Seq<EntryView>, now: (i64, u32), p: u8)
    requires
        distinct_ids(v),
    ensures
        distinct_ids(queue_at(v, now)),
        queue_at(v, now).len() <= v.len(),
        queue_at(v, now).filter(|e: EntryView| e.priority == p as int) == v.filter(
            |e: EntryView| is_due(e, now),
        ).filter(|e: EntryView| e.priority == p as int),
{
    let keep = |e: EntryView| is_due(e, now);
    crate::download_registry::json::lemma_filter_distinct(v, keep);
    crate::download_registry::entries::lemma_priority_keeps_distinct(v.filter(keep));
    crate::download_registry::entries::law_equal_priorities_keep_their_order(v.filter(keep), p);
}

/// To note how a download ended sets its status, and its message where there is one that can be
/// stored; the rest of it stays as it was.
pub proof fn law_noting_keeps_the_rest(
    rows: Seq<EntryView>,
    e: EntryView,
    status: crate::types::DownloadStatus,
    message: Option<Seq<char>>,
)
    requires
        distinct_ids(rows),
        entry_with(rows, e.id) == Some(e),
    ensures
        entry_with(noted(rows, e, status, message), e.id) == Some(
            EntryView {
                status,
                error_message: if message is Some && (e.max_speed_bytes is None
                    || e.max_speed_bytes->0 <= i64::MAX) {
                    message
                } else {
                    e.error_message
                },
                ..e
            },
        ),
{
    law_insert_is_found(rows, EntryView { status, ..e }, e.id);
    if let Some(m) = message {
        law_insert_is_found(rows, EntryView { status, error_message: Some(m), ..e }, e.id);
    }
}

} // verus!
