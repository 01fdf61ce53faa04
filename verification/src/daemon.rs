//! The local daemon: what it answers to each request.

use crate::download_registry::entries::{
    RegistryError, by_priority, entry_views, entry_with, has_id,
};
use crate::download_registry::json::inserted;
use crate::download_registry::registry::{Registry, added, id_text};
use crate::number;
use crate::text;
use crate::types::{
    DownloadEntry, DownloadStatus, EntryView, http_entry, label_of, opt_text, status_name,
};
use vstd::prelude::*;

verus! {

/// The request was carried out.
pub const OK: u16 = 200;

/// The request was taken on and is carried out later.
pub const ACCEPTED: u16 = 202;

/// The request cannot be carried out as it stands.
pub const BAD_REQUEST: u16 = 400;

/// What the request is about does not exist.
pub const NOT_FOUND: u16 = 404;

/// The request stands against what goes on.
pub const CONFLICT: u16 = 409;

/// Where a download goes that was given no path.
pub open spec fn default_output() -> Seq<char> {
    "download.bin"@
}

/// The address under which the daemon listens: on this machine alone.
pub fn listen_address(port: u16) -> (res: String)
    ensures
        res@ == "127.0.0.1:"@ + number::decimal(port as nat),
{
    let mut out = "127.0.0.1:".to_owned();
    out.append(text::string_of(&number::to_decimal(port as u128)).as_str());
    out
}

/// What is answered to the question how the daemon is.
pub fn health() -> (res: &'static str)
    ensures
        res@ == "ok"@,
{
    "ok"
}

/// What is shown of a download.
#[derive(Debug)]
pub struct DownloadSummary {
    pub id: String,
    pub url: String,
    pub status: String,
    pub category: String,
}

/// The content of a `DownloadSummary`.
pub struct SummaryView {
    pub id: Seq<char>,
    pub url: Seq<char>,
    pub status: Seq<char>,
    pub category: Seq<char>,
}

impl View for DownloadSummary {
    type V = SummaryView;

    open spec fn view(&self) -> SummaryView {
        SummaryView {
            id: self.id@,
            url: self.url@,
            status: self.status@,
            category: self.category@,
        }
    }
}

/// What is shown of a download.
pub open spec fn summary_of(e: EntryView) -> SummaryView {
    SummaryView {
        id: e.id,
        url: e.url,
        status: status_name(e.status),
        category: label_of(e.category),
    }
}

/// What some summaries show.
pub open spec fn summary_views(v: Seq<DownloadSummary>) -> Seq<SummaryView> {
    v.map_values(|s: DownloadSummary| s@)
}

/// Shows some downloads.
pub fn summaries(entries: &Vec<DownloadEntry>) -> (res: Vec<DownloadSummary>)
    ensures
        summary_views(res@) == entry_views(entries@).map_values(|e: EntryView| summary_of(e)),
        res@.len() == entries@.len(),
        forall|i: int|
            0 <= i < res@.len() ==> (#[trigger] res@[i]).id@ == entries@[i].id@ && res@[i].url@
                == entries@[i].url@ && res@[i].status@ == status_name(entries@[i].status)
                && res@[i].category@ == label_of(entries@[i].category),
{
    let mut out: Vec<DownloadSummary> = Vec::new();
    let ghost all = entry_views(entries@);
    let ghost show = |e: EntryView| summary_of(e);
    let mut i: usize = 0;
    proof {
        assert(summary_views(out@) =~= all.take(0).map_values(show));
    }
    while i < entries.len()
        invariant
            i <= entries@.len(),
            all == entry_views(entries@),
            show == (|e: EntryView| summary_of(e)),
            summary_views(out@) == all.take(i as int).map_values(show),
        decreases entries@.len() - i,
    {
        let ghost before = summary_views(out@);
        out.push(
            DownloadSummary {
                id: entries[i].id.clone(),
                url: entries[i].url.clone(),
                status: entries[i].status.name().to_owned(),
                category: entries[i].category.label().to_owned(),
            },
        );
        proof {
            let e = entries@[i as int]@;
            assert(all[i as int] == e);
            assert(summary_views(out@) =~= before.push(summary_of(e)));
            assert(summary_views(out@) =~= all.take(i + 1).map_values(show));
        }
        i = i + 1;
    }
    proof {
        assert(all.take(i as int) =~= all);
        assert(summary_views(out@).len() == all.len());
        assert forall|k: int| 0 <= k < out@.len() implies (#[trigger] out@[k])@ == summary_of(
            entries@[k]@,
        ) by {
            assert(summary_views(out@)[k] == out@[k]@);
            assert(all[k] == entries@[k]@);
        }
    }
    out
}

/// Lists all downloads.
pub fn list_downloads(registry: &Registry) -> (res: Vec<DownloadSummary>)
    ensures
        summary_views(res@) == by_priority(registry@).map_values(|e: EntryView| summary_of(e)),
{
    summaries(&registry.list())
}

/// The path that a download is given.
pub open spec fn output_or_default(output: Option<Seq<char>>) -> Seq<char> {
    match output {
        Some(p) => p,
        None => default_output(),
    }
}

/// What is answered once a download was added or not: its id, or that the request is bad.
pub fn answer_added(added: Result<String, RegistryError>) -> (res: Result<String, u16>)
    ensures
        match added {
            Ok(id) => res matches Ok(r) && r@ == id@,
            Err(e) => res == Err::<String, u16>(BAD_REQUEST),
        },
        res is Err ==> res->Err_0 == 400,
{
    match added {
        Ok(id) => Ok(id),
        Err(_) => Err(BAD_REQUEST),
    }
}

/// Adds a download under the present second as its id. The id is answered, or that the request is
/// bad: the clock stands before 1970, or its second is taken.
pub fn add_download(registry: &mut Registry, url: String, output: Option<String>) -> (res: Result<
    String,
    u16,
>)
    requires
        old(registry).wf(),
    ensures
        final(registry).wf(),
        final(registry).inner.settings == old(registry).inner.settings,
        match res {
            Ok(id) => added(
                old(registry)@,
                final(registry)@,
                Ok(id@),
                |id: Seq<char>| http_entry(id, url@, output_or_default(opt_text(output))),
            ),
            Err(status) => status == BAD_REQUEST && exists|e: RegistryError|
                added(
                    old(registry)@,
                    final(registry)@,
                    Err(e),
                    |id: Seq<char>| http_entry(id, url@, output_or_default(opt_text(output))),
                ),
        },
{
    let path: String = match output {
        Some(p) => p,
        None => "download.bin".to_owned(),
    };
    let ghost before = registry@;
    let under = registry.add(url, path);
    proof {
        let entry = |id: Seq<char>| http_entry(id, url@, output_or_default(opt_text(output)));
        assert(added(before, registry@, id_text(under), entry));
    }
    answer_added(under)
}

/// Pauses a download.
pub fn pause_download(registry: &mut Registry, id: &str) -> (res: u16)
    requires
        old(registry).wf(),
    ensures
        final(registry).wf(),
        final(registry).inner.settings == old(registry).inner.settings,
        match entry_with(old(registry)@, id@) {
            Some(e) => res == OK && final(registry)@ == inserted(
                old(registry)@,
                EntryView { status: DownloadStatus::Paused, ..e },
            ),
            None => res == NOT_FOUND && final(registry)@ == old(registry)@,
        },
        res == if has_id(old(registry)@, id@) {
            200u16
        } else {
            404u16
        },
{
    match registry.update_status(id, DownloadStatus::Paused) {
        Ok(()) => OK,
        Err(_) => NOT_FOUND,
    }
}

/// Whether the queue is being run.
#[derive(Debug, Clone, Copy, PartialEq, Eq, Structural)]
pub struct Runs {
    pub running: bool,
}

impl Runs {
    /// The queue is not being run.
    pub fn new() -> (res: Self)
        ensures
            !res.running,
    {
        Runs { running: false }
    }

    /// Asks for a run of the queue: it is started exactly where it is accepted.
    pub fn request(&mut self) -> (res: u16)
        ensures
            final(self).running,
            res == if old(self).running {
                CONFLICT
            } else {
                ACCEPTED
            },
            res == 409 <==> old(self).running,
            res == 202 <==> !old(self).running,
    {
        if self.running {
            return CONFLICT;
        }
        self.running = true;
        ACCEPTED
    }

    /// The run has ended, well or not.
    pub fn finished(&mut self)
        ensures
            !final(self).running,
    {
        self.running = false;
    }
}

/// A path that was given is taken as it is; without one the download goes to `download.bin`.
pub proof fn law_given_paths_are_taken(p: Seq<char>)
    ensures
        output_or_default(Some(p)) == p,
        output_or_default(None) == "download.bin"@,
{
}

/// The list shows every download of the queue, those with higher priority first.
pub proof fn law_all_downloads_are_shown(rows: Seq<EntryView>, e: EntryView)
    ensures
        ({
            let shown = by_priority(rows).map_values(|e: EntryView| summary_of(e));
            &&& shown.len() == rows.len()
            &&& rows.contains(e) ==> shown.contains(
                SummaryView {
                    id: e.id,
                    url: e.url,
                    status: status_name(e.status),
                    category: label_of(e.category),
                },
            )
        }),
{
    let r = by_priority(rows);
    let shown = r.map_values(|e: EntryView| summary_of(e));
    crate::download_registry::entries::law_priority_order(rows);
    crate::download_registry::entries::law_equal_priorities_keep_their_order(rows, 0);
    if rows.contains(e) {
        assert(r.contains(e));
        let i = choose|i: int| 0 <= i < r.len() && r[i] == e;
        assert(shown[i] == summary_of(e));
    }
}

} // verus!
