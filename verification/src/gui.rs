//! The window with the queue: categories, search, and what the buttons do.

use crate::cli::{file_of_url, target_path};
use crate::download_registry::entries::{entry_views, find, has_id};
use crate::number;
use crate::scan;
use crate::text;
use crate::types::{DownloadCategory, DownloadEntry, EntryView, opt_text};
use crate::ui::tui::{refresh_due, run_message, run_text};
use vstd::prelude::*;

verus! {

/// What was asked of the queue and is not answered yet.
#[derive(Debug, Clone, Copy, PartialEq, Eq, Structural)]
pub enum Action {
    Add,
    Remove,
    Pause,
    Resume,
    Retry,
    Clean,
}

/// What the queue answered; an error comes as its text.
#[derive(Debug)]
pub enum Outcome {
    /// The id of the new download.
    Added(Result<String, String>),
    Removed(Result<(), String>),
    /// A download was paused, resumed or retried.
    Updated(Result<(), String>),
    /// How many downloads were removed.
    Cleaned(Result<usize, String>),
}

/// The window.
#[derive(Debug)]
pub struct WarpApp {
    pub selected_category: Option<DownloadCategory>,
    pub search: String,
    pub add_url: String,
    pub add_output: String,
    pub selected_id: Option<String>,
    pub entries: Vec<DownloadEntry>,
    pub max_workers: usize,
    pub status_message: String,
    pub needs_refresh: bool,
    pub settings_loaded: bool,
    pub list_pending: bool,
    pub run_pending: bool,
    pub settings_pending: bool,
    pub action_pending: Option<Action>,
}

/// The content of a `WarpApp`.
pub struct WindowView {
    pub selected_category: Option<DownloadCategory>,
    pub search: Seq<char>,
    pub add_url: Seq<char>,
    pub add_output: Seq<char>,
    pub selected_id: Option<Seq<char>>,
    pub entries: Seq<EntryView>,
    pub max_workers: usize,
    pub status_message: Seq<char>,
    pub needs_refresh: bool,
    pub settings_loaded: bool,
    pub list_pending: bool,
    pub run_pending: bool,
    pub settings_pending: bool,
    pub action_pending: Option<Action>,
}

impl View for WarpApp {
    type V = WindowView;

    open spec fn view(&self) -> WindowView {
        WindowView {
            selected_category: self.selected_category,
            search: self.search@,
            add_url: self.add_url@,
            add_output: self.add_output@,
            selected_id: opt_text(self.selected_id),
            entries: entry_views(self.entries@),
            max_workers: self.max_workers,
            status_message: self.status_message@,
            needs_refresh: self.needs_refresh,
            settings_loaded: self.settings_loaded,
            list_pending: self.list_pending,
            run_pending: self.run_pending,
            settings_pending: self.settings_pending,
            action_pending: self.action_pending,
        }
    }
}

/// The window when it opens.
pub open spec fn opened() -> WindowView {
    WindowView {
        selected_category: None,
        search: Seq::empty(),
        add_url: Seq::empty(),
        add_output: Seq::empty(),
        selected_id: None,
        entries: Seq::empty(),
        max_workers: 32,
        status_message: Seq::empty(),
        needs_refresh: true,
        settings_loaded: false,
        list_pending: false,
        run_pending: false,
        settings_pending: false,
        action_pending: None,
    }
}

/// Seconds after which the downloads are asked for again.
pub const REFRESH_SECS: u64 = 2;

/// The selection once a list came: it is dropped where its download is not in the list.
pub open spec fn kept_selection(selected: Option<Seq<char>>, entries: Seq<EntryView>) -> Option<
    Seq<char>,
> {
    match selected {
        Some(id) => if has_id(entries, id) {
            Some(id)
        } else {
            None
        },
        None => None,
    }
}

/// The message about what the queue answered.
pub open spec fn outcome_message(o: Outcome) -> Seq<char> {
    match o {
        Outcome::Added(Ok(id)) => "Added download "@ + id@,
        Outcome::Added(Err(e)) => "Add failed: "@ + e@,
        Outcome::Removed(Ok(u)) => "Removed download."@,
        Outcome::Removed(Err(e)) => "Remove failed: "@ + e@,
        Outcome::Updated(Ok(u)) => "Updated."@,
        Outcome::Updated(Err(e)) => "Action failed: "@ + e@,
        Outcome::Cleaned(Ok(n)) => "Cleaned "@ + number::decimal(n as nat)
            + " completed download(s)."@,
        Outcome::Cleaned(Err(e)) => "Clean failed: "@ + e@,
    }
}

/// The URL and the path of the download that was typed; nothing where no URL was.
pub open spec fn typed_download(url: Seq<char>, output: Seq<char>) -> Option<
    (Seq<char>, Seq<char>),
> {
    let u = scan::trim_of(url);
    let o = scan::trim_of(output);
    if u.len() == 0 {
        None
    } else if o.len() == 0 {
        Some((u, file_of_url(u)))
    } else {
        Some((u, o))
    }
}

fn joined(head: &str, tail: &str) -> (res: String)
    ensures
        res@ == head@ + tail@,
{
    let mut out = head.to_owned();
    out.append(tail);
    out
}

/// The message about what the queue answered.
pub fn outcome_text(o: &Outcome) -> (res: String)
    ensures
        res@ == outcome_message(*o),
{
    match o {
        Outcome::Added(Ok(id)) => joined("Added download ", id.as_str()),
        Outcome::Added(Err(e)) => joined("Add failed: ", e.as_str()),
        Outcome::Removed(Ok(_)) => "Removed download.".to_owned(),
        Outcome::Removed(Err(e)) => joined("Remove failed: ", e.as_str()),
        Outcome::Updated(Ok(_)) => "Updated.".to_owned(),
        Outcome::Updated(Err(e)) => joined("Action failed: ", e.as_str()),
        Outcome::Cleaned(Ok(n)) => {
            let mut out = joined(
                "Cleaned ",
                text::string_of(&number::to_decimal(*n as u128)).as_str(),
            );
            out.append(" completed download(s).");
            out
        },
        Outcome::Cleaned(Err(e)) => joined("Clean failed: ", e.as_str()),
    }
}

impl WarpApp {
    /// The window when it opens.
    pub fn new() -> (res: Self)
        ensures
            res@ == opened(),
    {
        let res = WarpApp {
            selected_category: None,
            search: String::new(),
            add_url: String::new(),
            add_output: String::new(),
            selected_id: None,
            entries: Vec::new(),
            max_workers: 32,
            status_message: String::new(),
            needs_refresh: true,
            settings_loaded: false,
            list_pending: false,
            run_pending: false,
            settings_pending: false,
            action_pending: None,
        };
        proof {
            assert(res@.entries =~= Seq::empty());
            assert(res@.search =~= Seq::empty());
            assert(res@.add_url =~= Seq::empty());
            assert(res@.add_output =~= Seq::empty());
            assert(res@.status_message =~= Seq::empty());
        }
        res
    }

    /// Takes in the downloads that were asked for.
    pub fn on_list(&mut self, entries: Vec<DownloadEntry>)
        ensures
            final(self)@ == (WindowView {
                entries: entry_views(entries@),
                selected_id: kept_selection(old(self)@.selected_id, entry_views(entries@)),
                list_pending: false,
                ..old(self)@
            }),
    {
        let gone: bool = match &self.selected_id {
            Some(id) => find(&entries, id.as_str()).is_none(),
            None => false,
        };
        if gone {
            self.selected_id = None;
        }
        self.entries = entries;
        self.list_pending = false;
    }

    /// Takes in that a run of the queue has ended: well, or with an error.
    pub fn on_run(&mut self, error: Option<String>)
        ensures
            final(self)@ == (WindowView {
                status_message: run_message(opt_text(error)),
                needs_refresh: true,
                run_pending: false,
                ..old(self)@
            }),
    {
        self.status_message = run_text(error);
        self.needs_refresh = true;
        self.run_pending = false;
    }

    /// Whether the settings are to be asked for: they did not come and were not asked for.
    pub fn request_settings(&mut self) -> (res: bool)
        ensures
            res == (!old(self)@.settings_loaded && !old(self)@.settings_pending),
            final(self)@ == (WindowView {
                settings_pending: old(self)@.settings_pending || res,
                ..old(self)@
            }),
    {
        if !self.settings_loaded && !self.settings_pending {
            self.settings_pending = true;
            return true;
        }
        false
    }

    /// Takes in the settings that were asked for.
    pub fn on_settings(&mut self, max_workers: usize)
        ensures
            final(self)@ == (WindowView {
                max_workers,
                settings_loaded: true,
                settings_pending: false,
                ..old(self)@
            }),
    {
        self.max_workers = max_workers;
        self.settings_loaded = true;
        self.settings_pending = false;
    }

    /// Takes in what the queue answered.
    pub fn on_action(&mut self, outcome: Outcome)
        ensures
            final(self)@ == (WindowView {
                status_message: outcome_message(outcome),
                selected_id: if outcome is Removed {
                    None
                } else {
                    old(self)@.selected_id
                },
                action_pending: None,
                needs_refresh: true,
                ..old(self)@
            }),
    {
        self.status_message = outcome_text(&outcome);
        if let Outcome::Removed(_) = outcome {
            self.selected_id = None;
        }
        self.action_pending = None;
        self.needs_refresh = true;
    }

    /// Adds the download that was typed: its URL and path are given back, and the fields are emptied.
    /// Where no URL was typed, the window asks for one.
    pub fn add_download(&mut self) -> (res: Option<(String, String)>)
        ensures
            match typed_download(old(self)@.add_url, old(self)@.add_output) {
                Some(d) => (res matches Some(r) && (r.0@, r.1@) == d) && final(self)@ == (
                WindowView {
                    action_pending: Some(Action::Add),
                    add_url: Seq::empty(),
                    add_output: Seq::empty(),
                    ..old(self)@
                }),
                None => res is None && final(self)@ == (WindowView {
                    status_message: "Enter a URL first."@,
                    ..old(self)@
                }),
            },
    {
        let url = scan::trim(&text::chars_of(self.add_url.as_str()));
        if url.len() == 0 {
            self.status_message = "Enter a URL first.".to_owned();
            return None;
        }
        let output = scan::trim(&text::chars_of(self.add_output.as_str()));
        let url_text = text::string_of(&url);
        let path: String = if output.len() == 0 {
            target_path(url_text.as_str(), None)
        } else {
            text::string_of(&output)
        };
        self.action_pending = Some(Action::Add);
        self.add_url = String::new();
        self.add_output = String::new();
        proof {
            assert(self@.add_url =~= Seq::empty());
            assert(self@.add_output =~= Seq::empty());
        }
        Some((url_text, path))
    }

    /// Shows the downloads of another category; all of them where none is given.
    pub fn choose_category(&mut self, category: Option<DownloadCategory>)
        ensures
            final(self)@ == (WindowView {
                selected_category: category,
                needs_refresh: true,
                ..old(self)@
            }),
    {
        self.selected_category = category;
        self.needs_refresh = true;
    }

    /// Whether a run of the queue is to be started: not while one goes on.
    pub fn request_run(&mut self) -> (res: bool)
        ensures
            res == !old(self)@.run_pending,
            final(self)@ == if res {
                WindowView {
                    run_pending: true,
                    status_message: "Running queue…"@,
                    ..old(self)@
                }
            } else {
                old(self)@
            },
    {
        if self.run_pending {
            return false;
        }
        self.run_pending = true;
        self.status_message = "Running queue…".to_owned();
        true
    }

    /// Whether something is to be asked of the queue: not while an answer is awaited.
    pub fn request_action(&mut self, action: Action) -> (res: bool)
        ensures
            res == (old(self)@.action_pending is None),
            final(self)@ == if res {
                WindowView { action_pending: Some(action), ..old(self)@ }
            } else {
                old(self)@
            },
    {
        if self.action_pending.is_some() {
            return false;
        }
        self.action_pending = Some(action);
        true
    }

    /// Whether the downloads are to be asked for, `elapsed` seconds after they came last.
    pub fn refresh(&mut self, elapsed: u64) -> (res: bool)
        ensures
            res == refresh_due(
                old(self)@.needs_refresh,
                old(self)@.list_pending,
                elapsed as int,
                REFRESH_SECS as int,
            ),
            final(self)@ == (WindowView {
                list_pending: old(self)@.list_pending || res,
                needs_refresh: old(self)@.needs_refresh && !res,
                ..old(self)@
            }),
    {
        if self.list_pending {
            return false;
        }
        if self.needs_refresh {
            self.needs_refresh = false;
            self.list_pending = true;
            return true;
        }
        if elapsed >= REFRESH_SECS {
            self.list_pending = true;
            return true;
        }
        false
    }
}

/// The selection that is kept is a download of the list.
pub proof fn law_selection_is_listed(selected: Option<Seq<char>>, entries: Seq<EntryView>)
    ensures
        kept_selection(selected, entries) matches Some(id) ==> has_id(entries, id) && selected
            == Some(id),
{
}

/// A download is added with a URL and a path that are not blank, but for a URL that ends in a slash
/// or whose last part begins with a question mark.
pub proof fn law_typed_downloads_have_a_url(url: Seq<char>, output: Seq<char>)
    ensures
        typed_download(url, output) matches Some(d) ==> d.0.len() > 0 && (d.1.len() > 0
            || file_of_url(d.0).len() == 0),
{
}

/// White space around what was typed does not count. The path that was typed is taken, or else the file
/// that the URL is named after; without a URL nothing is added.
pub proof fn law_typed_downloads_are_trimmed(
    before: Seq<char>,
    url: Seq<char>,
    behind: Seq<char>,
    path: Seq<char>,
)
    requires
        forall|i: int| 0 <= i < before.len() ==> scan::is_space(#[trigger] before[i]),
        forall|i: int| 0 <= i < behind.len() ==> scan::is_space(#[trigger] behind[i]),
        url.len() > 0 ==> !scan::is_space(url[0]) && !scan::is_space(url.last()),
        path.len() > 0 ==> !scan::is_space(path[0]) && !scan::is_space(path.last()),
    ensures
        ({
            let typed = typed_download(before + url + behind, before + path + behind);
            &&& url.len() == 0 ==> typed is None
            &&& url.len() > 0 && path.len() > 0 ==> typed == Some((url, path))
            &&& url.len() > 0 && path.len() == 0 ==> typed == Some(
                (url, crate::cli::target_of(url, None)),
            )
        }),
{
    scan::law_trim_takes_white_space_off(before, url, behind);
    scan::law_trim_takes_white_space_off(before, path, behind);
}

/// A selected download stays selected as long as the list holds it.
pub proof fn law_listed_selections_stay(id: Seq<char>, entries: Seq<EntryView>, k: int)
    requires
        0 <= k < entries.len(),
    ensures
        entries[k].id == id ==> kept_selection(Some(id), entries) == Some(id),
        (forall|j: int| 0 <= j < entries.len() ==> (#[trigger] entries[j]).id != id)
            ==> kept_selection(Some(id), entries) is None,
{
    if entries[k].id == id && !has_id(entries, id) {
        crate::download_registry::entries::lemma_absent(entries, id, entries.len() as int);
    }
    if has_id(entries, id) {
        let m = crate::download_registry::entries::place_of(entries, id);
        assert(crate::download_registry::entries::is_at(entries, id, m));
    }
}

/// What the queue answered is told with its id, its number or its reason, nothing of it left out.
pub proof fn law_answers_are_told(id: String, n: usize, reason: String)
    ensures
        outcome_message(Outcome::Added(Ok(id))) == "Added download "@ + id@,
        outcome_message(Outcome::Added(Err(reason))) == "Add failed: "@ + reason@,
        outcome_message(Outcome::Removed(Ok(()))) == "Removed download."@,
        outcome_message(Outcome::Removed(Err(reason))) == "Remove failed: "@ + reason@,
        outcome_message(Outcome::Updated(Ok(()))) == "Updated."@,
        outcome_message(Outcome::Updated(Err(reason))) == "Action failed: "@ + reason@,
        outcome_message(Outcome::Cleaned(Ok(n))) == "Cleaned "@ + number::decimal(n as nat)
            + " completed download(s)."@,
        outcome_message(Outcome::Cleaned(Err(reason))) == "Clean failed: "@ + reason@,
{
}

/// The downloads are asked for where something changed, or two seconds after they came, and never twice
/// at a time.
pub proof fn law_lists_are_renewed(needed: bool, pending: bool, elapsed: u64)
    ensures
        refresh_due(needed, pending, elapsed as int, REFRESH_SECS as int) <==> !pending && (needed
            || elapsed >= 2),
{
}

} // verus!
