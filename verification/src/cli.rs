//! The commands of the program, and what they answer.

use crate::download::segment::is_success;
use crate::download_registry::entries::{
    RegistryError, advanced, by_priority, entry_views, entry_with, found, has_id, is_at,
    lemma_absent, lemma_place, unfinished,
};
use crate::download_registry::json::{inserted, removed};
use crate::download_registry::registry::{Registry, fresh_id};
use crate::download_registry::repository::{query, settings_of, storable};
use crate::metrics::{HostMetrics, HostView, host_views};
use crate::number;
use crate::path;
use crate::scan;
use crate::speed::{self, SpeedError, speed_of};
use crate::table::{self, padded, right_aligned, signed_decimal};
use crate::text;
use crate::types::{
    AppSettings, DownloadCategory, DownloadEntry, DownloadStatus, EntryView, SettingsView,
    http_entry, opt_text, status_name, texts,
};
use vstd::prelude::*;

verus! {

/// What was typed.
#[derive(Debug)]
pub struct Cli {
    pub command: Commands,
}

/// A command.
#[derive(Debug)]
pub enum Commands {
    /// Adds a download.
    Add {
        url: String,
        output: Option<String>,
        speed_limit: Option<String>,
        proxy: Option<String>,
        checksum: Option<String>,
        priority: u8,
    },
    /// Lists the downloads of a category that hold a text.
    List { category: Option<String>, search: Option<String> },
    /// Removes a download.
    Remove { id: String },
    /// Runs what waits.
    Run,
    /// Shows the snapshot of a download.
    Inspect { id: String },
    /// Pauses a download.
    Pause { id: String },
    /// Resumes a paused download.
    Resume { id: String },
    /// Retries a failed download.
    Retry { id: String },
    /// Removes the completed downloads.
    Clean,
    /// Opens the window.
    Gui,
    /// Opens the terminal interface.
    Tui,
    /// Runs the daemon.
    Serve { port: u16 },
    /// Shows what the hosts did.
    Stats,
    /// Shows or changes the settings.
    Config { global_speed_limit: Option<String>, max_workers: Option<usize> },
    /// Adds a stream.
    M3u8 { url: String, output: Option<String>, quality: String, concurrent: usize },
    /// Captures network requests.
    Intercept,
    /// Shows how requests are captured, on made-up ones.
    Example,
}

/// The name of the file that a URL leads to: what stands behind its last slash, without a query.
pub open spec fn file_of_url(url: Seq<char>) -> Seq<char> {
    text::before_first(text::after_last(url, '/'), '?')
}

/// Where a download goes: where it was told to, or else to the file that its URL leads to.
pub open spec fn target_of(url: Seq<char>, output: Option<Seq<char>>) -> Seq<char> {
    match output {
        Some(p) => p,
        None => file_of_url(url),
    }
}

/// Where a download goes.
pub fn target_path(url: &str, output: Option<String>) -> (res: String)
    ensures
        res@ == target_of(url@, opt_text(output)),
{
    match output {
        Some(p) => p,
        None => {
            let name = text::tail_after(&text::chars_of(url), '/');
            text::string_of(&text::head_before(&name, '?'))
        },
    }
}

/// The category that a word in lower case names.
pub open spec fn category_named(low: Seq<char>) -> Option<DownloadCategory> {
    if low == "video"@ {
        Some(DownloadCategory::Video)
    } else if low == "audio"@ {
        Some(DownloadCategory::Audio)
    } else if low == "archive"@ {
        Some(DownloadCategory::Archive)
    } else if low == "document"@ {
        Some(DownloadCategory::Document)
    } else if low == "image"@ {
        Some(DownloadCategory::Image)
    } else if low == "other"@ {
        Some(DownloadCategory::Other)
    } else {
        None
    }
}

/// The category that a word names; letter case does not count.
pub fn parse_category(input: &str) -> (res: Option<DownloadCategory>)
    ensures
        res == category_named(text::ascii_lower(input@)),
{
    let word = text::string_of(&text::to_ascii_lower(&text::chars_of(input)));
    let low = word.as_str();
    if text::eq(low, "video") {
        Some(DownloadCategory::Video)
    } else if text::eq(low, "audio") {
        Some(DownloadCategory::Audio)
    } else if text::eq(low, "archive") {
        Some(DownloadCategory::Archive)
    } else if text::eq(low, "document") {
        Some(DownloadCategory::Document)
    } else if text::eq(low, "image") {
        Some(DownloadCategory::Image)
    } else if text::eq(low, "other") {
        Some(DownloadCategory::Other)
    } else {
        None
    }
}

/// The label of a category names it.
pub proof fn law_labels_name_their_category(c: DownloadCategory)
    ensures
        category_named(text::ascii_lower(crate::types::label_of(c))) == Some(c),
{
    reveal_strlit("Other");
    reveal_strlit("Video");
    reveal_strlit("Audio");
    reveal_strlit("Archive");
    reveal_strlit("Document");
    reveal_strlit("Image");
    reveal_strlit("other");
    reveal_strlit("video");
    reveal_strlit("audio");
    reveal_strlit("archive");
    reveal_strlit("document");
    reveal_strlit("image");
    let low = text::ascii_lower(crate::types::label_of(c));
    match c {
        DownloadCategory::Other => {
            assert(low =~= "other"@);
            assert("other"@[1] != "video"@[1]);
            assert("other"@[1] != "audio"@[1]);
        },
        DownloadCategory::Video => {
            assert(low =~= "video"@);
        },
        DownloadCategory::Audio => {
            assert(low =~= "audio"@);
            assert("audio"@[0] != "video"@[0]);
        },
        DownloadCategory::Archive => {
            assert(low =~= "archive"@);
        },
        DownloadCategory::Document => {
            assert(low =~= "document"@);
        },
        DownloadCategory::Image => {
            assert(low =~= "image"@);
            assert("image"@[0] != "video"@[0]);
            assert("image"@[0] != "audio"@[0]);
        },
    }
}

/// Why a command failed.
#[derive(Debug, Clone, Copy, PartialEq, Eq, Structural)]
pub enum CliError {
    /// The server answered the request for the URL with this status.
    Refused(u16),
    /// The queue could not be changed.
    Registry(RegistryError),
    /// The speed limit cannot be read.
    Speed(SpeedError),
    /// No workers were asked for.
    NoWorkers,
}

/// The speed limit that was typed, where one was.
pub open spec fn typed_limit(limit: Option<Seq<char>>) -> Result<Option<u64>, SpeedError> {
    match limit {
        None => Ok(None),
        Some(s) => match speed_of(scan::unicode_upper(scan::trim_of(s))) {
            Ok(n) => Ok(Some(n)),
            Err(e) => Err(e),
        },
    }
}

fn read_limit(limit: &Option<String>) -> (res: Result<Option<u64>, SpeedError>)
    ensures
        res == typed_limit(opt_text(*limit)),
{
    match limit {
        None => Ok(None),
        Some(s) => match speed::parse_speed_limit(s.as_str()) {
            Ok(n) => Ok(Some(n)),
            Err(e) => Err(e),
        },
    }
}

/// What is typed about a download besides its URL and its path.
pub struct AddChoices {
    pub limit: Option<Seq<char>>,
    pub proxy: Option<Seq<char>>,
    pub checksum: Option<Seq<char>>,
    pub priority: u8,
}

/// The line that reports a new download.
pub open spec fn added_line(id: Seq<char>, target: Seq<char>) -> Seq<char> {
    "Added download "@ + id + " -> "@ + target
}

/// The queue after a download was added under an id, and what is answered. A URL that the server
/// refuses adds nothing; a limit that cannot be read or stored leaves the download without any of
/// its choices.
pub open spec fn add_outcome(
    rows: Seq<EntryView>,
    id: Seq<char>,
    url: Seq<char>,
    target: Seq<char>,
    choices: AddChoices,
    status: u16,
) -> (Seq<EntryView>, Result<Seq<char>, CliError>) {
    let plain = http_entry(id, url, target);
    if !is_success(status) {
        (rows, Err(CliError::Refused(status)))
    } else if has_id(rows, id) {
        (rows, Err(CliError::Registry(RegistryError::DuplicateId)))
    } else {
        match typed_limit(choices.limit) {
            Err(e) => (rows.push(plain), Err(CliError::Speed(e))),
            Ok(max) => {
                let changed = advanced(
                    plain,
                    Some(choices.priority),
                    choices.proxy,
                    choices.checksum,
                    max,
                );
                if !storable(changed) {
                    (
                        rows.push(plain),
                        Err(CliError::Registry(RegistryError::SpeedTooLarge)),
                    )
                } else {
                    (rows.push(changed), Ok(added_line(id, target)))
                }
            },
        }
    }
}

/// The text of an answer, or why there is none.
pub open spec fn answer(res: Result<String, CliError>) -> Result<Seq<char>, CliError> {
    match res {
        Ok(m) => Ok(m@),
        Err(e) => Err(e),
    }
}

/// An entry that was added last is found, and is replaced in its place.
proof fn lemma_last_entry(rows: Seq<EntryView>, e: EntryView, f: EntryView)
    requires
        !has_id(rows, e.id),
        f.id == e.id,
    ensures
        entry_with(rows.push(e), e.id) == Some(e),
        inserted(rows.push(e), f) == rows.push(f),
{
    let all = rows.push(e);
    let n = rows.len() as int;
    lemma_absent(rows, e.id, n);
    assert forall|j: int| 0 <= j < n implies (#[trigger] all[j]).id != e.id by {
        assert(all[j] == rows[j]);
    }
    assert(is_at(all, e.id, n));
    lemma_place(all, e.id, n);
    assert(all.update(n, f) =~= rows.push(f));
}

/// Adds a download under an id, once the server has answered a request for its URL with a status.
pub fn handle_add_as(
    id: String,
    url: String,
    output: Option<String>,
    speed_limit: Option<String>,
    proxy: Option<String>,
    checksum: Option<String>,
    priority: u8,
    status: u16,
    registry: &mut Registry,
) -> (res: Result<String, CliError>)
    requires
        old(registry).wf(),
    ensures
        final(registry).wf(),
        final(registry).inner.settings == old(registry).inner.settings,
        (final(registry)@, answer(res)) == add_outcome(
            old(registry)@,
            id@,
            url@,
            target_of(url@, opt_text(output)),
            (AddChoices {
                limit: opt_text(speed_limit),
                proxy: opt_text(proxy),
                checksum: opt_text(checksum),
                priority,
            }),
            status,
        ),
{
    if !(200 <= status && status < 300) {
        return Err(CliError::Refused(status));
    }
    let target = target_path(url.as_str(), output);
    let ghost plain = http_entry(id@, url@, target@);
    match registry.add_with_id(id.clone(), url, target.clone()) {
        Ok(()) => {},
        Err(e) => {
            return Err(CliError::Registry(e));
        },
    }
    let max = match read_limit(&speed_limit) {
        Ok(m) => m,
        Err(e) => {
            return Err(CliError::Speed(e));
        },
    };
    let ghost changed = advanced(plain, Some(priority), opt_text(proxy), opt_text(checksum), max);
    proof {
        lemma_last_entry(old(registry)@, plain, changed);
    }
    if priority > 0 || proxy.is_some() || checksum.is_some() || max.is_some() {
        match registry.update_advanced(id.as_str(), Some(priority), proxy, checksum, max) {
            Ok(()) => {},
            Err(e) => {
                return Err(CliError::Registry(e));
            },
        }
    } else {
        assert(changed == plain);
    }
    let mut line = String::new();
    line.append("Added download ");
    line.append(id.as_str());
    line.append(" -> ");
    line.append(target.as_str());
    proof {
        assert(line@ =~= added_line(id@, target@));
    }
    Ok(line)
}

/// Adds a download under the present second as its id, once the server has answered a request for its
/// URL with a status.
pub fn handle_add(
    url: String,
    output: Option<String>,
    speed_limit: Option<String>,
    proxy: Option<String>,
    checksum: Option<String>,
    priority: u8,
    status: u16,
    registry: &mut Registry,
) -> (res: Result<String, CliError>)
    requires
        old(registry).wf(),
    ensures
        final(registry).wf(),
        final(registry).inner.settings == old(registry).inner.settings,
        (is_success(status) && answer(res) == Err::<Seq<char>, CliError>(
            CliError::Registry(RegistryError::ClockBeforeEpoch),
        ) && final(registry)@ == old(registry)@) || exists|n: nat|
            (final(registry)@, answer(res)) == add_outcome(
                old(registry)@,
                #[trigger] number::decimal(n),
                url@,
                target_of(url@, opt_text(output)),
                (AddChoices {
                    limit: opt_text(speed_limit),
                    proxy: opt_text(proxy),
                    checksum: opt_text(checksum),
                    priority,
                }),
                status,
            ),
{
    if !(200 <= status && status < 300) {
        assert(number::decimal(0) == number::decimal(0));
        return Err(CliError::Refused(status));
    }
    match fresh_id() {
        Some(id) => handle_add_as(
            id,
            url,
            output,
            speed_limit,
            proxy,
            checksum,
            priority,
            status,
            registry,
        ),
        None => Err(CliError::Registry(RegistryError::ClockBeforeEpoch)),
    }
}

/// A refused URL, a taken id and a limit that cannot be read or stored are the only things that keep
/// a download from being added; every other download stays as it was.
pub proof fn law_adding_keeps_the_others(
    rows: Seq<EntryView>,
    id: Seq<char>,
    url: Seq<char>,
    target: Seq<char>,
    choices: AddChoices,
    status: u16,
)
    ensures
        ({
            let out = add_outcome(rows, id, url, target, choices, status);
            &&& out.0.len() <= rows.len() + 1
            &&& out.0.len() >= rows.len()
            &&& out.0.take(rows.len() as int) == rows
            &&& out.1 is Ok ==> out.0.len() == rows.len() + 1 && out.0.last().id == id
                && out.0.last().url == url && out.0.last().target_path == target
            &&& out.1 is Ok <==> is_success(status) && !has_id(rows, id) && match typed_limit(
                choices.limit,
            ) {
                Ok(Some(m)) => m <= i64::MAX,
                Ok(None) => true,
                Err(e) => false,
            }
        }),
{
    let out = add_outcome(rows, id, url, target, choices, status);
    assert(out.0.take(rows.len() as int) =~= rows);
}

/// Width of the column of ids.
pub const ID_WIDTH: usize = 15;

/// Width of the column of statuses.
pub const STATUS_WIDTH: usize = 12;

/// Width of the column of paths.
pub const TARGET_WIDTH: usize = 45;

/// Width of the column of URLs.
pub const URL_WIDTH: usize = 50;

/// Four cells side by side.
pub open spec fn row_of(id: Seq<char>, status: Seq<char>, target: Seq<char>, url: Seq<char>) -> Seq<
    char,
> {
    padded(id, ' ', ID_WIDTH as int) + " | "@ + padded(status, ' ', STATUS_WIDTH as int) + " | "@
        + padded(target, ' ', TARGET_WIDTH as int) + " | "@ + padded(url, ' ', URL_WIDTH as int)
}

/// The line under the head of the list.
pub open spec fn rule_line() -> Seq<char> {
    padded(""@, '-', ID_WIDTH as int) + "-+-"@ + padded(""@, '-', STATUS_WIDTH as int) + "-+-"@
        + padded(""@, '-', TARGET_WIDTH as int) + "-+-"@ + padded(""@, '-', URL_WIDTH as int)
}

/// The line of a download: a long path shows its end, a long URL its start.
pub open spec fn entry_line(e: EntryView) -> Seq<char> {
    row_of(
        e.id,
        status_name(e.status),
        table::tail_shown(e.target_path, TARGET_WIDTH as int),
        table::head_shown(e.url, URL_WIDTH as int),
    )
}

/// The path and the URL can be cut where they are too long: a character begins there.
pub open spec fn listable(e: EntryView) -> bool {
    table::tail_fits(e.target_path, TARGET_WIDTH as int) && table::head_fits(e.url, URL_WIDTH as int)
}

/// Whether the path and the URL of a download can be cut where they are too long.
pub fn can_list(entry: &DownloadEntry) -> (res: bool)
    ensures
        res == listable(entry@),
{
    table::can_show_tail(entry.target_path.as_str(), TARGET_WIDTH) && table::can_show_head(
        entry.url.as_str(),
        URL_WIDTH,
    )
}

fn join_cells(cells: [&str; 4], fill: char, between: &str) -> (res: String)
    ensures
        res@ == padded(cells@[0]@, fill, ID_WIDTH as int) + between@ + padded(
            cells@[1]@,
            fill,
            STATUS_WIDTH as int,
        ) + between@ + padded(cells@[2]@, fill, TARGET_WIDTH as int) + between@ + padded(
            cells@[3]@,
            fill,
            URL_WIDTH as int,
        ),
{
    let mut line = table::pad(cells[0], fill, ID_WIDTH);
    line.append(between);
    line.append(table::pad(cells[1], fill, STATUS_WIDTH).as_str());
    line.append(between);
    line.append(table::pad(cells[2], fill, TARGET_WIDTH).as_str());
    line.append(between);
    line.append(table::pad(cells[3], fill, URL_WIDTH).as_str());
    line
}

/// The line of a download.
pub fn list_line(entry: &DownloadEntry) -> (res: String)
    requires
        listable(entry@),
    ensures
        res@ == entry_line(entry@),
{
    let target = table::show_tail(entry.target_path.as_str(), TARGET_WIDTH);
    let url = table::show_head(entry.url.as_str(), URL_WIDTH);
    join_cells(
        [entry.id.as_str(), entry.status.name(), target.as_str(), url.as_str()],
        ' ',
        " | ",
    )
}

/// The lines that list some downloads.
pub open spec fn list_lines(v: Seq<EntryView>) -> Seq<Seq<char>> {
    if v.len() == 0 {
        seq!["No downloads in download_registry."@]
    } else {
        seq![row_of("ID"@, "Status"@, "Target"@, "URL"@), rule_line()] + v.map_values(
            |e: EntryView| entry_line(e),
        )
    }
}

/// The category that was asked for: none where the word names none.
pub open spec fn typed_category(word: Option<Seq<char>>) -> Option<DownloadCategory> {
    match word {
        Some(w) => category_named(text::ascii_lower(w)),
        None => None,
    }
}

/// The downloads that a list shows.
pub open spec fn listed(
    rows: Seq<EntryView>,
    category: Option<Seq<char>>,
    search: Option<Seq<char>>,
) -> Seq<EntryView> {
    by_priority(rows).filter(|e: EntryView| found(e, typed_category(category), search))
}

/// The lines that list some downloads.
pub fn lines_for(entries: &Vec<DownloadEntry>) -> (res: Vec<String>)
    requires
        forall|k: int| 0 <= k < entries@.len() ==> listable((#[trigger] entries@[k])@),
    ensures
        texts(res@) == list_lines(entry_views(entries@)),
{
    let ghost all = entry_views(entries@);
    let mut lines: Vec<String> = Vec::new();
    if entries.len() == 0 {
        lines.push("No downloads in download_registry.".to_owned());
        proof {
            assert(texts(lines@) =~= list_lines(all));
        }
        return lines;
    }
    lines.push(join_cells(["ID", "Status", "Target", "URL"], ' ', " | "));
    lines.push(join_cells(["", "", "", ""], '-', "-+-"));
    let ghost head = seq![row_of("ID"@, "Status"@, "Target"@, "URL"@), rule_line()];
    let ghost line = |e: EntryView| entry_line(e);
    let mut i: usize = 0;
    proof {
        assert(texts(lines@) =~= head + all.take(0).map_values(line));
    }
    while i < entries.len()
        invariant
            i <= entries@.len(),
            all == entry_views(entries@),
            line == (|e: EntryView| entry_line(e)),
            texts(lines@) == head + all.take(i as int).map_values(line),
            forall|k: int| 0 <= k < entries@.len() ==> listable((#[trigger] entries@[k])@),
        decreases entries@.len() - i,
    {
        let ghost before = texts(lines@);
        lines.push(list_line(&entries[i]));
        proof {
            let e = entries@[i as int]@;
            assert(all[i as int] == e);
            assert(texts(lines@) =~= before.push(entry_line(e)));
            assert(all.take(i + 1).map_values(line) =~= all.take(i as int).map_values(line).push(
                entry_line(e),
            ));
            assert(texts(lines@) =~= head + all.take(i + 1).map_values(line));
        }
        i = i + 1;
    }
    proof {
        assert(all.take(i as int) =~= all);
    }
    lines
}

/// The downloads that a list shows.
pub fn entries_for(registry: &Registry, category: Option<String>, search: Option<String>) -> (res:
    Vec<DownloadEntry>)
    ensures
        entry_views(res@) == listed(registry@, opt_text(category), opt_text(search)),
{
    let wanted: Option<DownloadCategory> = match &category {
        Some(word) => parse_category(word.as_str()),
        None => None,
    };
    let held: Option<&str> = match &search {
        Some(q) => Some(q.as_str()),
        None => None,
    };
    proof {
        let a = |e: EntryView| found(e, wanted, query(held));
        let b = |e: EntryView| found(e, typed_category(opt_text(category)), opt_text(search));
        assert(a =~= b);
    }
    registry.list_filtered(wanted, held)
}

/// Lists the downloads of a category that hold a text.
pub fn handle_list(registry: &Registry, category: Option<String>, search: Option<String>) -> (res:
    Vec<String>)
    requires
        forall|k: int|
            0 <= k < listed(registry@, opt_text(category), opt_text(search)).len() ==> listable(
                #[trigger] listed(registry@, opt_text(category), opt_text(search))[k],
            ),
    ensures
        texts(res@) == list_lines(listed(registry@, opt_text(category), opt_text(search))),
{
    let ghost v = listed(registry@, opt_text(category), opt_text(search));
    let entries = entries_for(registry, category, search);
    proof {
        assert forall|k: int| 0 <= k < entries@.len() implies listable(
            (#[trigger] entries@[k])@,
        ) by {
            assert(entry_views(entries@)[k] == entries@[k]@);
            assert(listable(v[k]));
        }
    }
    lines_for(&entries)
}

/// The line for an id that no download has.
pub open spec fn missing_line(id: Seq<char>) -> Seq<char> {
    "Download ID "@ + id + " not found."@
}

fn line_of(head: &str, middle: &str, tail: &str) -> (res: String)
    ensures
        res@ == head@ + middle@ + tail@,
{
    let mut line = head.to_owned();
    line.append(middle);
    line.append(tail);
    line
}

fn labelled(head: &str, tail: &str) -> (res: String)
    ensures
        res@ == head@ + tail@,
{
    let mut line = head.to_owned();
    line.append(tail);
    line
}

/// Removes a download.
pub fn handle_remove(id: String, registry: &mut Registry) -> (res: String)
    requires
        old(registry).wf(),
    ensures
        final(registry).wf(),
        final(registry).inner.settings == old(registry).inner.settings,
        final(registry)@ == removed(old(registry)@, id@),
        res@ == match entry_with(old(registry)@, id@) {
            Some(e) => "Removed download: "@ + id@ + " ("@ + e.url + ")"@,
            None => missing_line(id@),
        },
{
    match registry.remove(id.as_str()) {
        Some(entry) => {
            let mut line = line_of("Removed download: ", id.as_str(), " (");
            line.append(entry.url.as_str());
            line.append(")");
            line
        },
        None => line_of("Download ID ", id.as_str(), " not found."),
    }
}

/// The queue after the status of a download was set, and what is answered.
pub open spec fn status_outcome(
    rows: Seq<EntryView>,
    id: Seq<char>,
    status: DownloadStatus,
    head: Seq<char>,
) -> (Seq<EntryView>, Seq<char>) {
    match entry_with(rows, id) {
        Some(e) => (inserted(rows, EntryView { status, ..e }), head + id),
        None => (rows, missing_line(id)),
    }
}

fn set_status(id: String, status: DownloadStatus, head: &str, registry: &mut Registry) -> (res:
    String)
    requires
        old(registry).wf(),
    ensures
        final(registry).wf(),
        final(registry).inner.settings == old(registry).inner.settings,
        (final(registry)@, res@) == status_outcome(old(registry)@, id@, status, head@),
{
    match registry.update_status(id.as_str(), status) {
        Ok(()) => labelled(head, id.as_str()),
        Err(_) => line_of("Download ID ", id.as_str(), " not found."),
    }
}

/// Pauses a download.
pub fn handle_pause(id: String, registry: &mut Registry) -> (res: String)
    requires
        old(registry).wf(),
    ensures
        final(registry).wf(),
        final(registry).inner.settings == old(registry).inner.settings,
        (final(registry)@, res@) == status_outcome(
            old(registry)@,
            id@,
            DownloadStatus::Paused,
            "Paused download: "@,
        ),
{
    set_status(id, DownloadStatus::Paused, "Paused download: ", registry)
}

/// Makes a download wait to be run again.
pub fn handle_resume(id: String, registry: &mut Registry) -> (res: String)
    requires
        old(registry).wf(),
    ensures
        final(registry).wf(),
        final(registry).inner.settings == old(registry).inner.settings,
        (final(registry)@, res@) == status_outcome(
            old(registry)@,
            id@,
            DownloadStatus::Pending,
            "Resumed download: "@,
        ),
{
    set_status(id, DownloadStatus::Pending, "Resumed download: ", registry)
}

/// Makes a failed download wait to be run again.
pub fn handle_retry(id: String, registry: &mut Registry) -> (res: String)
    requires
        old(registry).wf(),
    ensures
        final(registry).wf(),
        final(registry).inner.settings == old(registry).inner.settings,
        (final(registry)@, res@) == status_outcome(
            old(registry)@,
            id@,
            DownloadStatus::Pending,
            "Retrying download: "@,
        ),
{
    set_status(id, DownloadStatus::Pending, "Retrying download: ", registry)
}

/// Removes the completed downloads.
pub fn handle_clean(registry: &mut Registry) -> (res: String)
    requires
        old(registry).wf(),
    ensures
        final(registry).wf(),
        final(registry).inner.settings == old(registry).inner.settings,
        final(registry)@ == old(registry)@.filter(|e: EntryView| unfinished(e)),
        res@ == "Cleaned "@ + number::decimal(
            (old(registry)@.len() - final(registry)@.len()) as nat,
        ) + " completed downloads."@,
{
    let n: usize = registry.clean_completed();
    line_of(
        "Cleaned ",
        text::string_of(&number::to_decimal(n as u128)).as_str(),
        " completed downloads.",
    )
}

/// What an inspection does.
#[derive(Debug)]
pub enum Inspection {
    /// It says this and ends.
    Say(String),
    /// It shows the snapshot in this file, behind this line.
    Show { file: String, line: String },
}

/// What an inspection does with the snapshot of a download, which is there or not.
pub fn handle_inspect(id: String, registry: &Registry, snapshot_exists: bool) -> (res: Inspection)
    requires
        registry.wf(),
    ensures
        match entry_with(registry@, id@) {
            None => res matches Inspection::Say(line) && line@ == missing_line(id@),
            Some(e) => if snapshot_exists {
                res matches Inspection::Show { file, line } && file@ == path::with_extension_of(
                    e.target_path,
                    "warp"@,
                ) && line@ == "Inspecting snapshot: "@ + file@
            } else {
                res matches Inspection::Say(line) && line@ == "No .warp file found for ID "@ + id@
                    + ". Has the download started?"@
            },
        },
{
    match registry.get(id.as_str()) {
        None => Inspection::Say(line_of("Download ID ", id.as_str(), " not found.")),
        Some(entry) => {
            if snapshot_exists {
                let file = path::with_extension(entry.target_path.as_str(), "warp");
                let line = labelled("Inspecting snapshot: ", file.as_str());
                Inspection::Show { file, line }
            } else {
                Inspection::Say(
                    line_of(
                        "No .warp file found for ID ",
                        id.as_str(),
                        ". Has the download started?",
                    ),
                )
            }
        },
    }
}

/// The settings after some were typed, or why none of them is taken: the limit is read first.
pub open spec fn configured(
    s: SettingsView,
    limit: Option<Seq<char>>,
    max_workers: Option<usize>,
) -> Result<SettingsView, CliError> {
    match typed_limit(limit) {
        Err(e) => Err(CliError::Speed(e)),
        Ok(max) => if max_workers == Some(0usize) {
            Err(CliError::NoWorkers)
        } else {
            Ok(
                SettingsView {
                    global_max_speed_bytes: if max is Some {
                        max
                    } else {
                        s.global_max_speed_bytes
                    },
                    max_workers: match max_workers {
                        Some(n) => n,
                        None => s.max_workers,
                    },
                    ..s
                },
            )
        },
    }
}

/// The lines that answer a change of settings.
pub open spec fn change_lines(s: SettingsView, workers_typed: bool) -> Seq<Seq<char>> {
    (match s.global_max_speed_bytes {
        Some(b) => seq![
            "Global speed limit set to "@ + number::decimal(b as nat) + " bytes/s."@,
        ],
        None => Seq::empty(),
    }) + if workers_typed {
        seq!["Max workers set to "@ + number::decimal(s.max_workers as nat) + "."@]
    } else {
        Seq::empty()
    }
}

/// The lines that show the settings.
pub open spec fn settings_lines(s: SettingsView) -> Seq<Seq<char>> {
    seq![
        "daemon_port: "@ + number::decimal(s.daemon_port as nat),
        "global_max_speed_bytes: "@ + match s.global_max_speed_bytes {
            Some(b) => number::decimal(b as nat),
            None => "(unlimited)"@,
        },
        "max_workers: "@ + number::decimal(s.max_workers as nat),
        "schedule_windows: "@ + number::decimal(s.schedule_windows.len()),
    ]
}

fn decimal_text(n: u64) -> (res: String)
    ensures
        res@ == number::decimal(n as nat),
{
    text::string_of(&number::to_decimal(n as u128))
}

fn change_report(settings: &AppSettings, workers_typed: bool) -> (res: Vec<String>)
    ensures
        texts(res@) == change_lines(settings@, workers_typed),
{
    let mut lines: Vec<String> = Vec::new();
    if let Some(b) = settings.global_max_speed_bytes {
        lines.push(
            line_of("Global speed limit set to ", decimal_text(b).as_str(), " bytes/s."),
        );
    }
    if workers_typed {
        lines.push(
            line_of(
                "Max workers set to ",
                text::string_of(&number::to_decimal(settings.max_workers as u128)).as_str(),
                ".",
            ),
        );
    }
    proof {
        assert(texts(lines@) =~= change_lines(settings@, workers_typed));
    }
    lines
}

fn settings_report(settings: &AppSettings) -> (res: Vec<String>)
    ensures
        texts(res@) == settings_lines(settings@),
{
    let mut lines: Vec<String> = Vec::new();
    lines.push(labelled("daemon_port: ", decimal_text(settings.daemon_port as u64).as_str()));
    match settings.global_max_speed_bytes {
        Some(b) => lines.push(labelled("global_max_speed_bytes: ", decimal_text(b).as_str())),
        None => lines.push(labelled("global_max_speed_bytes: ", "(unlimited)")),
    }
    lines.push(
        labelled(
            "max_workers: ",
            text::string_of(&number::to_decimal(settings.max_workers as u128)).as_str(),
        ),
    );
    let windows: usize = settings.schedule_windows.len();
    lines.push(
        labelled(
            "schedule_windows: ",
            text::string_of(&number::to_decimal(windows as u128)).as_str(),
        ),
    );
    proof {
        assert(texts(lines@) =~= settings_lines(settings@));
    }
    lines
}

/// Changes the settings, or shows them where nothing was typed.
pub fn handle_config(
    global_speed_limit: Option<String>,
    max_workers: Option<usize>,
    registry: &mut Registry,
) -> (res: Result<Vec<String>, CliError>)
    ensures
        final(registry)@ == old(registry)@,
        ({
            let before = settings_of(old(registry).inner.settings);
            let after = settings_of(final(registry).inner.settings);
            match configured(before, opt_text(global_speed_limit), max_workers) {
                Err(e) => res == Err::<Vec<String>, CliError>(e) && after == before,
                Ok(s) => after == s && res is Ok && texts(res->Ok_0@) == if global_speed_limit is None
                    && max_workers is None {
                    settings_lines(s)
                } else {
                    change_lines(s, max_workers is Some)
                },
            }
        }),
{
    let mut settings = registry.get_settings();
    match read_limit(&global_speed_limit) {
        Ok(Some(n)) => {
            settings.global_max_speed_bytes = Some(n);
        },
        Ok(None) => {},
        Err(e) => {
            return Err(CliError::Speed(e));
        },
    }
    if let Some(workers) = max_workers {
        if workers == 0 {
            return Err(CliError::NoWorkers);
        }
        settings.max_workers = workers;
    }
    if global_speed_limit.is_some() || max_workers.is_some() {
        registry.save_settings(&settings);
        Ok(change_report(&settings, max_workers.is_some()))
    } else {
        Ok(settings_report(&settings))
    }
}

/// Settings that were taken keep at least one worker, and whatever was not typed.
pub proof fn law_settings_keep_a_worker(
    s: SettingsView,
    limit: Option<Seq<char>>,
    max_workers: Option<usize>,
)
    requires
        s.max_workers >= 1,
    ensures
        configured(s, limit, max_workers) matches Ok(t) ==> t.max_workers >= 1 && t.daemon_port
            == s.daemon_port && t.schedule_windows == s.schedule_windows && t.allow_notifications
            == s.allow_notifications,
        configured(s, None, None) == Ok::<SettingsView, CliError>(s),
{
}

/// Five cells side by side: the first to the left, the others to the right.
pub open spec fn stats_row(
    host: Seq<char>,
    downloads: Seq<char>,
    bytes: Seq<char>,
    speed: Seq<char>,
    fails: Seq<char>,
) -> Seq<char> {
    padded(host, ' ', 30) + " "@ + right_aligned(downloads, 8) + " "@ + right_aligned(bytes, 14)
        + " "@ + right_aligned(speed, 14) + " "@ + right_aligned(fails, 8)
}

/// The line of a host, with the bytes per second that came from it.
pub open spec fn host_line(m: HostView, speed: u64) -> Seq<char> {
    stats_row(
        m.host,
        signed_decimal(m.downloads),
        signed_decimal(m.bytes_total),
        number::decimal(speed as nat),
        signed_decimal(m.failures),
    )
}

/// The lines that show what came from each host.
pub open spec fn stats_lines(rows: Seq<HostView>, speeds: Seq<u64>) -> Seq<Seq<char>> {
    if rows.len() == 0 {
        seq!["No download metrics recorded yet."@]
    } else {
        seq![stats_row("Host"@, "Downloads"@, "Bytes"@, "Avg B/s"@, "Fails"@)] + Seq::new(
            rows.len(),
            |i: int| host_line(rows[i], speeds[i]),
        )
    }
}

fn stats_cells(host: &str, downloads: &str, bytes: &str, speed: &str, fails: &str) -> (res: String)
    ensures
        res@ == stats_row(host@, downloads@, bytes@, speed@, fails@),
{
    let mut line = table::pad(host, ' ', 30);
    line.append(" ");
    line.append(table::align_right(downloads, 8).as_str());
    line.append(" ");
    line.append(table::align_right(bytes, 14).as_str());
    line.append(" ");
    line.append(table::align_right(speed, 14).as_str());
    line.append(" ");
    line.append(table::align_right(fails, 8).as_str());
    line
}

/// Shows what came from each host, with the bytes per second that came from it.
pub fn handle_stats(rows: &Vec<HostMetrics>, speeds: &Vec<u64>) -> (res: Vec<String>)
    requires
        rows@.len() == speeds@.len(),
    ensures
        texts(res@) == stats_lines(host_views(rows@), speeds@),
{
    let ghost all = host_views(rows@);
    let mut lines: Vec<String> = Vec::new();
    if rows.len() == 0 {
        lines.push("No download metrics recorded yet.".to_owned());
        proof {
            assert(texts(lines@) =~= stats_lines(all, speeds@));
        }
        return lines;
    }
    lines.push(stats_cells("Host", "Downloads", "Bytes", "Avg B/s", "Fails"));
    let ghost head = seq![stats_row("Host"@, "Downloads"@, "Bytes"@, "Avg B/s"@, "Fails"@)];
    let ghost line = |i: int| host_line(all[i], speeds@[i]);
    let mut i: usize = 0;
    proof {
        assert(texts(lines@) =~= head + Seq::new(0, line));
    }
    while i < rows.len()
        invariant
            i <= rows@.len(),
            rows@.len() == speeds@.len(),
            all == host_views(rows@),
            line == (|i: int| host_line(all[i], speeds@[i])),
            texts(lines@) == head + Seq::new(i as nat, line),
        decreases rows@.len() - i,
    {
        let ghost before = texts(lines@);
        let downloads = table::to_signed_decimal(rows[i].downloads);
        let bytes = table::to_signed_decimal(rows[i].bytes_total);
        let speed = decimal_text(speeds[i]);
        let fails = table::to_signed_decimal(rows[i].failures);
        lines.push(
            stats_cells(
                rows[i].host.as_str(),
                downloads.as_str(),
                bytes.as_str(),
                speed.as_str(),
                fails.as_str(),
            ),
        );
        proof {
            assert(all[i as int] == rows@[i as int]@);
            assert(texts(lines@) =~= before.push(line(i as int)));
            assert(texts(lines@) =~= head + Seq::new((i + 1) as nat, line));
        }
        i = i + 1;
    }
    proof {
        assert(texts(lines@) =~= stats_lines(all, speeds@));
    }
    lines
}

/// A download without a path goes to a file that is named as its URL ends: what stands behind the last
/// slash, without a query. A path that was typed is taken as it is.
pub proof fn law_files_are_named_as_their_url_ends(
    head: Seq<char>,
    name: Seq<char>,
    rest: Seq<char>,
    typed: Seq<char>,
)
    requires
        !name.contains('/'),
        !name.contains('?'),
        !rest.contains('/'),
    ensures
        target_of(head + seq!['/'] + name, None) == name,
        target_of(head + seq!['/'] + (name + seq!['?'] + rest), None) == name,
        target_of(name, None) == name,
        target_of(head, Some(typed)) == typed,
{
    let long = name + seq!['?'] + rest;
    assert(!long.contains('/')) by {
        if long.contains('/') {
            let i = choose|i: int| 0 <= i < long.len() && long[i] == '/';
            if i < name.len() {
                assert(name[i] == '/');
            } else if i > name.len() {
                assert(rest[i - name.len() - 1] == '/');
            }
        }
    }
    text::law_parts_around_a_character(head, '/', name);
    text::law_parts_around_a_character(head, '/', long);
    text::law_parts_around_a_character(name, '?', rest);
    text::law_parts_around_a_character(name, '/', rest);
}

/// Only the label of a category, in lower case, names one.
pub proof fn law_only_labels_name_a_category(low: Seq<char>, c: DownloadCategory)
    requires
        category_named(low) == Some(c),
    ensures
        low == text::ascii_lower(crate::types::label_of(c)),
{
    reveal_strlit("Other");
    reveal_strlit("Video");
    reveal_strlit("Audio");
    reveal_strlit("Archive");
    reveal_strlit("Document");
    reveal_strlit("Image");
    reveal_strlit("other");
    reveal_strlit("video");
    reveal_strlit("audio");
    reveal_strlit("archive");
    reveal_strlit("document");
    reveal_strlit("image");
    assert(low =~= text::ascii_lower(crate::types::label_of(c)));
}

/// A download that was added has every choice that was typed and waits; it stands behind the others. A
/// status outside the 200s and an id that is taken add nothing.
pub proof fn law_added_downloads_have_what_was_typed(
    rows: Seq<EntryView>,
    id: Seq<char>,
    url: Seq<char>,
    target: Seq<char>,
    choices: AddChoices,
    status: u16,
    k: int,
)
    ensures
        ({
            let out = add_outcome(rows, id, url, target, choices, status);
            let e = out.0.last();
            &&& status < 200 || 300 <= status ==> out.0 == rows && out.1 == Err::<
                Seq<char>,
                CliError,
            >(CliError::Refused(status))
            &&& 200 <= status < 300 && 0 <= k < rows.len() && rows[k].id == id ==> out.0 == rows
                && out.1 == Err::<Seq<char>, CliError>(
                CliError::Registry(RegistryError::DuplicateId),
            )
            &&& 200 <= status < 300 && choices.limit is None && (forall|j: int|
                0 <= j < rows.len() ==> (#[trigger] rows[j]).id != id) ==> {
                &&& out.0.len() == rows.len() + 1
                &&& e.id == id && e.url == url && e.target_path == target
                &&& e.status == DownloadStatus::Pending && e.priority == choices.priority
                &&& e.proxy == choices.proxy && e.checksum == choices.checksum
                &&& e.max_speed_bytes is None
                &&& out.1 == Ok::<Seq<char>, CliError>(
                    "Added download "@ + id + " -> "@ + target,
                )
            }
            &&& out.1 is Ok ==> e.priority == choices.priority && e.proxy == choices.proxy
                && e.checksum == choices.checksum && (choices.limit matches Some(s) ==> Ok::<
                Option<u64>,
                SpeedError,
            >(e.max_speed_bytes) == match speed_of(scan::unicode_upper(scan::trim_of(s))) {
                Ok(n) => Ok::<Option<u64>, SpeedError>(Some(n)),
                Err(x) => Err(x),
            })
        }),
{
    if 0 <= k < rows.len() && rows[k].id == id && !has_id(rows, id) {
        lemma_absent(rows, id, rows.len() as int);
    }
    if has_id(rows, id) {
        assert(is_at(rows, id, crate::download_registry::entries::place_of(rows, id)));
    }
}

/// A limit and a number of workers that were typed replace those of the settings; a limit that cannot be
/// read, or no workers at all, changes nothing.
pub proof fn law_typed_settings_are_taken(
    s: SettingsView,
    limit: Option<Seq<char>>,
    max_workers: Option<usize>,
)
    ensures
        match typed_limit(limit) {
            Err(e) => configured(s, limit, max_workers) == Err::<SettingsView, CliError>(
                CliError::Speed(e),
            ),
            Ok(n) => match configured(s, limit, max_workers) {
                Err(e) => max_workers == Some(0usize) && e == CliError::NoWorkers,
                Ok(t) => {
                    &&& max_workers != Some(0usize)
                    &&& limit is Some ==> t.global_max_speed_bytes == n && n is Some
                    &&& limit is None ==> t.global_max_speed_bytes == s.global_max_speed_bytes
                    &&& max_workers is Some ==> Some(t.max_workers) == max_workers
                    &&& max_workers is None ==> t.max_workers == s.max_workers
                },
            },
        },
{
}

/// What is shown of the settings reads back as what they are.
pub proof fn law_shown_settings_read_back(s: SettingsView)
    ensures
        ({
            let lines = settings_lines(s);
            &&& lines.len() == 4
            &&& number::u64_of(lines[0].skip("daemon_port: "@.len() as int)) == Some(
                s.daemon_port as u64,
            )
            &&& s.global_max_speed_bytes is Some ==> number::u64_of(
                lines[1].skip("global_max_speed_bytes: "@.len() as int),
            ) == s.global_max_speed_bytes
            &&& s.global_max_speed_bytes is None ==> lines[1].skip(
                "global_max_speed_bytes: "@.len() as int,
            ) == "(unlimited)"@
            &&& number::u64_of(lines[2].skip("max_workers: "@.len() as int)) == Some(
                s.max_workers as u64,
            )
            &&& number::value_of(lines[3].skip("schedule_windows: "@.len() as int))
                == s.schedule_windows.len()
        }),
{
    let lines = settings_lines(s);
    number::law_decimal_reads_back(s.daemon_port as nat);
    number::law_decimal_reads_back(s.max_workers as nat);
    number::law_decimal_reads_back(s.schedule_windows.len());
    assert(lines[0].skip("daemon_port: "@.len() as int) =~= number::decimal(s.daemon_port as nat));
    assert(lines[2].skip("max_workers: "@.len() as int) =~= number::decimal(s.max_workers as nat));
    assert(lines[3].skip("schedule_windows: "@.len() as int) =~= number::decimal(
        s.schedule_windows.len(),
    ));
    match s.global_max_speed_bytes {
        Some(b) => {
            number::law_decimal_reads_back(b as nat);
            assert(lines[1].skip("global_max_speed_bytes: "@.len() as int) =~= number::decimal(
                b as nat,
            ));
        },
        None => {
            assert(lines[1].skip("global_max_speed_bytes: "@.len() as int) =~= "(unlimited)"@);
        },
    }
}

/// What is answered to a change of settings reads back as what was set.
pub proof fn law_answered_settings_read_back(s: SettingsView, b: u64, workers_typed: bool)
    requires
        s.global_max_speed_bytes == Some(b),
    ensures
        ({
            let lines = change_lines(s, workers_typed);
            let none = change_lines(
                SettingsView { global_max_speed_bytes: None, ..s },
                workers_typed,
            );
            &&& lines[0] == "Global speed limit set to "@ + number::decimal(b as nat)
                + " bytes/s."@
            &&& lines.len() == if workers_typed {
                2nat
            } else {
                1nat
            }
            &&& none == lines.skip(1)
            &&& workers_typed ==> lines[1] == "Max workers set to "@ + number::decimal(
                s.max_workers as nat,
            ) + "."@
        }),
{
    let lines = change_lines(s, workers_typed);
    let none = change_lines(SettingsView { global_max_speed_bytes: None, ..s }, workers_typed);
    assert(none =~= lines.skip(1));
}

/// The cells of the list stand under each other: the columns are 15, 12, 45 and 50 wide, with three
/// characters between them.
pub proof fn law_cells_stand_under_each_other(
    id: Seq<char>,
    status: Seq<char>,
    target: Seq<char>,
    url: Seq<char>,
)
    requires
        id.len() <= 15,
        status.len() <= 12,
        target.len() <= 45,
        url.len() <= 50,
    ensures
        ({
            let line = row_of(id, status, target, url);
            &&& line.len() == 131
            &&& rule_line().len() == 131
            &&& line.subrange(0, id.len() as int) == id
            &&& line.subrange(15, 18) == " | "@
            &&& line.subrange(18, 18 + status.len() as int) == status
            &&& line.subrange(30, 33) == " | "@
            &&& line.subrange(33, 33 + target.len() as int) == target
            &&& line.subrange(78, 81) == " | "@
            &&& line.subrange(81, 81 + url.len() as int) == url
            &&& forall|i: int| id.len() <= i < 15 ==> line[i] == ' '
            &&& forall|i: int| 18 + status.len() <= i < 30 ==> line[i] == ' '
            &&& forall|i: int| 33 + target.len() <= i < 78 ==> line[i] == ' '
            &&& forall|i: int| 81 + url.len() <= i < 131 ==> line[i] == ' '
        }),
{
    reveal_strlit(" | ");
    reveal_strlit("-+-");
    reveal_strlit("");
    let line = row_of(id, status, target, url);
    assert(line.len() == 131);
    assert(line.subrange(0, id.len() as int) =~= id);
    assert(line.subrange(15, 18) =~= " | "@);
    assert(line.subrange(18, 18 + status.len() as int) =~= status);
    assert(line.subrange(30, 33) =~= " | "@);
    assert(line.subrange(33, 33 + target.len() as int) =~= target);
    assert(line.subrange(78, 81) =~= " | "@);
    assert(line.subrange(81, 81 + url.len() as int) =~= url);
}

/// The list has a line for every download, in order, behind a head and a rule.
pub proof fn law_every_download_has_a_line(v: Seq<EntryView>, i: int)
    requires
        0 <= i < v.len(),
    ensures
        list_lines(v).len() == v.len() + 2,
        list_lines(v)[0] == row_of("ID"@, "Status"@, "Target"@, "URL"@),
        list_lines(v)[i + 2] == row_of(
            v[i].id,
            status_name(v[i].status),
            table::tail_shown(v[i].target_path, 45),
            table::head_shown(v[i].url, 50),
        ),
{
}

/// The list shows the downloads that are found, and no others; without a word and a text it shows all,
/// and so it does with a word that names no category.
pub proof fn law_lists_show_what_is_found(
    rows: Seq<EntryView>,
    category: Option<Seq<char>>,
    search: Option<Seq<char>>,
    e: EntryView,
)
    ensures
        listed(rows, category, search).contains(e) <==> rows.contains(e) && found(
            e,
            match category {
                Some(w) => category_named(text::ascii_lower(w)),
                None => None,
            },
            search,
        ),
        search is None && (category matches Some(w) ==> category_named(text::ascii_lower(w)) is None)
            ==> (listed(rows, category, search).contains(e) <==> rows.contains(e)),
{
    let keep = |e: EntryView| found(e, typed_category(category), search);
    let r = by_priority(rows);
    let out = listed(rows, category, search);
    crate::download_registry::entries::law_priority_order(rows);
    if out.contains(e) {
        let i = choose|i: int| 0 <= i < out.len() && out[i] == e;
        r.lemma_filter_pred(keep, i);
        r.lemma_filter_contains_rev(keep, e);
    }
    if rows.contains(e) && keep(e) {
        assert(r.contains(e));
        let i = choose|i: int| 0 <= i < r.len() && r[i] == e;
        r.lemma_filter_contains(keep, i);
    }
}

/// To set the status of a download changes that status alone, and answers its id; an id that none has
/// changes nothing.
pub proof fn law_status_alone_changes(
    rows: Seq<EntryView>,
    status: DownloadStatus,
    head: Seq<char>,
    id: Seq<char>,
    k: int,
)
    requires
        crate::download_registry::entries::distinct_ids(rows),
        0 <= k < rows.len(),
    ensures
        ({
            let out = status_outcome(rows, id, status, head);
            &&& rows[k].id == id ==> out == (
                rows.take(k) + seq![EntryView { status, ..rows[k] }] + rows.skip(k + 1),
                head + id,
            )
            &&& (forall|j: int| 0 <= j < rows.len() ==> (#[trigger] rows[j]).id != id) ==> out == (
                rows,
                "Download ID "@ + id + " not found."@,
            )
        }),
{
    let out = status_outcome(rows, id, status, head);
    crate::download_registry::entries::law_lookup_goes_by_id(rows, id, k);
    if rows[k].id == id {
        let f = EntryView { status, ..rows[k] };
        assert forall|j: int| 0 <= j < rows.len() implies inserted(rows, f)[j] == if j == k {
            f
        } else {
            rows[j]
        } by {
            crate::download_registry::json::law_insert_keeps_places(rows, f, j);
            if j < k {
                assert(rows[j].id != rows[k].id);
            } else if k < j {
                assert(rows[k].id != rows[j].id);
            }
        }
        crate::download_registry::json::law_insert_keeps_places(rows, f, k);
        assert(out.0 =~= rows.take(k) + seq![f] + rows.skip(k + 1));
    }
}

/// The cells of a host stand under each other: the name to the left in 30 characters, the numbers to the
/// right in 8, 14, 14 and 8, with a space between them.
pub proof fn law_numbers_stand_under_each_other(
    host: Seq<char>,
    downloads: Seq<char>,
    bytes: Seq<char>,
    speed: Seq<char>,
    fails: Seq<char>,
)
    requires
        host.len() <= 30,
        downloads.len() <= 8,
        bytes.len() <= 14,
        speed.len() <= 14,
        fails.len() <= 8,
    ensures
        ({
            let line = stats_row(host, downloads, bytes, speed, fails);
            &&& line.len() == 78
            &&& line.subrange(0, host.len() as int) == host
            &&& line.subrange(39 - downloads.len(), 39) == downloads
            &&& line.subrange(54 - bytes.len(), 54) == bytes
            &&& line.subrange(69 - speed.len(), 69) == speed
            &&& line.subrange(78 - fails.len(), 78) == fails
            &&& forall|i: int| host.len() <= i < 39 - downloads.len() ==> line[i] == ' '
            &&& forall|i: int| 39 <= i < 54 - bytes.len() ==> line[i] == ' '
            &&& forall|i: int| 54 <= i < 69 - speed.len() ==> line[i] == ' '
            &&& forall|i: int| 69 <= i < 78 - fails.len() ==> line[i] == ' '
        }),
{
    reveal_strlit(" ");
    let line = stats_row(host, downloads, bytes, speed, fails);
    assert(line.len() == 78);
    assert(line.subrange(0, host.len() as int) =~= host);
    assert(line.subrange(39 - downloads.len(), 39) =~= downloads);
    assert(line.subrange(54 - bytes.len(), 54) =~= bytes);
    assert(line.subrange(69 - speed.len(), 69) =~= speed);
    assert(line.subrange(78 - fails.len(), 78) =~= fails);
}

/// Every host has a line behind the head, with its numbers and its speed.
pub proof fn law_every_host_has_a_line(rows: Seq<HostView>, speeds: Seq<u64>, i: int)
    requires
        0 <= i < rows.len(),
        speeds.len() == rows.len(),
    ensures
        stats_lines(rows, speeds).len() == rows.len() + 1,
        stats_lines(rows, speeds)[i + 1] == stats_row(
            rows[i].host,
            signed_decimal(rows[i].downloads),
            signed_decimal(rows[i].bytes_total),
            number::decimal(speeds[i] as nat),
            signed_decimal(rows[i].failures),
        ),
{
}

} // verus!
