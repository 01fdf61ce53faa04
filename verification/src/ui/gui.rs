//! The window with the progress of each download.

use crate::cli::{file_of_url, target_path};
use crate::interceptor::capture::{endpoint, part_or, part_text};
use crate::interceptor::types::{CapturedRequest, RequestView};
use crate::number;
use crate::scan;
use crate::table;
use crate::text;
use crate::types::DownloadStatus;
use crate::ui::backend::{DownloadProgress, ProgressView};
use crate::utils::{HumanBytes, human};
use vstd::prelude::*;

verus! {

/// How many bytes of a URL are shown.
pub const URL_WIDTH: usize = 40;

/// The URL of a download, cut where it is too long.
pub fn url_label(progress: &DownloadProgress) -> (res: String)
    requires
        table::head_fits(progress@.url, URL_WIDTH as int),
    ensures
        res@ == table::head_shown(progress@.url, URL_WIDTH as int),
        res@ == table::head_shown(progress@.url, 40),
{
    table::show_head(progress.url.as_str(), URL_WIDTH)
}

/// The speed of a download; only one that is being fetched has one.
pub open spec fn speed_text(p: ProgressView) -> Seq<char> {
    if p.status == DownloadStatus::Downloading {
        human(p.speed) + "/s"@
    } else {
        "-"@
    }
}

/// The speed of a download.
pub fn speed_label(progress: &DownloadProgress) -> (res: String)
    ensures
        res@ == speed_text(progress@),
{
    if progress.status == DownloadStatus::Downloading {
        let mut out = HumanBytes(progress.speed).to_string();
        out.append("/s");
        out
    } else {
        "-".to_owned()
    }
}

/// How much of a download is there.
pub open spec fn progress_text(p: ProgressView) -> Seq<char> {
    if p.total > 0 {
        human(p.downloaded) + " / "@ + human(p.total)
    } else if p.status == DownloadStatus::Completed {
        human(p.downloaded) + " (Done)"@
    } else {
        human(p.downloaded) + " / ?"@
    }
}

/// How much of a download is there.
pub fn progress_label(progress: &DownloadProgress) -> (res: String)
    ensures
        res@ == progress_text(progress@),
{
    let mut out = HumanBytes(progress.downloaded).to_string();
    if progress.total > 0 {
        out.append(" / ");
        out.append(HumanBytes(progress.total).to_string().as_str());
    } else if progress.status == DownloadStatus::Completed {
        out.append(" (Done)");
    } else {
        out.append(" / ?");
    }
    out
}

/// What can be done with a download, besides removing it.
#[derive(Debug, Clone, Copy, PartialEq, Eq, Structural)]
pub enum Control {
    Pause,
    Resume,
    Nothing,
}

/// What can be done with a download in a status.
pub open spec fn control_for(status: DownloadStatus) -> Control {
    match status {
        DownloadStatus::Downloading | DownloadStatus::Pending => Control::Pause,
        DownloadStatus::Paused | DownloadStatus::Error => Control::Resume,
        DownloadStatus::Completed => Control::Nothing,
    }
}

/// What can be done with a download in a status.
pub fn control_of(status: DownloadStatus) -> (res: Control)
    ensures
        res == control_for(status),
{
    match status {
        DownloadStatus::Downloading | DownloadStatus::Pending => Control::Pause,
        DownloadStatus::Paused | DownloadStatus::Error => Control::Resume,
        DownloadStatus::Completed => Control::Nothing,
    }
}

/// The URL and the path of a new download, where something was typed.
pub open spec fn typed_url(line: Seq<char>) -> Option<(Seq<char>, Seq<char>)> {
    if line.len() == 0 {
        None
    } else {
        Some((scan::trim_of(line), file_of_url(scan::trim_of(line))))
    }
}

/// The URL and the path of a new download, where something was typed.
pub fn read_url(line: &str) -> (res: Option<(String, String)>)
    ensures
        match res {
            Some((url, path)) => typed_url(line@) == Some((url@, path@)),
            None => typed_url(line@) is None,
        },
{
    if line.unicode_len() == 0 {
        return None;
    }
    let url = text::string_of(&scan::trim(&text::chars_of(line)));
    let path = target_path(url.as_str(), None);
    Some((url, path))
}

/// The tab of captured requests.
#[derive(Debug, Clone, Copy, PartialEq, Eq, Structural)]
pub struct CaptureTab {
    pub running: bool,
    /// The note that a driver is missing is shown.
    pub show_warning: bool,
}

impl CaptureTab {
    /// The tab when the window opens.
    pub fn new(driver_installed: bool) -> (res: Self)
        ensures
            !res.running,
            res.show_warning == !driver_installed,
    {
        CaptureTab { running: false, show_warning: !driver_installed }
    }

    /// The name of the state.
    pub fn status_label(&self) -> (res: &'static str)
        ensures
            res@ == if self.running {
                "Running"@
            } else {
                "Stopped"@
            },
    {
        if self.running {
            "Running"
        } else {
            "Stopped"
        }
    }

    /// Starts to capture, or shows the note where the driver is missing; nothing happens where
    /// requests are captured already.
    pub fn start(&mut self, driver_installed: bool) -> (res: bool)
        ensures
            res == (!old(self).running && driver_installed),
            *final(self) == if old(self).running {
                *old(self)
            } else if driver_installed {
                CaptureTab { running: true, ..*old(self) }
            } else {
                CaptureTab { show_warning: true, ..*old(self) }
            },
    {
        if self.running {
            return false;
        }
        if driver_installed {
            self.running = true;
            return true;
        }
        self.show_warning = true;
        false
    }

    /// Stops to capture.
    pub fn stop(&mut self)
        ensures
            *final(self) == (CaptureTab { running: false, ..*old(self) }),
    {
        self.running = false;
    }

    /// Puts the note away.
    pub fn dismiss(&mut self)
        ensures
            *final(self) == (CaptureTab { show_warning: false, ..*old(self) }),
    {
        self.show_warning = false;
    }
}

/// The two lines that show a captured request.
pub open spec fn request_text(r: RequestView) -> (Seq<char>, Seq<char>) {
    (
        part_or(r.method, "-"@) + " "@ + part_or(r.url, "-"@),
        endpoint(r.source_ip, r.source_port) + " -> "@ + endpoint(
            r.destination_ip,
            r.destination_port,
        ),
    )
}

/// The two lines that show a captured request.
pub fn request_label(r: &CapturedRequest) -> (res: (String, String))
    ensures
        (res.0@, res.1@) == request_text(r@),
{
    let mut head = part_text(&r.method, "-").to_owned();
    head.append(" ");
    head.append(part_text(&r.url, "-"));
    let mut ends = r.source_ip.clone();
    ends.append(":");
    ends.append(text::string_of(&number::to_decimal(r.source_port as u128)).as_str());
    ends.append(" -> ");
    ends.append(r.destination_ip.as_str());
    ends.append(":");
    ends.append(text::string_of(&number::to_decimal(r.destination_port as u128)).as_str());
    proof {
        assert(ends@ =~= request_text(r@).1);
    }
    (head, ends)
}

/// A download can be paused while it waits or runs, and resumed once it was paused or has failed; one
/// that is complete is left alone.
pub proof fn law_controls_follow_the_status(s: DownloadStatus)
    ensures
        control_for(s) == Control::Pause <==> s == DownloadStatus::Downloading || s
            == DownloadStatus::Pending,
        control_for(s) == Control::Resume <==> s == DownloadStatus::Paused || s
            == DownloadStatus::Error,
        control_for(s) == Control::Nothing <==> s == DownloadStatus::Completed,
{
}

/// Only what is being fetched has a speed.
pub proof fn law_only_what_moves_has_a_speed(p: ProgressView)
    ensures
        p.status == DownloadStatus::Downloading ==> speed_text(p) == human(p.speed) + "/s"@,
        p.status != DownloadStatus::Downloading ==> speed_text(p) == "-"@,
{
}

/// A size that is known is shown behind what is there; one that is not is told as such, or, where the
/// download is complete, left out.
pub proof fn law_unknown_sizes_are_told(p: ProgressView)
    ensures
        p.total > 0 ==> progress_text(p) == human(p.downloaded) + " / "@ + human(p.total),
        p.total == 0 && p.status == DownloadStatus::Completed ==> progress_text(p) == human(
            p.downloaded,
        ) + " (Done)"@,
        p.total == 0 && p.status != DownloadStatus::Completed ==> progress_text(p) == human(
            p.downloaded,
        ) + " / ?"@,
{
}

/// White space around a URL that was typed does not count, and its download goes to the file that it is
/// named after. Nothing is added where nothing was typed.
pub proof fn law_typed_urls_are_trimmed(
    before: Seq<char>,
    head: Seq<char>,
    name: Seq<char>,
    behind: Seq<char>,
)
    requires
        forall|i: int| 0 <= i < before.len() ==> scan::is_space(#[trigger] before[i]),
        forall|i: int| 0 <= i < behind.len() ==> scan::is_space(#[trigger] behind[i]),
        head.len() > 0 && !scan::is_space(head[0]),
        name.len() > 0 && !scan::is_space(name.last()),
        !name.contains('/'),
        !name.contains('?'),
    ensures
        typed_url(before + (head + seq!['/'] + name) + behind) == Some(
            (head + seq!['/'] + name, name),
        ),
        typed_url(Seq::empty()) is None,
{
    let url = head + seq!['/'] + name;
    assert(url[0] == head[0]);
    assert(url.last() == name.last());
    scan::law_trim_takes_white_space_off(before, url, behind);
    assert(!Seq::<char>::empty().contains('/'));
    crate::cli::law_files_are_named_as_their_url_ends(head, name, Seq::empty(), name);
}

/// A captured request is shown with its method and URL, and with both of its ends.
pub proof fn law_requests_are_shown_with_both_ends(r: RequestView)
    ensures
        r.method is Some && r.url is Some ==> request_text(r).0 == r.method->0 + " "@ + r.url->0,
        r.method is None && r.url is Some ==> request_text(r).0 == "-"@ + " "@ + r.url->0,
        r.method is Some && r.url is None ==> request_text(r).0 == r.method->0 + " "@ + "-"@,
        request_text(r).1 == (r.source_ip + ":"@ + number::decimal(r.source_port as nat)) + " -> "@ + (
        r.destination_ip + ":"@ + number::decimal(r.destination_port as nat)),
{
}

} // verus!
