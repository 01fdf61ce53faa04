//! Downloads and settings: what a queue holds and what a run is told.

use crate::path;
use crate::text;
use vstd::prelude::*;

verus! {

/// Where a download stands.
#[derive(Debug, Clone, Copy, PartialEq, Eq, Structural)]
pub enum DownloadStatus {
    Pending,
    Downloading,
    Paused,
    Completed,
    Error,
}

/// The name of a status.
pub open spec fn status_name(s: DownloadStatus) -> Seq<char> {
    match s {
        DownloadStatus::Pending => "Pending"@,
        DownloadStatus::Downloading => "Downloading"@,
        DownloadStatus::Paused => "Paused"@,
        DownloadStatus::Completed => "Completed"@,
        DownloadStatus::Error => "Error"@,
    }
}

impl DownloadStatus {
    /// The name of the status.
    pub fn name(&self) -> (res: &'static str)
        ensures
            res@ == status_name(*self),
    {
        match self {
            DownloadStatus::Pending => "Pending",
            DownloadStatus::Downloading => "Downloading",
            DownloadStatus::Paused => "Paused",
            DownloadStatus::Completed => "Completed",
            DownloadStatus::Error => "Error",
        }
    }
}

/// How a download is fetched.
#[derive(Debug, Clone, Copy, PartialEq, Eq, Structural, Default)]
pub enum DownloadKind {
    #[default]
    Http,
    Hls,
}

/// What a download holds.
#[derive(Debug, Clone, Copy, PartialEq, Eq, Structural, Default, Hash)]
pub enum DownloadCategory {
    #[default]
    Other,
    Video,
    Audio,
    Archive,
    Document,
    Image,
}

/// The name under which a category is shown.
pub open spec fn label_of(c: DownloadCategory) -> Seq<char> {
    match c {
        DownloadCategory::Other => "Other"@,
        DownloadCategory::Video => "Video"@,
        DownloadCategory::Audio => "Audio"@,
        DownloadCategory::Archive => "Archive"@,
        DownloadCategory::Document => "Document"@,
        DownloadCategory::Image => "Image"@,
    }
}

impl DownloadCategory {
    /// The name under which the category is shown.
    pub fn label(&self) -> (res: &'static str)
        ensures
            res@ == label_of(*self),
    {
        match self {
            DownloadCategory::Other => "Other",
            DownloadCategory::Video => "Video",
            DownloadCategory::Audio => "Audio",
            DownloadCategory::Archive => "Archive",
            DownloadCategory::Document => "Document",
            DownloadCategory::Image => "Image",
        }
    }

    /// All categories, in the order in which they are offered.
    pub fn all() -> (res: [DownloadCategory; 6])
        ensures
            res@ == seq![
                DownloadCategory::Other,
                DownloadCategory::Video,
                DownloadCategory::Audio,
                DownloadCategory::Archive,
                DownloadCategory::Document,
                DownloadCategory::Image,
            ],
    {
        [
            DownloadCategory::Other,
            DownloadCategory::Video,
            DownloadCategory::Audio,
            DownloadCategory::Archive,
            DownloadCategory::Document,
            DownloadCategory::Image,
        ]
    }
}

/// `all` lists every category once.
pub proof fn law_all_lists_every_category(c: DownloadCategory)
    ensures
        seq![
            DownloadCategory::Other,
            DownloadCategory::Video,
            DownloadCategory::Audio,
            DownloadCategory::Archive,
            DownloadCategory::Document,
            DownloadCategory::Image,
        ].contains(c),
        seq![
            DownloadCategory::Other,
            DownloadCategory::Video,
            DownloadCategory::Audio,
            DownloadCategory::Archive,
            DownloadCategory::Document,
            DownloadCategory::Image,
        ].no_duplicates(),
{
    let all = seq![
        DownloadCategory::Other,
        DownloadCategory::Video,
        DownloadCategory::Audio,
        DownloadCategory::Archive,
        DownloadCategory::Document,
        DownloadCategory::Image,
    ];
    assert(all[0] == DownloadCategory::Other);
    assert(all[1] == DownloadCategory::Video);
    assert(all[2] == DownloadCategory::Audio);
    assert(all[3] == DownloadCategory::Archive);
    assert(all[4] == DownloadCategory::Document);
    assert(all[5] == DownloadCategory::Image);
}

/// The text of an optional string.
pub open spec fn opt_text(o: Option<String>) -> Option<Seq<char>> {
    match o {
        Some(s) => Some(s@),
        None => None,
    }
}

/// The texts of some strings.
pub open spec fn texts(v: Seq<String>) -> Seq<Seq<char>> {
    v.map_values(|s: String| s@)
}

/// A copy of an optional string.
pub fn copy_opt(o: &Option<String>) -> (res: Option<String>)
    ensures
        opt_text(res) == opt_text(*o),
{
    match o {
        Some(s) => Some(s.clone()),
        None => None,
    }
}

/// A copy of some strings.
pub fn copy_texts(v: &Vec<String>) -> (res: Vec<String>)
    ensures
        texts(res@) == texts(v@),
{
    let mut out: Vec<String> = Vec::new();
    let mut i: usize = 0;
    while i < v.len()
        invariant
            i <= v@.len(),
            texts(out@) == texts(v@.take(i as int)),
        decreases v@.len() - i,
    {
        out.push(v[i].clone());
        proof {
            assert(texts(v@.take(i + 1)) =~= texts(v@.take(i as int)).push(v@[i as int]@));
            assert(texts(out@) =~= texts(v@.take(i as int)).push(v@[i as int]@));
        }
        i = i + 1;
    }
    proof {
        assert(v@.take(i as int) =~= v@);
    }
    out
}

/// What is done once a download is complete.
#[derive(Debug)]
pub struct PostDownloadAction {
    /// Move the file here.
    pub move_to: Option<String>,
    /// Run this command.
    pub run_command: Option<String>,
    /// Delete the snapshot.
    pub delete_warp: bool,
    /// Shut the machine down once the whole queue is idle and complete.
    pub shutdown_when_queue_empty: bool,
}

/// The content of a `PostDownloadAction`.
pub struct PostActionView {
    pub move_to: Option<Seq<char>>,
    pub run_command: Option<Seq<char>>,
    pub delete_warp: bool,
    pub shutdown_when_queue_empty: bool,
}

impl View for PostDownloadAction {
    type V = PostActionView;

    open spec fn view(&self) -> PostActionView {
        PostActionView {
            move_to: opt_text(self.move_to),
            run_command: opt_text(self.run_command),
            delete_warp: self.delete_warp,
            shutdown_when_queue_empty: self.shutdown_when_queue_empty,
        }
    }
}

/// Nothing is done once a download is complete.
pub open spec fn no_action() -> PostActionView {
    PostActionView {
        move_to: None,
        run_command: None,
        delete_warp: false,
        shutdown_when_queue_empty: false,
    }
}

impl Clone for PostDownloadAction {
    fn clone(&self) -> (res: Self)
        ensures
            res@ == self@,
    {
        PostDownloadAction {
            move_to: copy_opt(&self.move_to),
            run_command: copy_opt(&self.run_command),
            delete_warp: self.delete_warp,
            shutdown_when_queue_empty: self.shutdown_when_queue_empty,
        }
    }
}

impl Default for PostDownloadAction {
    fn default() -> (res: Self)
        ensures
            res@ == no_action(),
    {
        PostDownloadAction {
            move_to: None,
            run_command: None,
            delete_warp: false,
            shutdown_when_queue_empty: false,
        }
    }
}

/// A part of the day in which downloads may run: local time, start included, end excluded.
#[derive(Debug, Clone, Copy, PartialEq, Eq, Structural)]
pub struct ScheduleWindow {
    pub start_hour: u8,
    pub start_minute: u8,
    pub end_hour: u8,
    pub end_minute: u8,
}

/// Settings of the whole program.
#[derive(Debug)]
pub struct AppSettings {
    /// The port of the local daemon.
    pub daemon_port: u16,
    /// The most bytes per second over all downloads.
    pub global_max_speed_bytes: Option<u64>,
    /// When downloads may run; any time where there is none.
    pub schedule_windows: Vec<ScheduleWindow>,
    /// The most workers at a time; fewer are used where the machine is busy.
    pub max_workers: usize,
    /// Whether notifications are shown.
    pub allow_notifications: bool,
}

/// The most workers at a time, where nothing else is set.
pub const DEFAULT_MAX_WORKERS: usize = 32;

/// The port of the local daemon, where nothing else is set.
pub const DEFAULT_DAEMON_PORT: u16 = 9844;

/// The most workers at a time, where nothing else is set.
pub fn default_max_workers() -> (res: usize)
    ensures
        res == DEFAULT_MAX_WORKERS,
{
    DEFAULT_MAX_WORKERS
}

/// The port of the local daemon, where nothing else is set.
pub fn default_daemon_port() -> (res: u16)
    ensures
        res == DEFAULT_DAEMON_PORT,
{
    DEFAULT_DAEMON_PORT
}

/// The content of an `AppSettings`.
pub struct SettingsView {
    pub daemon_port: u16,
    pub global_max_speed_bytes: Option<u64>,
    pub schedule_windows: Seq<ScheduleWindow>,
    pub max_workers: usize,
    pub allow_notifications: bool,
}

impl View for AppSettings {
    type V = SettingsView;

    open spec fn view(&self) -> SettingsView {
        SettingsView {
            daemon_port: self.daemon_port,
            global_max_speed_bytes: self.global_max_speed_bytes,
            schedule_windows: self.schedule_windows@,
            max_workers: self.max_workers,
            allow_notifications: self.allow_notifications,
        }
    }
}

/// The settings where nothing else is set.
pub open spec fn default_settings() -> SettingsView {
    SettingsView {
        daemon_port: DEFAULT_DAEMON_PORT,
        global_max_speed_bytes: None,
        schedule_windows: Seq::empty(),
        max_workers: DEFAULT_MAX_WORKERS,
        allow_notifications: true,
    }
}

impl Clone for AppSettings {
    fn clone(&self) -> (res: Self)
        ensures
            res@ == self@,
    {
        let mut windows: Vec<ScheduleWindow> = Vec::new();
        let mut i: usize = 0;
        while i < self.schedule_windows.len()
            invariant
                i <= self.schedule_windows@.len(),
                windows@ == self.schedule_windows@.take(i as int),
            decreases self.schedule_windows@.len() - i,
        {
            windows.push(self.schedule_windows[i]);
            i = i + 1;
            assert(windows@ =~= self.schedule_windows@.take(i as int));
        }
        assert(windows@ =~= self.schedule_windows@);
        AppSettings {
            daemon_port: self.daemon_port,
            global_max_speed_bytes: self.global_max_speed_bytes,
            schedule_windows: windows,
            max_workers: self.max_workers,
            allow_notifications: self.allow_notifications,
        }
    }
}

impl Default for AppSettings {
    fn default() -> (res: Self)
        ensures
            res@ == default_settings(),
    {
        AppSettings {
            daemon_port: default_daemon_port(),
            global_max_speed_bytes: None,
            schedule_windows: Vec::new(),
            max_workers: default_max_workers(),
            allow_notifications: true,
        }
    }
}

/// A download of the queue.
#[derive(Debug)]
pub struct DownloadEntry {
    pub id: String,
    pub url: String,
    pub target_path: String,
    pub status: DownloadStatus,
    pub priority: u8,
    pub proxy: Option<String>,
    pub checksum: Option<String>,
    pub max_speed_bytes: Option<u64>,
    pub error_message: Option<String>,
    pub kind: DownloadKind,
    pub category: DownloadCategory,
    pub hls_quality: Option<String>,
    pub hls_concurrent: Option<u32>,
    /// The moment, in UTC and ISO 8601, before which the download does not start.
    pub scheduled_at: Option<String>,
    pub mirror_urls: Vec<String>,
    pub post_action: PostDownloadAction,
}

/// The content of a `DownloadEntry`.
pub struct EntryView {
    pub id: Seq<char>,
    pub url: Seq<char>,
    pub target_path: Seq<char>,
    pub status: DownloadStatus,
    pub priority: u8,
    pub proxy: Option<Seq<char>>,
    pub checksum: Option<Seq<char>>,
    pub max_speed_bytes: Option<u64>,
    pub error_message: Option<Seq<char>>,
    pub kind: DownloadKind,
    pub category: DownloadCategory,
    pub hls_quality: Option<Seq<char>>,
    pub hls_concurrent: Option<u32>,
    pub scheduled_at: Option<Seq<char>>,
    pub mirror_urls: Seq<Seq<char>>,
    pub post_action: PostActionView,
}

impl View for DownloadEntry {
    type V = EntryView;

    open spec fn view(&self) -> EntryView {
        EntryView {
            id: self.id@,
            url: self.url@,
            target_path: self.target_path@,
            status: self.status,
            priority: self.priority,
            proxy: opt_text(self.proxy),
            checksum: opt_text(self.checksum),
            max_speed_bytes: self.max_speed_bytes,
            error_message: opt_text(self.error_message),
            kind: self.kind,
            category: self.category,
            hls_quality: opt_text(self.hls_quality),
            hls_concurrent: self.hls_concurrent,
            scheduled_at: opt_text(self.scheduled_at),
            mirror_urls: texts(self.mirror_urls@),
            post_action: self.post_action@,
        }
    }
}

impl Clone for DownloadEntry {
    fn clone(&self) -> (res: Self)
        ensures
            res@ == self@,
    {
        DownloadEntry {
            id: self.id.clone(),
            url: self.url.clone(),
            target_path: self.target_path.clone(),
            status: self.status,
            priority: self.priority,
            proxy: copy_opt(&self.proxy),
            checksum: copy_opt(&self.checksum),
            max_speed_bytes: self.max_speed_bytes,
            error_message: copy_opt(&self.error_message),
            kind: self.kind,
            category: self.category,
            hls_quality: copy_opt(&self.hls_quality),
            hls_concurrent: self.hls_concurrent,
            scheduled_at: copy_opt(&self.scheduled_at),
            mirror_urls: copy_texts(&self.mirror_urls),
            post_action: self.post_action.clone(),
        }
    }
}

/// The category of a lower-case file extension.
pub open spec fn category_of(ext: Seq<char>) -> DownloadCategory {
    if ext == "mp4"@ || ext == "mkv"@ || ext == "avi"@ || ext == "mov"@ || ext == "webm"@ || ext
        == "ts"@ || ext == "m3u8"@ || ext == "flv"@ {
        DownloadCategory::Video
    } else if ext == "mp3"@ || ext == "flac"@ || ext == "wav"@ || ext == "aac"@ || ext == "ogg"@
        || ext == "m4a"@ {
        DownloadCategory::Audio
    } else if ext == "zip"@ || ext == "rar"@ || ext == "7z"@ || ext == "tar"@ || ext == "gz"@ || ext
        == "bz2"@ || ext == "xz"@ {
        DownloadCategory::Archive
    } else if ext == "pdf"@ || ext == "doc"@ || ext == "docx"@ || ext == "txt"@ || ext == "md"@
        || ext == "epub"@ {
        DownloadCategory::Document
    } else if ext == "jpg"@ || ext == "jpeg"@ || ext == "png"@ || ext == "gif"@ || ext == "webp"@
        || ext == "svg"@ || ext == "bmp"@ {
        DownloadCategory::Image
    } else {
        DownloadCategory::Other
    }
}

/// The extension that tells the category: that of the path, or else that of the URL without its
/// query.
pub open spec fn telling_extension(url: Seq<char>, target: Seq<char>) -> Seq<char> {
    match path::extension_of(target) {
        Some(ext) => ext,
        None => text::after_last(text::before_first(url, '?'), '.'),
    }
}

/// Guesses what a download holds, from the extension of its path or its URL.
pub fn infer_category(url: &str, path: &str) -> (res: DownloadCategory)
    ensures
        res == category_of(text::ascii_lower(telling_extension(url@, path@))),
{
    let raw: Vec<char> = match path::extension(path) {
        Some(ext) => text::chars_of(ext.as_str()),
        None => {
            let u = text::head_before(&text::chars_of(url), '?');
            text::tail_after(&u, '.')
        },
    };
    let ext_string = text::string_of(&text::to_ascii_lower(&raw));
    let ext = ext_string.as_str();
    if text::eq(ext, "mp4") || text::eq(ext, "mkv") || text::eq(ext, "avi") || text::eq(ext, "mov")
        || text::eq(ext, "webm") || text::eq(ext, "ts") || text::eq(ext, "m3u8") || text::eq(
        ext,
        "flv",
    ) {
        DownloadCategory::Video
    } else if text::eq(ext, "mp3") || text::eq(ext, "flac") || text::eq(ext, "wav") || text::eq(
        ext,
        "aac",
    ) || text::eq(ext, "ogg") || text::eq(ext, "m4a") {
        DownloadCategory::Audio
    } else if text::eq(ext, "zip") || text::eq(ext, "rar") || text::eq(ext, "7z") || text::eq(
        ext,
        "tar",
    ) || text::eq(ext, "gz") || text::eq(ext, "bz2") || text::eq(ext, "xz") {
        DownloadCategory::Archive
    } else if text::eq(ext, "pdf") || text::eq(ext, "doc") || text::eq(ext, "docx") || text::eq(
        ext,
        "txt",
    ) || text::eq(ext, "md") || text::eq(ext, "epub") {
        DownloadCategory::Document
    } else if text::eq(ext, "jpg") || text::eq(ext, "jpeg") || text::eq(ext, "png") || text::eq(
        ext,
        "gif",
    ) || text::eq(ext, "webp") || text::eq(ext, "svg") || text::eq(ext, "bmp") {
        DownloadCategory::Image
    } else {
        DownloadCategory::Other
    }
}

/// A plain download that waits to be run.
pub open spec fn http_entry(id: Seq<char>, url: Seq<char>, target_path: Seq<char>) -> EntryView {
    EntryView {
        id,
        url,
        target_path,
        status: DownloadStatus::Pending,
        priority: 0,
        proxy: None,
        checksum: None,
        max_speed_bytes: None,
        error_message: None,
        kind: DownloadKind::Http,
        category: category_of(text::ascii_lower(telling_extension(url, target_path))),
        hls_quality: None,
        hls_concurrent: None,
        scheduled_at: None,
        mirror_urls: Seq::empty(),
        post_action: no_action(),
    }
}

/// A stream that waits to be run.
pub open spec fn hls_entry(
    id: Seq<char>,
    url: Seq<char>,
    target_path: Seq<char>,
    quality: Option<Seq<char>>,
    concurrent: Option<u32>,
) -> EntryView {
    EntryView {
        kind: DownloadKind::Hls,
        category: DownloadCategory::Video,
        hls_quality: quality,
        hls_concurrent: concurrent,
        ..http_entry(id, url, target_path)
    }
}

impl DownloadEntry {
    /// A plain download that waits to be run.
    pub fn new_http(id: String, url: String, target_path: String) -> (res: Self)
        ensures
            res@ == http_entry(id@, url@, target_path@),
            res@.id == id@ && res@.url == url@ && res@.target_path == target_path@,
            res.status == DownloadStatus::Pending && res.priority == 0 && res.kind
                == DownloadKind::Http,
            res.proxy is None && res.checksum is None && res.max_speed_bytes is None,
            res.error_message is None && res.scheduled_at is None && res@.mirror_urls.len() == 0,
    {
        let category = infer_category(url.as_str(), target_path.as_str());
        let res = DownloadEntry {
            id,
            url,
            target_path,
            status: DownloadStatus::Pending,
            priority: 0,
            proxy: None,
            checksum: None,
            max_speed_bytes: None,
            error_message: None,
            kind: DownloadKind::Http,
            category,
            hls_quality: None,
            hls_concurrent: None,
            scheduled_at: None,
            mirror_urls: Vec::new(),
            post_action: PostDownloadAction::default(),
        };
        assert(res@.mirror_urls =~= Seq::empty());
        res
    }

    /// A stream that waits to be run.
    pub fn new_hls(
        id: String,
        url: String,
        target_path: String,
        quality: Option<String>,
        concurrent: Option<u32>,
    ) -> (res: Self)
        ensures
            res@ == hls_entry(id@, url@, target_path@, opt_text(quality), concurrent),
            res@.id == id@ && res@.url == url@ && res@.target_path == target_path@,
            res.status == DownloadStatus::Pending && res.priority == 0 && res.kind
                == DownloadKind::Hls,
            res.category == DownloadCategory::Video && res.hls_quality == quality
                && res.hls_concurrent == concurrent,
            res.proxy is None && res.checksum is None && res.max_speed_bytes is None,
            res.error_message is None && res.scheduled_at is None && res@.mirror_urls.len() == 0,
    {
        let base = Self::new_http(id, url, target_path);
        DownloadEntry {
            kind: DownloadKind::Hls,
            category: DownloadCategory::Video,
            hls_quality: quality,
            hls_concurrent: concurrent,
            ..base
        }
    }
}

/// The letters of the extensions.
proof fn lemma_extension_letters()
    ensures
        "mp4"@.len() == 3 && "mp4"@[0] == 'm' && "mp4"@[1] == 'p' && "mp4"@[2] == '4',
        "mkv"@.len() == 3 && "mkv"@[0] == 'm' && "mkv"@[1] == 'k' && "mkv"@[2] == 'v',
        "avi"@.len() == 3 && "avi"@[0] == 'a' && "avi"@[1] == 'v' && "avi"@[2] == 'i',
        "mov"@.len() == 3 && "mov"@[0] == 'm' && "mov"@[1] == 'o' && "mov"@[2] == 'v',
        "webm"@.len() == 4 && "webm"@[0] == 'w' && "webm"@[1] == 'e' && "webm"@[2] == 'b' && "webm"@[3] == 'm',
        "ts"@.len() == 2 && "ts"@[0] == 't' && "ts"@[1] == 's',
        "m3u8"@.len() == 4 && "m3u8"@[0] == 'm' && "m3u8"@[1] == '3' && "m3u8"@[2] == 'u' && "m3u8"@[3] == '8',
        "flv"@.len() == 3 && "flv"@[0] == 'f' && "flv"@[1] == 'l' && "flv"@[2] == 'v',
        "mp3"@.len() == 3 && "mp3"@[0] == 'm' && "mp3"@[1] == 'p' && "mp3"@[2] == '3',
        "flac"@.len() == 4 && "flac"@[0] == 'f' && "flac"@[1] == 'l' && "flac"@[2] == 'a' && "flac"@[3] == 'c',
        "wav"@.len() == 3 && "wav"@[0] == 'w' && "wav"@[1] == 'a' && "wav"@[2] == 'v',
        "aac"@.len() == 3 && "aac"@[0] == 'a' && "aac"@[1] == 'a' && "aac"@[2] == 'c',
        "ogg"@.len() == 3 && "ogg"@[0] == 'o' && "ogg"@[1] == 'g' && "ogg"@[2] == 'g',
        "m4a"@.len() == 3 && "m4a"@[0] == 'm' && "m4a"@[1] == '4' && "m4a"@[2] == 'a',
        "zip"@.len() == 3 && "zip"@[0] == 'z' && "zip"@[1] == 'i' && "zip"@[2] == 'p',
        "rar"@.len() == 3 && "rar"@[0] == 'r' && "rar"@[1] == 'a' && "rar"@[2] == 'r',
        "7z"@.len() == 2 && "7z"@[0] == '7' && "7z"@[1] == 'z',
        "tar"@.len() == 3 && "tar"@[0] == 't' && "tar"@[1] == 'a' && "tar"@[2] == 'r',
        "gz"@.len() == 2 && "gz"@[0] == 'g' && "gz"@[1] == 'z',
        "bz2"@.len() == 3 && "bz2"@[0] == 'b' && "bz2"@[1] == 'z' && "bz2"@[2] == '2',
        "xz"@.len() == 2 && "xz"@[0] == 'x' && "xz"@[1] == 'z',
        "pdf"@.len() == 3 && "pdf"@[0] == 'p' && "pdf"@[1] == 'd' && "pdf"@[2] == 'f',
        "doc"@.len() == 3 && "doc"@[0] == 'd' && "doc"@[1] == 'o' && "doc"@[2] == 'c',
        "docx"@.len() == 4 && "docx"@[0] == 'd' && "docx"@[1] == 'o' && "docx"@[2] == 'c' && "docx"@[3] == 'x',
        "txt"@.len() == 3 && "txt"@[0] == 't' && "txt"@[1] == 'x' && "txt"@[2] == 't',
        "md"@.len() == 2 && "md"@[0] == 'm' && "md"@[1] == 'd',
        "epub"@.len() == 4 && "epub"@[0] == 'e' && "epub"@[1] == 'p' && "epub"@[2] == 'u' && "epub"@[3] == 'b',
        "jpg"@.len() == 3 && "jpg"@[0] == 'j' && "jpg"@[1] == 'p' && "jpg"@[2] == 'g',
        "jpeg"@.len() == 4 && "jpeg"@[0] == 'j' && "jpeg"@[1] == 'p' && "jpeg"@[2] == 'e' && "jpeg"@[3] == 'g',
        "png"@.len() == 3 && "png"@[0] == 'p' && "png"@[1] == 'n' && "png"@[2] == 'g',
        "gif"@.len() == 3 && "gif"@[0] == 'g' && "gif"@[1] == 'i' && "gif"@[2] == 'f',
        "webp"@.len() == 4 && "webp"@[0] == 'w' && "webp"@[1] == 'e' && "webp"@[2] == 'b' && "webp"@[3] == 'p',
        "svg"@.len() == 3 && "svg"@[0] == 's' && "svg"@[1] == 'v' && "svg"@[2] == 'g',
        "bmp"@.len() == 3 && "bmp"@[0] == 'b' && "bmp"@[1] == 'm' && "bmp"@[2] == 'p',
{
    reveal_strlit("mp4");
    reveal_strlit("mkv");
    reveal_strlit("avi");
    reveal_strlit("mov");
    reveal_strlit("webm");
    reveal_strlit("ts");
    reveal_strlit("m3u8");
    reveal_strlit("flv");
    reveal_strlit("mp3");
    reveal_strlit("flac");
    reveal_strlit("wav");
    reveal_strlit("aac");
    reveal_strlit("ogg");
    reveal_strlit("m4a");
    reveal_strlit("zip");
    reveal_strlit("rar");
    reveal_strlit("7z");
    reveal_strlit("tar");
    reveal_strlit("gz");
    reveal_strlit("bz2");
    reveal_strlit("xz");
    reveal_strlit("pdf");
    reveal_strlit("doc");
    reveal_strlit("docx");
    reveal_strlit("txt");
    reveal_strlit("md");
    reveal_strlit("epub");
    reveal_strlit("jpg");
    reveal_strlit("jpeg");
    reveal_strlit("png");
    reveal_strlit("gif");
    reveal_strlit("webp");
    reveal_strlit("svg");
    reveal_strlit("bmp");
}

/// The extension tells the category: these extensions are those of its files, and no others.
pub proof fn law_categories_have_their_extensions(ext: Seq<char>)
    ensures
        category_of(ext) == DownloadCategory::Video <==> ext == "mp4"@ || ext == "mkv"@ || ext
            == "avi"@ || ext == "mov"@ || ext == "webm"@ || ext == "ts"@ || ext == "m3u8"@ || ext
            == "flv"@,
        category_of(ext) == DownloadCategory::Audio <==> ext == "mp3"@ || ext == "flac"@ || ext
            == "wav"@ || ext == "aac"@ || ext == "ogg"@ || ext == "m4a"@,
        category_of(ext) == DownloadCategory::Archive <==> ext == "zip"@ || ext == "rar"@ || ext
            == "7z"@ || ext == "tar"@ || ext == "gz"@ || ext == "bz2"@ || ext == "xz"@,
        category_of(ext) == DownloadCategory::Document <==> ext == "pdf"@ || ext == "doc"@ || ext
            == "docx"@ || ext == "txt"@ || ext == "md"@ || ext == "epub"@,
        category_of(ext) == DownloadCategory::Image <==> ext == "jpg"@ || ext == "jpeg"@ || ext
            == "png"@ || ext == "gif"@ || ext == "webp"@ || ext == "svg"@ || ext == "bmp"@,
{
    lemma_extension_letters();
}

/// The extension of the path tells the category, whatever the URL is; where the path has none, that of
/// the URL does, and what stands behind a question mark does not count. Capitals do not count either.
pub proof fn law_the_path_tells_before_the_url(
    dir: Seq<char>,
    stem: Seq<char>,
    ext: Seq<char>,
    url: Seq<char>,
    head: Seq<char>,
    query: Seq<char>,
)
    requires
        stem.len() > 0,
        !stem.contains('/'),
        !stem.contains('.'),
        !ext.contains('/'),
        !ext.contains('.'),
        !ext.contains('?'),
        !head.contains('?'),
    ensures
        telling_extension(url, dir + seq!['/'] + (stem + seq!['.'] + ext)) == ext,
        telling_extension(url, stem + seq!['.'] + ext) == ext,
        telling_extension(
            head + seq!['.'] + ext + seq!['?'] + query,
            dir + seq!['/'] + stem,
        ) == ext,
        telling_extension(head + seq!['.'] + ext, dir + seq!['/'] + stem) == ext,
{
    if stem == seq!['.'] {
        assert(stem[0] == '.');
    }
    path::law_extensions_stand_behind_the_last_dot(dir, stem, ext, ext);
    let u = head + seq!['.'] + ext;
    assert(!u.contains('?')) by {
        if u.contains('?') {
            let i = choose|i: int| 0 <= i < u.len() && u[i] == '?';
            if i < head.len() {
                assert(head[i] == '?');
            } else if i > head.len() {
                assert(ext[i - head.len() - 1] == '?');
            }
        }
    }
    text::law_parts_around_a_character(u, '?', query);
    text::law_parts_around_a_character(head, '.', ext);
}

/// Nothing is done after a download where nothing was asked for.
pub proof fn law_nothing_follows_by_default(id: Seq<char>, url: Seq<char>, target: Seq<char>)
    ensures
        ({
            let p = http_entry(id, url, target).post_action;
            p.move_to is None && p.run_command is None && !p.delete_warp
                && !p.shutdown_when_queue_empty
        }),
{
}

/// A stream differs from a plain download in its kind, its category and its choices alone.
pub proof fn law_streams_are_videos(
    id: Seq<char>,
    url: Seq<char>,
    target: Seq<char>,
    quality: Option<Seq<char>>,
    concurrent: Option<u32>,
)
    ensures
        ({
            let e = hls_entry(id, url, target, quality, concurrent);
            let h = http_entry(id, url, target);
            &&& e.kind == DownloadKind::Hls && h.kind == DownloadKind::Http
            &&& e.category == DownloadCategory::Video
            &&& e.hls_quality == quality && e.hls_concurrent == concurrent
            &&& h.hls_quality is None && h.hls_concurrent is None
            &&& e == (EntryView {
                kind: e.kind,
                category: e.category,
                hls_quality: quality,
                hls_concurrent: concurrent,
                ..h
            })
            &&& h.status == DownloadStatus::Pending && h.priority == 0
            &&& h.category == category_of(text::ascii_lower(telling_extension(url, target)))
        }),
{
}

} // verus!
