//! The queue as a table: rows with a primary key, and how they are stored.

use crate::download_registry::entries::{
    RegistryError, by_priority, distinct_ids, entry_views, entry_with, find, found,
    has_id, not_completed, place_of, search_entries, sort_by_priority, unfinished,
};
use crate::download_registry::json::{
    inserted, lemma_filter_distinct, lemma_push_distinct, lemma_remove_distinct,
    lemma_update_distinct, removed,
};
use crate::path;
use crate::text;
use crate::types::{
    AppSettings, DownloadCategory, DownloadEntry, DownloadKind, DownloadStatus, EntryView,
    PostActionView, PostDownloadAction, SettingsView, copy_opt, default_settings, no_action,
    opt_text, texts,
};
use vstd::prelude::*;

verus! {

/// The speed limit of the entry can be stored.
pub open spec fn storable(e: EntryView) -> bool {
    e.max_speed_bytes matches Some(m) ==> m <= i64::MAX
}

/// The text of an optional search.
pub open spec fn query(search: Option<&str>) -> Option<Seq<char>> {
    match search {
        Some(q) => Some(q@),
        None => None,
    }
}

/// A table of downloads.
pub trait DownloadRegistry: Sized {
    /// The rows, in the order in which they were added; no id occurs twice.
    spec fn rows(&self) -> Seq<EntryView>;

    /// Adds a row.
    fn add(&mut self, entry: DownloadEntry) -> (res: Result<(), RegistryError>)
        requires
            distinct_ids(old(self).rows()),
        ensures
            distinct_ids(final(self).rows()),
            res == if !storable(entry@) {
                Err::<(), RegistryError>(RegistryError::SpeedTooLarge)
            } else if has_id(old(self).rows(), entry@.id) {
                Err(RegistryError::DuplicateId)
            } else {
                Ok(())
            },
            final(self).rows() == if res is Ok {
                old(self).rows().push(entry@)
            } else {
                old(self).rows()
            },
    ;

    /// The row with the id.
    fn get(&self, id: &str) -> (res: Option<DownloadEntry>)
        requires
            distinct_ids(self.rows()),
        ensures
            match res {
                Some(e) => entry_with(self.rows(), id@) == Some(e@),
                None => entry_with(self.rows(), id@) is None,
            },
    ;

    /// Takes the row with the id out.
    fn remove(&mut self, id: &str) -> (res: Option<DownloadEntry>)
        requires
            distinct_ids(old(self).rows()),
        ensures
            distinct_ids(final(self).rows()),
            final(self).rows() == removed(old(self).rows(), id@),
            match res {
                Some(e) => entry_with(old(self).rows(), id@) == Some(e@),
                None => entry_with(old(self).rows(), id@) is None,
            },
    ;

    /// Sets the status of the row with the id.
    fn update_status(&mut self, id: &str, status: DownloadStatus) -> (res: Result<
        (),
        RegistryError,
    >)
        requires
            distinct_ids(old(self).rows()),
        ensures
            distinct_ids(final(self).rows()),
            match entry_with(old(self).rows(), id@) {
                Some(e) => res is Ok && final(self).rows() == inserted(
                    old(self).rows(),
                    EntryView { status, ..e },
                ),
                None => res == Err::<(), RegistryError>(RegistryError::NotFound)
                    && final(self).rows() == old(self).rows(),
            },
    ;

    /// Replaces the row with the id by one that has the same id.
    fn update(&mut self, id: &str, entry: DownloadEntry) -> (res: Result<(), RegistryError>)
        requires
            distinct_ids(old(self).rows()),
        ensures
            distinct_ids(final(self).rows()),
            res == if entry@.id != id@ {
                Err::<(), RegistryError>(RegistryError::IdMismatch)
            } else if !storable(entry@) {
                Err(RegistryError::SpeedTooLarge)
            } else if !has_id(old(self).rows(), id@) {
                Err(RegistryError::NotFound)
            } else {
                Ok(())
            },
            final(self).rows() == if res is Ok {
                inserted(old(self).rows(), entry@)
            } else {
                old(self).rows()
            },
    ;

    /// All rows, those with higher priority first, then those that were added first.
    fn list(&self) -> (res: Vec<DownloadEntry>)
        ensures
            entry_views(res@) == by_priority(self.rows()),
    ;

    /// The rows that are not complete, in the same order.
    fn list_not_completed(&self) -> (res: Vec<DownloadEntry>)
        ensures
            entry_views(res@) == by_priority(self.rows().filter(|e: EntryView| unfinished(e))),
    ;

    /// The rows that have the category and hold the text, in the same order.
    fn list_filtered(&self, category: Option<DownloadCategory>, search: Option<&str>) -> (res: Vec<
        DownloadEntry,
    >)
        ensures
            entry_views(res@) == by_priority(self.rows()).filter(
                |e: EntryView| found(e, category, query(search)),
            ),
    ;

    /// Takes the completed rows out and says how many they were.
    fn clean_completed(&mut self) -> (res: usize)
        requires
            distinct_ids(old(self).rows()),
        ensures
            distinct_ids(final(self).rows()),
            final(self).rows() == old(self).rows().filter(|e: EntryView| unfinished(e)),
            res == old(self).rows().len() - final(self).rows().len(),
    ;
}

/// A table of downloads in memory.
#[derive(Debug)]
pub struct Repository {
    /// The rows, in the order in which they were added.
    pub entries: Vec<DownloadEntry>,
    /// The settings, where some were saved.
    pub settings: Option<AppSettings>,
}

/// The settings that hold: those that were saved, or the default ones.
pub open spec fn settings_of(saved: Option<AppSettings>) -> SettingsView {
    match saved {
        Some(s) => s@,
        None => default_settings(),
    }
}

impl Repository {
    /// A table without rows.
    pub fn new() -> (res: Self)
        ensures
            res.rows().len() == 0,
            distinct_ids(res.rows()),
            settings_of(res.settings) == default_settings(),
    {
        Repository { entries: Vec::new(), settings: None }
    }

    /// The settings that hold.
    pub fn get_settings(&self) -> (res: AppSettings)
        ensures
            res@ == settings_of(self.settings),
    {
        match &self.settings {
            Some(s) => s.clone(),
            None => AppSettings::default(),
        }
    }

    /// Saves the settings.
    pub fn save_settings(&mut self, settings: &AppSettings)
        ensures
            settings_of(final(self).settings) == settings@,
            final(self).entries == old(self).entries,
    {
        self.settings = Some(settings.clone());
    }

    /// Whether the table has no rows.
    pub fn is_empty(&self) -> (res: bool)
        ensures
            res == (self.rows().len() == 0),
    {
        self.entries.len() == 0
    }

    /// Changes the advanced settings of the row with the id.
    pub fn update_advanced(
        &mut self,
        id: &str,
        priority: Option<u8>,
        proxy: Option<String>,
        checksum: Option<String>,
        max_speed_bytes: Option<u64>,
    ) -> (res: Result<(), RegistryError>)
        requires
            distinct_ids(old(self).rows()),
        ensures
            distinct_ids(final(self).rows()),
            final(self).settings == old(self).settings,
            match entry_with(old(self).rows(), id@) {
                Some(e) => {
                    let changed = crate::download_registry::entries::advanced(
                        e,
                        priority,
                        opt_text(proxy),
                        opt_text(checksum),
                        max_speed_bytes,
                    );
                    if storable(changed) {
                        res is Ok && final(self).rows() == inserted(old(self).rows(), changed)
                    } else {
                        res == Err::<(), RegistryError>(RegistryError::SpeedTooLarge)
                            && final(self).rows() == old(self).rows()
                    }
                },
                None => res == Err::<(), RegistryError>(RegistryError::NotFound)
                    && final(self).rows() == old(self).rows(),
            },
    {
        match self.get(id) {
            Some(e) => {
                let mut entry = e;
                proof {
                    let k = place_of(self.rows(), id@);
                    assert(crate::download_registry::entries::is_at(self.rows(), id@, k));
                }
                crate::download_registry::entries::apply_advanced(
                    &mut entry,
                    priority,
                    proxy,
                    checksum,
                    max_speed_bytes,
                );
                self.update(id, entry)
            },
            None => Err(RegistryError::NotFound),
        }
    }
}

/// Whether the speed limit of an entry can be stored.
fn is_storable(entry: &DownloadEntry) -> (res: bool)
    ensures
        res == storable(entry@),
{
    match entry.max_speed_bytes {
        Some(m) => m <= 0x7fff_ffff_ffff_ffff,
        None => true,
    }
}

impl DownloadRegistry for Repository {
    open spec fn rows(&self) -> Seq<EntryView> {
        entry_views(self.entries@)
    }

    fn add(&mut self, entry: DownloadEntry) -> (res: Result<(), RegistryError>)
        ensures
            final(self).settings == old(self).settings,
    {
        if !is_storable(&entry) {
            return Err(RegistryError::SpeedTooLarge);
        }
        if find(&self.entries, entry.id.as_str()).is_some() {
            return Err(RegistryError::DuplicateId);
        }
        self.entries.push(entry);
        proof {
            assert(self.rows() =~= old(self).rows().push(entry@));
            lemma_push_distinct(old(self).rows(), entry@);
        }
        Ok(())
    }

    fn get(&self, id: &str) -> (res: Option<DownloadEntry>) {
        match find(&self.entries, id) {
            Some(k) => {
                assert(self.rows()[k as int] == self.entries@[k as int]@);
                Some(self.entries[k].clone())
            },
            None => None,
        }
    }

    fn remove(&mut self, id: &str) -> (res: Option<DownloadEntry>)
        ensures
            final(self).settings == old(self).settings,
    {
        match find(&self.entries, id) {
            Some(k) => {
                let e = self.entries.remove(k);
                proof {
                    assert(self.rows() =~= old(self).rows().remove(k as int));
                    lemma_remove_distinct(old(self).rows(), k as int);
                    assert(old(self).rows()[k as int] == e@);
                }
                Some(e)
            },
            None => None,
        }
    }

    fn update_status(&mut self, id: &str, status: DownloadStatus) -> (res: Result<
        (),
        RegistryError,
    >)
        ensures
            final(self).settings == old(self).settings,
    {
        match find(&self.entries, id) {
            Some(k) => {
                let mut e = self.entries[k].clone();
                e.status = status;
                self.entries.set(k, e);
                proof {
                    assert(old(self).rows()[k as int] == old(self).entries@[k as int]@);
                    assert(self.rows() =~= old(self).rows().update(k as int, e@));
                    lemma_update_distinct(old(self).rows(), k as int, e@);
                }
                Ok(())
            },
            None => Err(RegistryError::NotFound),
        }
    }

    fn update(&mut self, id: &str, entry: DownloadEntry) -> (res: Result<(), RegistryError>)
        ensures
            final(self).settings == old(self).settings,
    {
        if !text::eq(entry.id.as_str(), id) {
            return Err(RegistryError::IdMismatch);
        }
        if !is_storable(&entry) {
            return Err(RegistryError::SpeedTooLarge);
        }
        match find(&self.entries, id) {
            Some(k) => {
                self.entries.set(k, entry);
                proof {
                    assert(self.rows() =~= old(self).rows().update(k as int, entry@));
                    lemma_update_distinct(old(self).rows(), k as int, entry@);
                }
                Ok(())
            },
            None => Err(RegistryError::NotFound),
        }
    }

    fn list(&self) -> (res: Vec<DownloadEntry>) {
        sort_by_priority(&self.entries)
    }

    fn list_not_completed(&self) -> (res: Vec<DownloadEntry>) {
        sort_by_priority(&not_completed(&self.entries))
    }

    fn list_filtered(&self, category: Option<DownloadCategory>, search: Option<&str>) -> (res: Vec<
        DownloadEntry,
    >) {
        let all = sort_by_priority(&self.entries);
        let res = search_entries(&all, category, search);
        proof {
            let a = |e: EntryView|
                found(
                    e,
                    category,
                    match search {
                        Some(q) => Some(q@),
                        None => None,
                    },
                );
            let b = |e: EntryView| found(e, category, query(search));
            assert(a =~= b);
        }
        res
    }

    fn clean_completed(&mut self) -> (res: usize)
        ensures
            final(self).settings == old(self).settings,
    {
        let before: usize = self.entries.len();
        let kept = not_completed(&self.entries);
        proof {
            lemma_filter_distinct(self.rows(), |e: EntryView| unfinished(e));
            assert(entry_views(kept@).len() == kept@.len());
        }
        let after: usize = kept.len();
        self.entries = kept;
        before - after
    }
}

/// The snapshots that are deleted together with a download.
pub fn snapshot_files(target: &str) -> (res: (String, String))
    ensures
        res.0@ == path::with_extension_of(target@, "warp"@),
        res.1@ == path::with_extension_of(target@, "hls.warp"@),
{
    (path::with_extension(target, "warp"), path::with_extension(target, "hls.warp"))
}

/// A download may be taken over by a run: no other run has it, and it is not complete.
pub open spec fn claimable(status: DownloadStatus) -> bool {
    status != DownloadStatus::Downloading && status != DownloadStatus::Completed
}

/// Whether a download may be taken over by a run.
pub fn can_claim(status: DownloadStatus) -> (res: bool)
    ensures
        res == claimable(status),
{
    status != DownloadStatus::Downloading && status != DownloadStatus::Completed
}

/// A row as it is stored.
#[derive(Debug)]
pub struct DownloadRecord {
    pub id: String,
    pub url: String,
    pub target_path: String,
    pub status: DownloadStatus,
    pub error_message: Option<String>,
    pub priority: i64,
    pub proxy: Option<String>,
    pub checksum: Option<String>,
    pub max_speed_bytes: Option<i64>,
    pub download_kind: DownloadKind,
    pub category: DownloadCategory,
    pub hls_quality: Option<String>,
    pub hls_concurrent: Option<i64>,
    pub scheduled_at: Option<String>,
    /// The mirrors, as a JSON list of strings.
    pub mirror_urls: Option<String>,
    /// What is done once the download is complete, as JSON.
    pub post_action_json: Option<String>,
}

/// The list of strings that a JSON text holds.
pub uninterp spec fn json_texts(s: Seq<char>) -> Option<Seq<Seq<char>>>;

/// The JSON text of a list of strings.
pub uninterp spec fn texts_json(v: Seq<Seq<char>>) -> Seq<char>;

/// `serde_json::from_str` reads a JSON text as a list of strings; what it reads depends on the text
/// alone.
#[verifier::external_body]
fn texts_from_json(s: &str) -> (res: Option<Vec<String>>)
    ensures
        match res {
            Some(v) => json_texts(s@) == Some(texts(v@)),
            None => json_texts(s@) is None,
        },
{
    serde_json::from_str::<Vec<String>>(s).ok()
}

/// `serde_json::to_string` writes a list of strings as a JSON text, which depends on the list alone
/// and from which the list is read back.
#[verifier::external_body]
fn texts_to_json(v: &Vec<String>) -> (res: Option<String>)
    ensures
        res is Some,
        res->0@ == texts_json(texts(v@)),
        json_texts(res->0@) == Some(texts(v@)),
{
    serde_json::to_string(v).ok()
}

/// The mirrors that a row holds: none where they cannot be read.
pub open spec fn stored_mirrors(json: Option<Seq<char>>) -> Seq<Seq<char>> {
    match json {
        Some(s) => match json_texts(s) {
            Some(v) => v,
            None => Seq::empty(),
        },
        None => Seq::empty(),
    }
}

/// A signed number of 64 bits, cut to 8.
pub open spec fn low8(n: i64) -> u8 {
    (n as int % 256) as u8
}

/// A signed number of 64 bits, cut to 32.
pub open spec fn low32(n: i64) -> u32 {
    (n as int % 0x1_0000_0000) as u32
}

/// A signed number of 64 bits, read as an unsigned one.
pub open spec fn unsigned(n: i64) -> u64 {
    (n as int % 0x1_0000_0000_0000_0000) as u64
}

/// The entry that a row holds, where its mirrors and what is done after it were read already.
pub open spec fn entry_of(
    r: DownloadRecord,
    mirrors: Seq<Seq<char>>,
    post: PostActionView,
) -> EntryView {
    EntryView {
        id: r.id@,
        url: r.url@,
        target_path: r.target_path@,
        status: r.status,
        priority: low8(r.priority),
        proxy: opt_text(r.proxy),
        checksum: opt_text(r.checksum),
        max_speed_bytes: match r.max_speed_bytes {
            Some(n) => Some(unsigned(n)),
            None => None,
        },
        error_message: opt_text(r.error_message),
        kind: r.download_kind,
        category: r.category,
        hls_quality: opt_text(r.hls_quality),
        hls_concurrent: match r.hls_concurrent {
            Some(n) => Some(low32(n)),
            None => None,
        },
        scheduled_at: opt_text(r.scheduled_at),
        mirror_urls: mirrors,
        post_action: post,
    }
}

fn cut8(n: i64) -> (res: u8)
    ensures
        res == low8(n),
{
    if n >= 0 {
        (n % 256) as u8
    } else {
        let m: i64 = -(n + 1);
        proof {
            assert((n as int) % 256 == 255 - (m as int) % 256);
        }
        (255 - m % 256) as u8
    }
}

fn cut32(n: i64) -> (res: u32)
    ensures
        res == low32(n),
{
    if n >= 0 {
        (n % 0x1_0000_0000) as u32
    } else {
        let m: i64 = -(n + 1);
        proof {
            assert((n as int) % 0x1_0000_0000 == 0xffff_ffff - (m as int) % 0x1_0000_0000);
        }
        (0xffff_ffff - m % 0x1_0000_0000) as u32
    }
}

fn to_unsigned(n: i64) -> (res: u64)
    ensures
        res == unsigned(n),
{
    if n >= 0 {
        n as u64
    } else {
        let m: i64 = -(n + 1);
        0xffff_ffff_ffff_ffff - m as u64
    }
}

/// The entry that a row holds, where its mirrors and what is done after it were read already.
pub fn build_entry(
    record: DownloadRecord,
    mirror_urls: Vec<String>,
    post_action: PostDownloadAction,
) -> (res: DownloadEntry)
    ensures
        res@ == entry_of(record, texts(mirror_urls@), post_action@),
{
    DownloadEntry {
        id: record.id,
        url: record.url,
        target_path: record.target_path,
        status: record.status,
        error_message: record.error_message,
        priority: cut8(record.priority),
        proxy: record.proxy,
        checksum: record.checksum,
        max_speed_bytes: match record.max_speed_bytes {
            Some(n) => Some(to_unsigned(n)),
            None => None,
        },
        kind: record.download_kind,
        category: record.category,
        hls_quality: record.hls_quality,
        hls_concurrent: match record.hls_concurrent {
            Some(n) => Some(cut32(n)),
            None => None,
        },
        scheduled_at: record.scheduled_at,
        mirror_urls,
        post_action,
    }
}

/// The entry that a row holds. What is done after it is nothing where it could not be read.
pub fn entry_from_record(record: DownloadRecord, post_action: Option<PostDownloadAction>) -> (res:
    DownloadEntry)
    ensures
        res@ == entry_of(
            record,
            stored_mirrors(opt_text(record.mirror_urls)),
            match post_action {
                Some(p) => p@,
                None => no_action(),
            },
        ),
{
    let mirrors: Vec<String> = match &record.mirror_urls {
        Some(s) => match texts_from_json(s.as_str()) {
            Some(v) => v,
            None => Vec::new(),
        },
        None => Vec::new(),
    };
    proof {
        assert(texts(Seq::<String>::empty()) =~= Seq::<Seq<char>>::empty());
        assert(texts(mirrors@) =~= stored_mirrors(opt_text(record.mirror_urls)));
    }
    match post_action {
        Some(p) => build_entry(record, mirrors, p),
        None => build_entry(record, mirrors, PostDownloadAction::default()),
    }
}

/// The numbers of the row are those of the entry, and nothing was cut off.
pub open spec fn numbers_as_in(r: DownloadRecord, e: EntryView) -> bool {
    &&& r.priority == e.priority
    &&& match (r.max_speed_bytes, e.max_speed_bytes) {
        (Some(n), Some(m)) => n == m,
        (None, None) => true,
        _ => false,
    }
    &&& match (r.hls_concurrent, e.hls_concurrent) {
        (Some(n), Some(m)) => n == m,
        (None, None) => true,
        _ => false,
    }
}

/// The row that holds an entry, with what is done after it as JSON.
pub fn record_from_entry(entry: &DownloadEntry, post_action_json: String) -> (res: Result<
    DownloadRecord,
    RegistryError,
>)
    ensures
        match res {
            Ok(r) => storable(entry@) && entry_of(
                r,
                stored_mirrors(opt_text(r.mirror_urls)),
                entry@.post_action,
            ) == entry@ && opt_text(r.mirror_urls) == Some(texts_json(entry@.mirror_urls))
                && opt_text(r.post_action_json) == Some(post_action_json@) && numbers_as_in(r, entry@),
            Err(e) => !storable(entry@) && e == RegistryError::SpeedTooLarge,
        },
{
    if !is_storable(entry) {
        return Err(RegistryError::SpeedTooLarge);
    }
    let max_speed_bytes: Option<i64> = match entry.max_speed_bytes {
        Some(m) => Some(m as i64),
        None => None,
    };
    let hls_concurrent: Option<i64> = match entry.hls_concurrent {
        Some(n) => Some(n as i64),
        None => None,
    };
    let record = DownloadRecord {
        id: entry.id.clone(),
        url: entry.url.clone(),
        target_path: entry.target_path.clone(),
        status: entry.status,
        error_message: copy_opt(&entry.error_message),
        priority: entry.priority as i64,
        proxy: copy_opt(&entry.proxy),
        checksum: copy_opt(&entry.checksum),
        max_speed_bytes,
        download_kind: entry.kind,
        category: entry.category,
        hls_quality: copy_opt(&entry.hls_quality),
        hls_concurrent,
        scheduled_at: copy_opt(&entry.scheduled_at),
        mirror_urls: texts_to_json(&entry.mirror_urls),
        post_action_json: Some(post_action_json),
    };
    Ok(record)
}

/// A run takes over a download that waits, is paused or has failed, and no other.
pub proof fn law_waiting_paused_and_failed_are_claimed(status: DownloadStatus)
    ensures
        claimable(status) <==> status == DownloadStatus::Pending || status
            == DownloadStatus::Paused || status == DownloadStatus::Error,
{
}

/// A download is stored where it has no speed limit, or one that a signed number of 64 bits holds.
pub proof fn law_speed_limits_up_to_63_bits_are_stored(e: EntryView, limit: u64)
    ensures
        e.max_speed_bytes is None ==> storable(e),
        e.max_speed_bytes == Some(limit) ==> (storable(e) <==> limit < 0x8000_0000_0000_0000),
{
}

/// A number that was cut to 8, 32 or 64 bits is off by a multiple of what they count, and a number that
/// they hold stays as it is.
pub proof fn law_cut_numbers_go_round(n: i64)
    ensures
        (n - low8(n)) % 256 == 0,
        (n - low32(n)) % 0x1_0000_0000 == 0,
        (n - unsigned(n)) % 0x1_0000_0000_0000_0000 == 0,
        0 <= n < 256 ==> low8(n) == n,
        0 <= n < 0x1_0000_0000 ==> low32(n) == n,
        0 <= n ==> unsigned(n) == n,
{
}

/// An entry has what its row holds, field by field, and the mirrors and the action that were read.
pub proof fn law_entries_have_what_their_rows_hold(
    r: DownloadRecord,
    mirrors: Seq<Seq<char>>,
    post: PostActionView,
)
    ensures
        ({
            let e = entry_of(r, mirrors, post);
            &&& e.id == r.id@ && e.url == r.url@ && e.target_path == r.target_path@
            &&& e.status == r.status && e.kind == r.download_kind && e.category == r.category
            &&& r.proxy matches Some(s) ==> e.proxy == Some(s@)
            &&& r.checksum matches Some(s) ==> e.checksum == Some(s@)
            &&& r.error_message matches Some(s) ==> e.error_message == Some(s@)
            &&& r.hls_quality matches Some(s) ==> e.hls_quality == Some(s@)
            &&& r.scheduled_at matches Some(s) ==> e.scheduled_at == Some(s@)
            &&& r.proxy is None ==> e.proxy is None
            &&& r.checksum is None ==> e.checksum is None
            &&& r.error_message is None ==> e.error_message is None
            &&& r.hls_quality is None ==> e.hls_quality is None
            &&& r.scheduled_at is None ==> e.scheduled_at is None
            &&& e.mirror_urls == mirrors && e.post_action == post
            &&& 0 <= r.priority < 256 ==> e.priority == r.priority
            &&& r.max_speed_bytes is None ==> e.max_speed_bytes is None
            &&& r.max_speed_bytes is Some && r.max_speed_bytes->0 >= 0 ==> e.max_speed_bytes is Some
                && e.max_speed_bytes->0 == r.max_speed_bytes->0
            &&& r.hls_concurrent is None ==> e.hls_concurrent is None
            &&& r.hls_concurrent is Some && 0 <= r.hls_concurrent->0 < 0x1_0000_0000
                ==> e.hls_concurrent is Some && e.hls_concurrent->0 == r.hls_concurrent->0
        }),
{
}

/// The settings that were saved hold; before any were, downloads are not limited, there are 32 workers at
/// most, the daemon listens on port 9844, and notifications are shown.
pub proof fn law_saved_settings_hold(s: AppSettings, none: Option<AppSettings>)
    requires
        none is None,
    ensures
        settings_of(Some(s)) == s@,
        settings_of(none).daemon_port == 9844,
        settings_of(none).global_max_speed_bytes is None,
        settings_of(none).schedule_windows.len() == 0,
        settings_of(none).max_workers == 32,
        settings_of(none).allow_notifications,
{
}

} // verus!
