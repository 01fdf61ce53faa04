//! One run of a download: how it starts, how it adapts, and what it leaves on disk.

use crate::download::manager::{
    self, ADAPT_INTERVAL_MS, INITIAL_CHUNKS, MAX_ADAPTIVE_CHUNKS, Metadata,
};
use crate::download::plan::{DownloadState, Profile, Step, tiles, within};
use crate::download::probe::ProbeResult;
use crate::download::segment::{Chunk, MIN_SPLIT_SIZE};
use crate::path;
use crate::types::DownloadEntry;
use crate::utils;
use vstd::prelude::*;

verus! {

/// A download and how it is run.
pub struct Manager {
    /// The state of the download.
    pub metadata: Metadata,
    /// Where the file is put.
    pub target_path: String,
    /// Whether ranges of the file can be asked for.
    pub supports_range: bool,
}

/// What is done about the file that is written while a download runs.
#[derive(Debug, Clone, Copy, PartialEq, Eq, Structural)]
pub enum PartFile {
    /// It is there, with the right length.
    Keep,
    /// It is missing: create it with the right length.
    Create,
    /// It is there with another length: delete it, and create it with the right one.
    Recreate,
}

/// What is done about the file that is written while a download runs, where `existing` tells of a
/// file that is there, and its length if that can be found out.
pub open spec fn part_plan(existing: Option<Option<u64>>, size: u64) -> PartFile {
    match existing {
        None => PartFile::Create,
        Some(len) => if len == Some(size) {
            PartFile::Keep
        } else {
            PartFile::Recreate
        },
    }
}

/// How downloads are split: halves of a megabyte at least, and idle workers help out.
pub fn profile() -> (res: Profile)
    ensures
        res == (Profile { min_split: MIN_SPLIT_SIZE, steal: true }),
        res.min_split == 1024 * 1024 && res.steal,
        res.wf(),
{
    Profile { min_split: MIN_SPLIT_SIZE, steal: true }
}

/// How many pieces a download is cut into that starts anew: one where a snapshot could not be read,
/// and one where ranges cannot be asked for.
pub open spec fn pieces(snapshot_failed: bool, supports_range: bool) -> usize {
    if snapshot_failed || !supports_range {
        1
    } else {
        INITIAL_CHUNKS
    }
}

/// How many pieces a download is cut into that starts anew.
pub fn initial_pieces(snapshot_failed: bool, supports_range: bool) -> (res: usize)
    ensures
        res == pieces(snapshot_failed, supports_range),
{
    if snapshot_failed || !supports_range {
        1
    } else {
        INITIAL_CHUNKS
    }
}

/// Whether a file of that size can be cut into so many pieces: each needs a byte.
pub fn can_cut(size: u64, pieces: usize) -> (res: bool)
    ensures
        res == (size > 0 && (pieces <= 1 || pieces <= size)),
{
    size > 0 && (pieces <= 1 || pieces as u64 <= size)
}

impl Manager {
    /// A download with a state, from a server that serves ranges.
    pub fn new(metadata: Metadata, target_path: String) -> (res: Self)
        ensures
            res.metadata == metadata,
            res.target_path@ == target_path@,
            res.supports_range,
    {
        Manager { metadata, target_path, supports_range: true }
    }

    /// A download that is resumed from a snapshot, with the speed limit that its entry has now.
    pub fn resume(metadata: Metadata, entry: &DownloadEntry) -> (res: Self)
        ensures
            res.metadata@ == metadata@,
            res.metadata.url@ == metadata.url@,
            res.metadata.size == metadata.size,
            res.metadata.max_speed_bytes == entry.max_speed_bytes,
            res.target_path@ == entry.target_path@,
            res.supports_range,
    {
        let mut m = metadata;
        m.max_speed_bytes = entry.max_speed_bytes;
        Manager { metadata: m, target_path: entry.target_path.clone(), supports_range: true }
    }

    /// A download that starts anew, as the probe of its server tells.
    pub fn start(probe: ProbeResult, entry: &DownloadEntry, snapshot_failed: bool) -> (res: Self)
        requires
            probe.size > 0,
            snapshot_failed || !probe.supports_range || probe.size >= INITIAL_CHUNKS,
        ensures
            res.metadata@.wf(),
            within(res.metadata@.ranges),
            tiles(res.metadata@.ranges, probe.size as int),
            res.metadata@.ranges == Seq::new(
                pieces(snapshot_failed, probe.supports_range) as nat,
                |i: int|
                    manager::piece(
                        probe.size as int,
                        pieces(snapshot_failed, probe.supports_range) as int,
                        i,
                    ),
            ),
            res.metadata@.chunks == manager::iota(
                pieces(snapshot_failed, probe.supports_range) as nat,
            ),
            res.metadata@.active.len() == 0,
            res.metadata@.completed.len() == 0,
            res.metadata@.failed.len() == 0,
            res.metadata.url@ == probe.effective_url@,
            res.metadata.size == probe.size,
            res.metadata.max_speed_bytes == entry.max_speed_bytes,
            res.target_path@ == entry.target_path@,
            res.supports_range == probe.supports_range,
    {
        let n = initial_pieces(snapshot_failed, probe.supports_range);
        let supports_range = probe.supports_range;
        let metadata = Metadata::new(probe.effective_url, probe.size, entry.max_speed_bytes, n);
        Manager { metadata, target_path: entry.target_path.clone(), supports_range }
    }

    /// The file that is written while the download runs.
    pub fn part_path(&self) -> (res: String)
        ensures
            res@ == path::with_extension_of(self.target_path@, "warpart"@),
    {
        path::with_extension(self.target_path.as_str(), "warpart")
    }

    /// The snapshot of the download.
    pub fn snapshot_path(&self) -> (res: String)
        ensures
            res@ == path::with_extension_of(self.target_path@, "warp"@),
    {
        path::with_extension(self.target_path.as_str(), "warp")
    }

    /// What is done about the file that is written while the download runs.
    pub fn part_file(&self, existing: Option<Option<u64>>) -> (res: PartFile)
        ensures
            res == part_plan(existing, self.metadata.size),
    {
        match existing {
            None => PartFile::Create,
            Some(Some(len)) => if len == self.metadata.size {
                PartFile::Keep
            } else {
                PartFile::Recreate
            },
            Some(None) => PartFile::Recreate,
        }
    }

    /// The speed limit that the download adds to its run: its own, where the run sets none for it.
    pub fn local_limit(&self, has_local: bool) -> (res: Option<u64>)
        ensures
            res == if has_local {
                None
            } else {
                self.metadata.max_speed_bytes
            },
    {
        if has_local {
            None
        } else {
            self.metadata.max_speed_bytes
        }
    }

    /// How many ranges the download is meant to have: one where ranges cannot be asked for.
    pub fn worker_target(&self, suggested_workers: usize) -> (res: usize)
        ensures
            res == if self.supports_range {
                suggested_workers
            } else {
                1
            },
    {
        if self.supports_range {
            suggested_workers
        } else {
            1
        }
    }

    /// Splits the download up for its workers and sets the pace of its run.
    pub fn begin(&mut self, suggested_workers: usize) -> (res: Pace)
        requires
            old(self).metadata@.wf(),
            old(self).metadata@.total_progress() <= u64::MAX,
        ensures
            final(self).target_path == old(self).target_path,
            final(self).supports_range == old(self).supports_range,
            final(self).metadata.same_file(old(self).metadata),
            final(self).metadata@.wf(),
            res.target == if old(self).supports_range {
                suggested_workers
            } else {
                1
            },
            final(self).metadata@ == old(self).metadata@.reconciled(
                res.target as int,
                MIN_SPLIT_SIZE as int,
            ),
            res.last_progress == old(self).metadata@.total_progress(),
    {
        let target = self.worker_target(suggested_workers);
        self.metadata.reconcile_chunks(target, MIN_SPLIT_SIZE);
        Pace { target, last_progress: self.metadata.total_progress() }
    }

    /// One turn of the coordinator.
    pub fn next_step(&mut self, permit: bool, idle: bool) -> (res: Step)
        requires
            old(self).metadata@.wf(),
        ensures
            final(self).target_path == old(self).target_path,
            final(self).supports_range == old(self).supports_range,
            final(self).metadata.same_file(old(self).metadata),
            final(self).metadata@.wf(),
            res == old(self).metadata@.next_step(
                (Profile { min_split: MIN_SPLIT_SIZE, steal: true }),
                permit,
                idle,
            ),
            final(self).metadata@ == old(self).metadata@.after_step(
                (Profile { min_split: MIN_SPLIT_SIZE, steal: true }),
                permit,
            ),
    {
        self.metadata.schedule(profile(), permit, idle)
    }
}

/// A download that starts anew from a server that does not serve ranges starts with one range, which
/// begins at byte 0 and is the whole file, and the start of its run does not split it.
pub proof fn law_whole_files_start_whole(s: DownloadState, size: int)
    requires
        0 < size <= u64::MAX,
        s.chunks.len() == 1,
    ensures
        pieces(false, false) == 1,
        manager::piece(size, 1, 0) == (Chunk { start: 0, end: (size - 1) as u64, progress: 0 }),
        s.reconciled(1, MIN_SPLIT_SIZE as int) == s,
{
}

/// How a run adapts the number of ranges to its progress.
#[derive(Debug, Clone, Copy, PartialEq, Eq, Structural)]
pub struct Pace {
    /// How many ranges are meant to wait.
    pub target: usize,
    /// The progress at the last adaptation.
    pub last_progress: u64,
}

/// The number of ranges after one more adaptation: one more, up to twice the workers and a limit.
pub open spec fn grown(target: int, suggested: int) -> int {
    let n = if target + 1 < 2 * suggested {
        target + 1
    } else {
        2 * suggested
    };
    if n < MAX_ADAPTIVE_CHUNKS {
        n
    } else {
        MAX_ADAPTIVE_CHUNKS as int
    }
}

impl Pace {
    /// Whether it is time to adapt: so many milliseconds passed since the last time, and ranges can
    /// be asked for.
    pub fn is_due(supports_range: bool, elapsed_ms: u64) -> (res: bool)
        ensures
            res == (supports_range && elapsed_ms >= ADAPT_INTERVAL_MS),
            res == (supports_range && elapsed_ms >= 3000),
    {
        supports_range && elapsed_ms >= ADAPT_INTERVAL_MS
    }

    /// Adapts the number of ranges: a run that makes progress with its workers busy gets more.
    pub fn adapt(&mut self, metadata: &mut Metadata, suggested_workers: usize, idle: bool)
        requires
            old(metadata)@.wf(),
            old(metadata)@.total_progress() <= u64::MAX,
            old(self).target < usize::MAX,
            suggested_workers <= usize::MAX / 2,
        ensures
            final(metadata)@.wf(),
            final(metadata).same_file(*old(metadata)),
            final(self).last_progress == old(metadata)@.total_progress(),
            !idle && old(metadata)@.total_progress() > old(self).last_progress ==> {
                &&& final(self).target == grown(old(self).target as int, suggested_workers as int)
                &&& final(metadata)@ == old(metadata)@.reconciled(
                    final(self).target as int,
                    MIN_SPLIT_SIZE as int,
                )
            },
            idle || old(metadata)@.total_progress() <= old(self).last_progress ==> {
                &&& final(self).target == old(self).target
                &&& final(metadata)@ == old(metadata)@
            },
    {
        let prog = metadata.total_progress();
        let gained: u64 = prog.saturating_sub(self.last_progress);
        self.last_progress = prog;
        if !idle && gained > 0 {
            let twice: usize = suggested_workers * 2;
            let more: usize = if self.target + 1 < twice {
                self.target + 1
            } else {
                twice
            };
            self.target = if more < MAX_ADAPTIVE_CHUNKS {
                more
            } else {
                MAX_ADAPTIVE_CHUNKS
            };
            metadata.reconcile_chunks(self.target, MIN_SPLIT_SIZE);
        }
    }
}

/// The speed that a run shows, from the progress at two looks half a second apart.
pub open spec fn shown_speed(progress: int, last: int) -> int {
    if progress > last {
        2 * (progress - last)
    } else {
        0
    }
}

/// What a run shows beside its bar, from the progress at two looks half a second apart.
pub fn speed_message(progress: u64, last_progress: u64) -> (res: String)
    requires
        shown_speed(progress as int, last_progress as int) <= u64::MAX,
    ensures
        res@ == utils::human(shown_speed(progress as int, last_progress as int) as u64) + " /s"@,
{
    let delta: u64 = progress.saturating_sub(last_progress);
    let speed: u64 = delta * 2;
    let mut out = utils::HumanBytes(speed).to_string();
    out.append(" /s");
    out
}

/// The file that is written is kept where it has the length of the download, and made anew otherwise;
/// one of another length, or of none that can be found out, is deleted first.
pub proof fn law_part_files_of_another_length_are_made_anew(size: u64, len: u64)
    ensures
        part_plan(None, size) == PartFile::Create,
        part_plan(Some(None), size) == PartFile::Recreate,
        part_plan(Some(Some(len)), size) == if len == size {
            PartFile::Keep
        } else {
            PartFile::Recreate
        },
{
}

/// A download starts in 16 pieces, unless its snapshot could not be read or its server serves no
/// ranges: then in one.
pub proof fn law_downloads_start_in_sixteen_pieces(snapshot_failed: bool, supports_range: bool)
    ensures
        pieces(snapshot_failed, supports_range) == 16 <==> !snapshot_failed && supports_range,
        pieces(snapshot_failed, supports_range) == 1 <==> snapshot_failed || !supports_range,
{
}

/// An adaptation aims at one more range, at no more than two for each worker, and at no more than 64.
pub proof fn law_pace_grows_by_one(target: int, suggested: int)
    requires
        target >= 0,
        suggested >= 0,
    ensures
        grown(target, suggested) <= target + 1,
        grown(target, suggested) <= 2 * suggested,
        grown(target, suggested) <= 64,
        grown(target, suggested) == target + 1 || grown(target, suggested) == 2 * suggested || grown(
            target,
            suggested,
        ) == 64,
{
}

/// The speed that is shown is that of the last half second, per second, and none where nothing was
/// gained.
pub proof fn law_speed_is_that_of_half_a_second(progress: int, gained: int)
    ensures
        gained >= 0 ==> shown_speed(progress + gained, progress) == 2 * gained,
        gained <= 0 ==> shown_speed(progress + gained, progress) == 0,
{
}

/// A run cuts a range exactly where two megabytes of it or more are missing.
pub proof fn law_runs_cut_from_two_megabytes_on(c: Chunk)
    requires
        c.wf(),
        c.start + c.progress <= c.end,
    ensures
        c.splittable(MIN_SPLIT_SIZE as int) <==> c.end + 1 - (c.start + c.progress) >= 2 * 1024 * 1024,
{
}

} // verus!
