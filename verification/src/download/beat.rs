//! Snapshots of a download on disk, from which it is resumed.

use crate::download::manager::{self, Metadata};
use crate::download::plan::{self, DownloadState};
use crate::download::segment::Chunk;
use crate::path;
use crate::wire;
use vstd::prelude::*;

verus! {

/// How far the progress of a range is set back when a download is resumed. What was written last
/// may not have reached the disk; fetching it again does no harm.
pub const RESUME_MARGIN: u64 = 2 * 1024 * 1024;

/// A range in a snapshot.
#[derive(Debug, Clone, Copy, PartialEq, Eq, Structural)]
pub struct ChunkSnapshot {
    /// First byte of the range.
    pub start: u64,
    /// Last byte of the range.
    pub end: u64,
    /// How many of its bytes are written.
    pub progress: u64,
}

/// A download in a snapshot.
#[derive(Debug)]
pub struct MetadataSnapshot {
    /// Where the file comes from.
    pub url: String,
    /// How many bytes the file has.
    pub size: u64,
    /// The ranges of the file.
    pub chunks: Vec<ChunkSnapshot>,
}

/// Why a snapshot cannot be used.
#[derive(Debug, Clone, Copy, PartialEq, Eq, Structural)]
pub enum SnapshotError {
    /// The bytes are not a snapshot.
    Malformed,
    /// The path of the snapshot names no file.
    InvalidName,
}

/// A range as three numbers.
pub open spec fn triple(c: ChunkSnapshot) -> (u64, u64, u64) {
    (c.start, c.end, c.progress)
}

/// Ranges as three numbers each.
pub open spec fn triples(v: Seq<ChunkSnapshot>) -> Seq<(u64, u64, u64)> {
    v.map_values(|c: ChunkSnapshot| triple(c))
}

/// What a snapshot holds.
pub struct SnapshotView {
    pub url: Seq<char>,
    pub size: u64,
    pub chunks: Seq<(u64, u64, u64)>,
}

impl View for MetadataSnapshot {
    type V = SnapshotView;

    open spec fn view(&self) -> SnapshotView {
        SnapshotView { url: self.url@, size: self.size, chunks: triples(self.chunks@) }
    }
}

/// The binary form of a snapshot.
pub open spec fn snapshot_bytes(s: SnapshotView) -> Seq<u8> {
    wire::state_bytes(s.url, s.size, s.chunks)
}

/// The bytes begin with the form of the snapshot.
pub open spec fn holds_snapshot(bytes: Seq<u8>, s: SnapshotView) -> bool {
    wire::begins_with_state(bytes, s.url, s.size, s.chunks)
}

/// The snapshot with whose form the bytes begin.
pub open spec fn snapshot_in(bytes: Seq<u8>) -> Option<SnapshotView> {
    if exists|s: SnapshotView| holds_snapshot(bytes, s) {
        Some(choose|s: SnapshotView| holds_snapshot(bytes, s))
    } else {
        None
    }
}

/// `bincode::serialize` writes a text as its length in bytes and its UTF-8 form, a list as its
/// length and its items, a tuple as its fields, and a number of 64 bits as eight bytes, the least
/// significant one first; it fails on none of these.
#[verifier::external_body]
fn encode_state(url: &str, size: u64, ranges: &Vec<(u64, u64, u64)>) -> (res: Option<Vec<u8>>)
    ensures
        res is Some,
        res->0@ == wire::state_bytes(url@, size, ranges@),
{
    bincode::serialize(&(url, size, ranges)).ok()
}

/// `bincode::deserialize` reads the same form back from the start of the bytes and ignores what
/// follows; it fails where the bytes begin with no such form.
#[verifier::external_body]
fn decode_state(bytes: &[u8]) -> (res: Option<(String, u64, Vec<(u64, u64, u64)>)>)
    ensures
        match res {
            Some((url, size, ranges)) => wire::begins_with_state(bytes@, url@, size, ranges@),
            None => forall|url: Seq<char>, size: u64, ranges: Seq<(u64, u64, u64)>|
                !#[trigger] wire::begins_with_state(bytes@, url, size, ranges),
        },
{
    bincode::deserialize(bytes).ok()
}

/// The listed ranges, one by one.
pub open spec fn listed(ranges: Seq<Chunk>, list: Seq<usize>) -> Seq<Chunk> {
    list.map_values(|i: usize| ranges[i as int])
}

/// A range as three numbers.
pub open spec fn chunk_triple(c: Chunk) -> (u64, u64, u64) {
    (c.start, c.end, c.progress)
}

/// Ranges as three numbers each.
pub open spec fn chunk_triples(v: Seq<Chunk>) -> Seq<(u64, u64, u64)> {
    v.map_values(|c: Chunk| chunk_triple(c))
}

/// The ranges that a snapshot holds: those that wait, those that run, those that are done, and those
/// whose worker failed.
pub open spec fn snapshot_list(s: DownloadState) -> Seq<usize> {
    s.chunks + s.active + s.completed + s.failed
}

/// What a snapshot of a session holds.
pub open spec fn snapshot_of(m: Metadata) -> SnapshotView {
    SnapshotView {
        url: m.url@,
        size: m.size,
        chunks: chunk_triples(listed(m@.ranges, snapshot_list(m@))),
    }
}

fn push_listed(out: &mut Vec<ChunkSnapshot>, ranges: &Vec<Chunk>, list: &Vec<usize>)
    requires
        forall|k: int| 0 <= k < list@.len() ==> (#[trigger] list@[k]) < ranges@.len(),
    ensures
        triples(final(out)@) == triples(old(out)@) + chunk_triples(listed(ranges@, list@)),
{
    let ghost before = out@;
    let mut i: usize = 0;
    proof {
        assert(chunk_triples(listed(ranges@, list@.take(0))) =~= Seq::empty());
        assert(triples(before) + Seq::empty() =~= triples(before));
    }
    while i < list.len()
        invariant
            i <= list@.len(),
            forall|k: int| 0 <= k < list@.len() ==> (#[trigger] list@[k]) < ranges@.len(),
            triples(out@) == triples(before) + chunk_triples(
                listed(ranges@, list@.take(i as int)),
            ),
        decreases list@.len() - i,
    {
        let c = ranges[list[i]];
        let ghost prev = out@;
        out.push(ChunkSnapshot { start: c.start, end: c.end, progress: c.progress });
        proof {
            let t = chunk_triple(c);
            assert(triples(out@) =~= triples(prev).push(t));
            assert(chunk_triples(listed(ranges@, list@.take(i + 1))) =~= chunk_triples(
                listed(ranges@, list@.take(i as int)),
            ).push(t));
            assert(triples(before) + chunk_triples(listed(ranges@, list@.take(i as int))).push(t)
                =~= (triples(before) + chunk_triples(listed(ranges@, list@.take(i as int)))).push(
                t,
            ));
        }
        i = i + 1;
    }
    proof {
        assert(list@.take(i as int) =~= list@);
    }
}

/// A snapshot of the session as it is now.
pub fn create_snapshot_sync(metadata: &Metadata) -> (res: MetadataSnapshot)
    requires
        metadata@.wf(),
    ensures
        res@ == snapshot_of(*metadata),
{
    proof {
        plan::lemma_listed(metadata@);
        assert(metadata@.chunks == metadata.chunks@);
        assert(metadata@.active == metadata.active_chunks@);
        assert(metadata@.completed == metadata.completed_chunks@);
        assert(metadata@.failed == metadata.failed_chunks@);
    }
    let mut chunks: Vec<ChunkSnapshot> = Vec::new();
    push_listed(&mut chunks, &metadata.ranges, &metadata.chunks);
    push_listed(&mut chunks, &metadata.ranges, &metadata.active_chunks);
    push_listed(&mut chunks, &metadata.ranges, &metadata.completed_chunks);
    push_listed(&mut chunks, &metadata.ranges, &metadata.failed_chunks);
    let res = MetadataSnapshot { url: metadata.url.clone(), size: metadata.size, chunks };
    proof {
        let r = metadata.ranges@;
        assert(res@.chunks =~= chunk_triples(listed(r, snapshot_list(metadata@))));
    }
    res
}

/// The binary form of a snapshot.
pub fn encode_snapshot(snapshot: &MetadataSnapshot) -> (res: Vec<u8>)
    ensures
        res@ == snapshot_bytes(snapshot@),
{
    let mut ranges: Vec<(u64, u64, u64)> = Vec::new();
    let mut i: usize = 0;
    while i < snapshot.chunks.len()
        invariant
            i <= snapshot.chunks@.len(),
            ranges@ == triples(snapshot.chunks@.take(i as int)),
        decreases snapshot.chunks@.len() - i,
    {
        let c = snapshot.chunks[i];
        ranges.push((c.start, c.end, c.progress));
        proof {
            assert(ranges@ =~= triples(snapshot.chunks@.take(i + 1)));
        }
        i = i + 1;
    }
    proof {
        assert(snapshot.chunks@.take(i as int) =~= snapshot.chunks@);
    }
    match encode_state(snapshot.url.as_str(), snapshot.size, &ranges) {
        Some(bytes) => bytes,
        None => Vec::new(),
    }
}

/// The snapshot in which the bytes begin.
pub fn decode_snapshot(bytes: &[u8]) -> (res: Result<MetadataSnapshot, SnapshotError>)
    ensures
        match res {
            Ok(s) => snapshot_in(bytes@) == Some(s@) && holds_snapshot(bytes@, s@),
            Err(e) => snapshot_in(bytes@) is None && e == SnapshotError::Malformed,
        },
{
    match decode_state(bytes) {
        Some((url, size, ranges)) => {
            let mut chunks: Vec<ChunkSnapshot> = Vec::new();
            let mut i: usize = 0;
            while i < ranges.len()
                invariant
                    i <= ranges@.len(),
                    triples(chunks@) == ranges@.take(i as int),
                decreases ranges@.len() - i,
            {
                let (start, end, progress) = ranges[i];
                let ghost prev = chunks@;
                chunks.push(ChunkSnapshot { start, end, progress });
                proof {
                    assert(triples(chunks@) =~= triples(prev).push(ranges@[i as int]));
                    assert(ranges@.take(i + 1) =~= ranges@.take(i as int).push(ranges@[i as int]));
                }
                i = i + 1;
            }
            proof {
                assert(ranges@.take(i as int) =~= ranges@);
            }
            let res = MetadataSnapshot { url, size, chunks };
            proof {
                assert(holds_snapshot(bytes@, res@));
                let other = snapshot_in(bytes@)->0;
                assert(holds_snapshot(bytes@, other));
                wire::law_state_is_read_back(
                    bytes@,
                    res@.url,
                    res@.size,
                    res@.chunks,
                    other.url,
                    other.size,
                    other.chunks,
                );
            }
            Ok(res)
        },
        None => {
            proof {
                assert forall|s: SnapshotView| !holds_snapshot(bytes@, s) by {
                    assert(!wire::begins_with_state(bytes@, s.url, s.size, s.chunks));
                }
            }
            Err(SnapshotError::Malformed)
        },
    }
}

/// Where the snapshot is written before it takes its place: beside it, under its name with
/// `.warp.tmp` behind.
pub open spec fn tmp_path_of(target: Seq<char>) -> Option<Seq<char>> {
    match path::file_name_of(target) {
        Some(name) => Some(path::sibling_of(target, name + ".warp.tmp"@)),
        None => None,
    }
}

/// Where the snapshot is written before it takes its place.
pub fn snapshot_tmp_path(target: &str) -> (res: Result<String, SnapshotError>)
    ensures
        match res {
            Ok(p) => tmp_path_of(target@) == Some(p@),
            Err(e) => tmp_path_of(target@) is None && e == SnapshotError::InvalidName,
        },
{
    match path::file_name(target) {
        Some(name) => {
            let mut tmp = name;
            tmp.append(".warp.tmp");
            Ok(path::sibling(target, tmp.as_str()))
        },
        None => Err(SnapshotError::InvalidName),
    }
}

/// A range of a snapshot, set back by a margin.
pub open spec fn resumed(t: (u64, u64, u64), margin: u64) -> Chunk {
    Chunk {
        start: t.0,
        end: t.1,
        progress: if t.2 >= margin {
            (t.2 - margin) as u64
        } else {
            0
        },
    }
}

/// The ranges of a snapshot, set back by a margin.
pub open spec fn resumed_all(v: Seq<(u64, u64, u64)>, margin: u64) -> Seq<Chunk> {
    v.map_values(|t: (u64, u64, u64)| resumed(t, margin))
}

/// The state of a session in which all of these ranges wait.
pub open spec fn all_waiting(ranges: Seq<Chunk>) -> DownloadState {
    DownloadState {
        ranges,
        chunks: manager::iota(ranges.len()),
        active: Seq::empty(),
        completed: Seq::empty(),
        failed: Seq::empty(),
    }
}

/// The session that a snapshot describes: all ranges wait, each set back by the margin.
pub fn restore(snapshot: MetadataSnapshot, margin: u64) -> (res: Metadata)
    ensures
        res.url@ == snapshot@.url,
        res.size == snapshot@.size,
        res.max_speed_bytes is None,
        res@ == all_waiting(resumed_all(snapshot@.chunks, margin)),
        res@.accounted(),
        res.ranges@.len() == snapshot.chunks@.len(),
        forall|i: int|
            0 <= i < snapshot.chunks@.len() ==> {
                &&& (#[trigger] res.ranges@[i]).start == snapshot.chunks@[i].start
                &&& res.ranges@[i].end == snapshot.chunks@[i].end
                &&& res.ranges@[i].progress <= snapshot.chunks@[i].progress
                &&& res.ranges@[i].progress + margin >= snapshot.chunks@[i].progress
                &&& res.ranges@[i].progress > 0 ==> res.ranges@[i].progress + margin
                    == snapshot.chunks@[i].progress
            },
{
    let mut ranges: Vec<Chunk> = Vec::new();
    let mut chunks: Vec<usize> = Vec::new();
    let mut i: usize = 0;
    let ghost all = resumed_all(snapshot@.chunks, margin);
    while i < snapshot.chunks.len()
        invariant
            i <= snapshot.chunks@.len(),
            all == resumed_all(triples(snapshot.chunks@), margin),
            ranges@ == all.take(i as int),
            chunks@ == manager::iota(i as nat),
        decreases snapshot.chunks@.len() - i,
    {
        let c = snapshot.chunks[i];
        ranges.push(
            Chunk { start: c.start, end: c.end, progress: c.progress.saturating_sub(margin) },
        );
        chunks.push(i);
        proof {
            assert(ranges@ =~= all.take(i + 1));
            assert(chunks@ =~= manager::iota((i + 1) as nat));
        }
        i = i + 1;
    }
    let res = Metadata {
        url: snapshot.url,
        size: snapshot.size,
        ranges,
        chunks,
        active_chunks: Vec::new(),
        completed_chunks: Vec::new(),
        failed_chunks: Vec::new(),
        max_speed_bytes: None,
    };
    proof {
        assert(all.take(i as int) =~= all);
        assert(res.ranges.len() == res.ranges@.len());
        assert(res@ =~= all_waiting(all));
        manager::lemma_all_waiting_accounted(res@);
    }
    res
}

/// The session that the bytes of a snapshot describe, each range set back by the resume margin.
pub fn load_snapshot(bytes: &[u8]) -> (res: Result<Metadata, SnapshotError>)
    ensures
        match res {
            Ok(m) => snapshot_in(bytes@) matches Some(s) && m.url@ == s.url && m.size == s.size
                && m.max_speed_bytes is None && m@ == all_waiting(
                resumed_all(s.chunks, RESUME_MARGIN),
            ) && m@.accounted() && m.ranges@.len() == s.chunks.len() && forall|i: int|
                0 <= i < s.chunks.len() ==> {
                    &&& (#[trigger] m.ranges@[i]).start == s.chunks[i].0
                    &&& m.ranges@[i].end == s.chunks[i].1
                    &&& m.ranges@[i].progress <= s.chunks[i].2
                    &&& m.ranges@[i].progress + 2 * 1024 * 1024 >= s.chunks[i].2
                    &&& m.ranges@[i].progress > 0 ==> m.ranges@[i].progress + 2 * 1024 * 1024
                        == s.chunks[i].2
                },
            Err(e) => snapshot_in(bytes@) is None && e == SnapshotError::Malformed,
        },
{
    match decode_snapshot(bytes) {
        Ok(s) => Ok(restore(s, RESUME_MARGIN)),
        Err(e) => Err(e),
    }
}

/// The bytes of the first ranges of a list are no more than those of all of them.
proof fn lemma_written_prefix(ranges: Seq<Chunk>, list: Seq<usize>, n: int)
    requires
        0 <= n <= list.len(),
    ensures
        0 <= plan::written_in(ranges, list.take(n)) <= plan::written_in(ranges, list),
    decreases list.len(),
{
    if n == list.len() {
        assert(list.take(n) =~= list);
        if n > 0 {
            lemma_written_prefix(ranges, list.drop_last(), n - 1);
        }
    } else {
        lemma_written_prefix(ranges, list.drop_last(), n);
        assert(list.drop_last().take(n) =~= list.take(n));
    }
}

/// The first missing byte of each range has an offset that can be asked for.
pub open spec fn askable(ranges: Seq<Chunk>) -> bool {
    forall|k: int|
        0 <= k < ranges.len() ==> (#[trigger] ranges[k]).start + ranges[k].progress <= u64::MAX
}

/// Whether a session that was just resumed can be run: its ranges are valid, what is missing of them
/// can be asked for, and the bytes that are written can be counted.
pub fn is_sound(metadata: &Metadata) -> (res: bool)
    requires
        metadata@ == all_waiting(metadata@.ranges),
        metadata@.accounted(),
    ensures
        res == (metadata@.wf() && askable(metadata@.ranges) && metadata@.total_progress()
            <= u64::MAX),
{
    let ghost list = metadata@.chunks;
    let ghost ranges = metadata@.ranges;
    let mut sum: u64 = 0;
    let mut i: usize = 0;
    assert(ranges.len() == metadata.ranges.len());
    while i < metadata.ranges.len()
        invariant
            i <= metadata.ranges@.len(),
            ranges == metadata.ranges@,
            list == manager::iota(ranges.len()),
            metadata@ == all_waiting(ranges),
            sum == plan::written_in(ranges, list.take(i as int)),
            forall|k: int| 0 <= k < i ==> (#[trigger] ranges[k]).wf(),
            forall|k: int|
                0 <= k < i ==> (#[trigger] ranges[k]).start + ranges[k].progress <= u64::MAX,
        decreases metadata.ranges@.len() - i,
    {
        let c = metadata.ranges[i];
        if c.progress > u64::MAX - c.start {
            assert(ranges[i as int].start + ranges[i as int].progress > u64::MAX);
            return false;
        }
        if !(c.start <= c.end && c.end - c.start < u64::MAX) {
            assert(!ranges[i as int].wf());
            return false;
        }
        proof {
            assert(list.take(i + 1).drop_last() =~= list.take(i as int));
            assert(list.take(i + 1).last() == i);
            lemma_written_prefix(ranges, list, i + 1);
        }
        if c.progress > u64::MAX - sum {
            return false;
        }
        sum = sum + c.progress;
        i = i + 1;
    }
    proof {
        assert(list.take(i as int) =~= list);
    }
    true
}

/// A snapshot that was written is read back as it was, even where other bytes follow it.
pub proof fn law_snapshot_round_trip(s: SnapshotView, rest: Seq<u8>)
    requires
        wire::fits_state(s.url, s.chunks),
    ensures
        snapshot_in(snapshot_bytes(s) + rest) == Some(s),
{
    let bytes = snapshot_bytes(s) + rest;
    assert(snapshot_bytes(s) =~= bytes.subrange(0, snapshot_bytes(s).len() as int));
    assert(holds_snapshot(bytes, s));
    let t = snapshot_in(bytes)->0;
    assert(holds_snapshot(bytes, t));
    wire::law_state_is_read_back(bytes, s.url, s.size, s.chunks, t.url, t.size, t.chunks);
}

proof fn lemma_count_remove(r: Seq<Chunk>, k: int, p: spec_fn(Chunk) -> bool)
    requires
        0 <= k < r.len(),
    ensures
        plan::count_where(r, p) == plan::count_where(r.remove(k), p) + (if p(r[k]) {
            1nat
        } else {
            0nat
        }),
    decreases r.len(),
{
    if k == r.len() - 1 {
        assert(r.remove(k) =~= r.drop_last());
    } else {
        assert(r.remove(k).drop_last() =~= r.drop_last().remove(k));
        assert(r.remove(k).last() == r.last());
        lemma_count_remove(r.drop_last(), k, p);
    }
}

proof fn lemma_count_listed(ranges: Seq<Chunk>, list: Seq<usize>, p: spec_fn(Chunk) -> bool)
    requires
        ranges.len() <= usize::MAX,
        forall|i: usize| #[trigger]
            list.to_multiset().count(i) == if i < ranges.len() {
                1nat
            } else {
                0nat
            },
    ensures
        plan::count_where(listed(ranges, list), p) == plan::count_where(ranges, p),
    decreases ranges.len(),
{
    broadcast use vstd::seq_lib::group_to_multiset_ensures;

    if ranges.len() == 0 {
        if list.len() > 0 {
            assert(list.contains(list[0]));
            assert(list.to_multiset().count(list[0]) > 0);
        }
        assert(listed(ranges, list) =~= ranges);
    } else {
        let last = (ranges.len() - 1) as usize;
        assert(list.to_multiset().count(last) == 1);
        assert(list.contains(last));
        let k = choose|k: int| 0 <= k < list.len() && list[k] == last;
        let rest = list.remove(k);
        let d = ranges.drop_last();
        lemma_count_remove(listed(ranges, list), k, p);
        assert(listed(ranges, list).remove(k) =~= listed(ranges, rest));
        assert forall|i: usize| #[trigger]
            rest.to_multiset().count(i) == if i < d.len() {
                1nat
            } else {
                0nat
            } by {
            assert(list.to_multiset().count(i) == if i < ranges.len() {
                1nat
            } else {
                0nat
            });
        }
        assert forall|m: int| 0 <= m < rest.len() implies (#[trigger] rest[m]) < d.len() by {
            assert(rest.contains(rest[m]));
            assert(rest.to_multiset().count(rest[m]) > 0);
        }
        assert(listed(ranges, rest) =~= listed(d, rest));
        lemma_count_listed(d, rest, p);
    }
}

proof fn lemma_count_pointwise(
    a: Seq<Chunk>,
    b: Seq<Chunk>,
    p: spec_fn(Chunk) -> bool,
    exact: bool,
)
    requires
        a.len() == b.len(),
        forall|i: int| 0 <= i < a.len() ==> (p(#[trigger] a[i]) ==> p(b[i])),
        exact ==> forall|i: int| 0 <= i < a.len() ==> p(#[trigger] a[i]) == p(b[i]),
    ensures
        plan::count_where(a, p) <= plan::count_where(b, p),
        exact ==> plan::count_where(a, p) == plan::count_where(b, p),
    decreases a.len(),
{
    if a.len() > 0 {
        assert(a.last() == a[a.len() - 1]);
        assert forall|i: int| 0 <= i < a.drop_last().len() implies (p(#[trigger] a.drop_last()[i])
            ==> p(b.drop_last()[i])) && (exact ==> p(a.drop_last()[i]) == p(b.drop_last()[i])) by {
            assert(a.drop_last()[i] == a[i]);
        }
        lemma_count_pointwise(a.drop_last(), b.drop_last(), p, exact);
    }
}

/// A session that is resumed from a snapshot covers the same file: every byte lies in exactly one
/// range, each range waits, and no byte counts as written that was not.
pub proof fn law_resuming_keeps_the_file_whole(s: DownloadState, size: int, margin: u64)
    requires
        s.wf(),
        plan::tiles(s.ranges, size),
        plan::within(s.ranges),
    ensures
        ({
            let back = all_waiting(
                resumed_all(chunk_triples(listed(s.ranges, snapshot_list(s))), margin),
            );
            &&& back.wf()
            &&& plan::tiles(back.ranges, size)
            &&& plan::within(back.ranges)
            &&& forall|byte: int| #[trigger]
                plan::written_cover(back.ranges, byte) <= plan::written_cover(s.ranges, byte)
        }),
{
    broadcast use vstd::seq_lib::group_to_multiset_ensures;

    let list = snapshot_list(s);
    let kept = listed(s.ranges, list);
    let back = all_waiting(resumed_all(chunk_triples(kept), margin));
    plan::lemma_listed(s);
    assert forall|i: usize| #[trigger]
        list.to_multiset().count(i) == if i < s.ranges.len() {
            1nat
        } else {
            0nat
        } by {
        vstd::seq_lib::lemma_multiset_commutative(s.chunks, s.active);
        vstd::seq_lib::lemma_multiset_commutative(s.chunks + s.active, s.completed);
        vstd::seq_lib::lemma_multiset_commutative(s.chunks + s.active + s.completed, s.failed);
        assert(s.holders(i) == if i < s.ranges.len() {
            1nat
        } else {
            0nat
        });
    }
    assert forall|k: int| 0 <= k < list.len() implies (#[trigger] list[k]) < s.ranges.len() by {
        assert(list.contains(list[k]));
        assert(list.to_multiset().count(list[k]) > 0);
    }
    assert forall|k: int| 0 <= k < back.ranges.len() implies {
        &&& (#[trigger] back.ranges[k]).wf()
        &&& back.ranges[k].progress <= back.ranges[k].len()
        &&& back.ranges[k].start == kept[k].start
        &&& back.ranges[k].end == kept[k].end
        &&& back.ranges[k].progress <= kept[k].progress
    } by {
        assert(kept[k] == s.ranges[list[k] as int]);
        assert(s.ranges[list[k] as int].wf());
        assert(s.ranges[list[k] as int].progress <= s.ranges[list[k] as int].len());
        assert(back.ranges[k] == resumed(chunk_triple(kept[k]), margin));
    }
    lemma_permutation_len(s.ranges, list);
    manager::lemma_all_waiting_accounted(back);
    assert forall|byte: int| #[trigger]
        plan::cover(back.ranges, byte) == if 0 <= byte < size {
            1nat
        } else {
            0nat
        } by {
        let p = |c: Chunk| c.contains(byte);
        lemma_count_pointwise(back.ranges, kept, p, true);
        lemma_count_listed(s.ranges, list, p);
        assert(plan::cover(s.ranges, byte) == if 0 <= byte < size {
            1nat
        } else {
            0nat
        });
    }
    assert forall|byte: int| #[trigger]
        plan::written_cover(back.ranges, byte) <= plan::written_cover(s.ranges, byte) by {
        let p = |c: Chunk| c.written(byte);
        lemma_count_pointwise(back.ranges, kept, p, false);
        lemma_count_listed(s.ranges, list, p);
    }
}

proof fn lemma_permutation_len(ranges: Seq<Chunk>, list: Seq<usize>)
    requires
        ranges.len() <= usize::MAX,
        forall|i: usize| #[trigger]
            list.to_multiset().count(i) == if i < ranges.len() {
                1nat
            } else {
                0nat
            },
    ensures
        list.len() == ranges.len(),
{
    let p = |c: Chunk| true;
    lemma_count_listed(ranges, list, p);
    lemma_count_all(ranges, p);
    lemma_count_all(listed(ranges, list), p);
}

proof fn lemma_count_all(r: Seq<Chunk>, p: spec_fn(Chunk) -> bool)
    requires
        forall|c: Chunk| #[trigger] p(c),
    ensures
        plan::count_where(r, p) == r.len(),
    decreases r.len(),
{
    if r.len() > 0 {
        lemma_count_all(r.drop_last(), p);
    }
}

/// A resumed session has the ranges of its snapshot, in their order, and every one of them waits. Each
/// loses the margin of what it has written, or all of it where that is less, and never more.
pub proof fn law_resuming_loses_only_the_margin(v: Seq<(u64, u64, u64)>, margin: u64, i: int)
    requires
        0 <= i < v.len() <= usize::MAX,
    ensures
        ({
            let back = all_waiting(resumed_all(v, margin));
            let c = back.ranges[i];
            &&& back.ranges.len() == v.len()
            &&& back.chunks.len() == v.len()
            &&& back.chunks[i] == i
            &&& back.active.len() == 0 && back.completed.len() == 0 && back.failed.len() == 0
            &&& c.start == v[i].0
            &&& c.end == v[i].1
            &&& c.progress <= v[i].2
            &&& c.progress + margin >= v[i].2
            &&& c.progress > 0 ==> c.progress + margin == v[i].2
        }),
{
}

/// A snapshot holds every range of a session once, wherever it is listed, with its bounds and with
/// what is written of it.
pub proof fn law_snapshot_holds_every_range(m: Metadata, i: int)
    requires
        m@.wf(),
        0 <= i < m@.ranges.len(),
    ensures
        snapshot_of(m).url == m.url@,
        snapshot_of(m).size == m.size,
        snapshot_of(m).chunks.len() == m@.ranges.len(),
        snapshot_of(m).chunks.contains(
            (m@.ranges[i].start, m@.ranges[i].end, m@.ranges[i].progress),
        ),
{
    broadcast use vstd::seq_lib::group_to_multiset_ensures;

    let s = m@;
    let list = snapshot_list(s);
    plan::lemma_listed(s);
    assert forall|i: usize| #[trigger]
        list.to_multiset().count(i) == if i < s.ranges.len() {
            1nat
        } else {
            0nat
        } by {
        vstd::seq_lib::lemma_multiset_commutative(s.chunks, s.active);
        vstd::seq_lib::lemma_multiset_commutative(s.chunks + s.active, s.completed);
        vstd::seq_lib::lemma_multiset_commutative(s.chunks + s.active + s.completed, s.failed);
        assert(s.holders(i) == if i < s.ranges.len() {
            1nat
        } else {
            0nat
        });
    }
    lemma_permutation_len(s.ranges, list);
    assert(list.to_multiset().count(i as usize) == 1);
    assert(list.contains(i as usize));
    let k = choose|k: int| 0 <= k < list.len() && list[k] == i as usize;
    assert(snapshot_of(m).chunks[k] == (s.ranges[i].start, s.ranges[i].end, s.ranges[i].progress));
}

/// A snapshot is written beside the file under its name with `.warp.tmp` behind it.
pub proof fn law_snapshots_are_written_beside_the_file(dir: Seq<char>, name: Seq<char>)
    requires
        name.len() > 0,
        !name.contains('/'),
        name != seq!['.'],
        name != seq!['.', '.'],
        dir.len() > 0,
        dir.last() != '/',
        dir.last() != '.',
    ensures
        tmp_path_of(dir + seq!['/'] + name) == Some(dir + seq!['/'] + (name + ".warp.tmp"@)),
        tmp_path_of(name) == Some(name + ".warp.tmp"@),
{
    path::law_names_stand_behind_the_last_slash(dir, name);
    path::law_neighbours_share_their_directory(dir, name, name + ".warp.tmp"@);
}

} // verus!
