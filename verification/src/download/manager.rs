//! The coordinator of one download: what waits, what runs, what is done, and what comes next.

use crate::download::plan::{
    DownloadState, Profile, Step, all_valid, cover, first_largest, is_first_largest,
    law_draining_loses_nothing, law_ending_loses_nothing, law_halving_keeps_progress,
    law_halving_keeps_the_file_whole,
    law_retiring_loses_nothing, law_starting_loses_nothing, lemma_first_largest_unique,
    lemma_listed, lemma_no_largest, lemma_queued, lemma_robbed, tiles, within, written_in,
};
use crate::download::segment::Chunk;
use vstd::prelude::*;

verus! {

/// How many ranges a download starts with.
pub const INITIAL_CHUNKS: usize = 16;

/// The upper limit of the ranges that a download is adapted to.
pub const MAX_ADAPTIVE_CHUNKS: usize = 64;

/// How long, in milliseconds, a download runs between two adaptations.
pub const ADAPT_INTERVAL_MS: u64 = 3000;

/// The state of a download session. A range is named by its index in `ranges`.
pub struct Metadata {
    /// Where the file comes from.
    pub url: String,
    /// How many bytes the file has.
    pub size: u64,
    /// All ranges of the session.
    pub ranges: Vec<Chunk>,
    /// Ranges that wait for a worker.
    pub chunks: Vec<usize>,
    /// Ranges that a worker transfers.
    pub active_chunks: Vec<usize>,
    /// Ranges that are done.
    pub completed_chunks: Vec<usize>,
    /// Ranges whose worker failed, not queued again yet.
    pub failed_chunks: Vec<usize>,
    /// The most bytes per second that the download may use.
    pub max_speed_bytes: Option<u64>,
}

impl View for Metadata {
    type V = DownloadState;

    open spec fn view(&self) -> DownloadState {
        DownloadState {
            ranges: self.ranges@,
            chunks: self.chunks@,
            active: self.active_chunks@,
            completed: self.completed_chunks@,
            failed: self.failed_chunks@,
        }
    }
}

/// The piece of a file of `size` bytes that is the `i`-th of `n`: the last takes what is left over.
pub open spec fn piece(size: int, n: int, i: int) -> Chunk {
    Chunk {
        start: (i * (size / n)) as u64,
        end: if i == n - 1 {
            (size - 1) as u64
        } else {
            ((i + 1) * (size / n) - 1) as u64
        },
        progress: 0,
    }
}

/// How many pieces are meant where `initial` are asked for.
pub open spec fn piece_count(initial: usize) -> int {
    if initial == 0 {
        1
    } else {
        initial as int
    }
}

/// The numbers from 0 to `n - 1`.
pub open spec fn iota(n: nat) -> Seq<usize> {
    Seq::new(n, |i: int| i as usize)
}

/// The ranges touch one another and start at byte 0.
pub open spec fn contiguous(r: Seq<Chunk>) -> bool {
    forall|i: int|
        0 <= i < r.len() ==> (#[trigger] r[i]).start == if i == 0 {
            0
        } else {
            r[i - 1].end + 1
        }
}

/// Ranges that touch one another from byte 0 on tile a file that ends where they do.
pub proof fn lemma_contiguous_cover(r: Seq<Chunk>, byte: int)
    requires
        all_valid(r),
        contiguous(r),
    ensures
        cover(r, byte) == if r.len() > 0 && 0 <= byte <= r.last().end {
            1nat
        } else {
            0nat
        },
    decreases r.len(),
{
    if r.len() > 0 {
        let d = r.drop_last();
        assert forall|i: int| 0 <= i < d.len() implies (#[trigger] d[i]).wf() && d[i].start == if i
            == 0 {
            0
        } else {
            d[i - 1].end + 1
        } by {
            assert(d[i] == r[i]);
        }
        lemma_contiguous_cover(d, byte);
        assert(r.last() == r[r.len() - 1]);
        assert(r.last().wf());
        if r.len() > 1 {
            assert(d.last() == r[r.len() - 2]);
            assert(d.last().wf());
        }
    }
}

proof fn lemma_iota_counts(n: nat, j: usize)
    requires
        n <= usize::MAX,
    ensures
        iota(n).to_multiset().count(j) == if j < n {
            1nat
        } else {
            0nat
        },
    decreases n,
{
    broadcast use vstd::seq_lib::group_to_multiset_ensures;

    if n == 0 {
        assert(iota(n) =~= Seq::empty());
    } else {
        let m = (n - 1) as nat;
        assert(iota(n) =~= iota(m).push(m as usize));
        lemma_iota_counts(m, j);
    }
}

/// A session whose ranges all wait, in their order, holds each of them once.
pub proof fn lemma_all_waiting_accounted(s: DownloadState)
    requires
        s.ranges.len() <= usize::MAX,
        s.chunks == iota(s.ranges.len()),
        s.active.len() == 0,
        s.completed.len() == 0,
        s.failed.len() == 0,
    ensures
        s.accounted(),
{
    broadcast use vstd::seq_lib::group_to_multiset_ensures;

    assert forall|i: usize| #[trigger]
        s.holders(i) == if i < s.ranges.len() {
            1nat
        } else {
            0nat
        } by {
        lemma_iota_counts(s.ranges.len(), i);
        assert(s.active.to_multiset().count(i) == 0);
        assert(s.completed.to_multiset().count(i) == 0);
        assert(s.failed.to_multiset().count(i) == 0);
    }
}

impl Metadata {
    /// What belongs to the download and not to its progress is as in `other`.
    pub open spec fn same_file(self, other: Metadata) -> bool {
        self.url@ == other.url@ && self.size == other.size && self.max_speed_bytes
            == other.max_speed_bytes
    }

    /// A download that has not begun, cut into `initial_chunks` pieces of the same size, so that as
    /// many workers can start at once.
    pub fn new(
        url: String,
        size: u64,
        max_speed_bytes: Option<u64>,
        initial_chunks: usize,
    ) -> (res: Self)
        requires
            size > 0,
            initial_chunks <= 1 || initial_chunks <= size,
        ensures
            res.url@ == url@,
            res.size == size,
            res.max_speed_bytes == max_speed_bytes,
            res@.ranges == Seq::new(
                piece_count(initial_chunks) as nat,
                |i: int| piece(size as int, piece_count(initial_chunks), i),
            ),
            res@.chunks == iota(piece_count(initial_chunks) as nat),
            res@.active.len() == 0,
            res@.completed.len() == 0,
            res@.failed.len() == 0,
            res@.wf(),
            within(res@.ranges),
            tiles(res@.ranges, size as int),
    {
        let target: usize = if initial_chunks == 0 {
            1
        } else {
            initial_chunks
        };
        let chunk_size: u64 = size / target as u64;
        let mut ranges: Vec<Chunk> = Vec::new();
        let mut chunks: Vec<usize> = Vec::new();
        let mut start: u64 = 0;
        let mut i: usize = 0;
        let ghost n = target as int;
        let ghost cs = chunk_size as int;
        proof {
            assert(cs >= 1 && n * cs <= size) by (nonlinear_arith)
                requires
                    cs == size as int / n,
                    1 <= n <= size,
            ;
        }
        while i < target
            invariant
                i <= target,
                target == n,
                n == piece_count(initial_chunks),
                chunk_size == cs,
                cs == size as int / n,
                cs >= 1,
                n * cs <= size,
                1 <= n <= size,
                start == if i < n {
                    i * cs
                } else {
                    size as int
                },
                ranges@ == Seq::new(i as nat, |k: int| piece(size as int, n, k)),
                chunks@ == iota(i as nat),
                all_valid(ranges@),
                within(ranges@),
                contiguous(ranges@),
                i > 0 ==> ranges@.last().end + 1 == start,
            decreases target - i,
        {
            proof {
                assert((i + 1) * cs == i * cs + cs) by (nonlinear_arith);
                assert((i + 1) * cs <= n * cs) by (nonlinear_arith)
                    requires
                        i + 1 <= n,
                        cs >= 1,
                ;
            }
            let end: u64 = if i == target - 1 {
                size - 1
            } else {
                start + chunk_size - 1
            };
            let ghost before = ranges@;
            ranges.push(Chunk { start, end, progress: 0 });
            chunks.push(i);
            proof {
                assert(ranges@ =~= Seq::new((i + 1) as nat, |k: int| piece(size as int, n, k)));
                assert(chunks@ =~= iota((i + 1) as nat));
                assert forall|k: int| 0 <= k < ranges@.len() implies (#[trigger] ranges@[k]).start
                    == if k == 0 {
                    0
                } else {
                    ranges@[k - 1].end + 1
                } by {
                    if k < before.len() {
                        assert(ranges@[k] == before[k]);
                    }
                }
            }
            start = end + 1;
            i = i + 1;
        }
        let res = Metadata {
            url,
            size,
            ranges,
            chunks,
            active_chunks: Vec::new(),
            completed_chunks: Vec::new(),
            failed_chunks: Vec::new(),
            max_speed_bytes,
        };
        proof {
            lemma_all_waiting_accounted(res@);
            assert forall|byte: int| #[trigger]
                cover(res@.ranges, byte) == if 0 <= byte < size {
                    1nat
                } else {
                    0nat
                } by {
                lemma_contiguous_cover(res@.ranges, byte);
            }
        }
        res
    }

    /// How many bytes are written, over the ranges that wait, run or are done.
    pub fn total_progress(&self) -> (res: u64)
        requires
            self@.wf(),
            self@.total_progress() <= u64::MAX,
        ensures
            res == self@.total_progress(),
    {
        proof {
            lemma_listed(self@);
            lemma_written_in_positive(self@.ranges, self@.chunks);
            lemma_written_in_positive(self@.ranges, self@.active);
            lemma_written_in_positive(self@.ranges, self@.completed);
        }
        let waiting = Self::progress_of(&self.ranges, &self.chunks);
        let active = Self::progress_of(&self.ranges, &self.active_chunks);
        let completed = Self::progress_of(&self.ranges, &self.completed_chunks);
        waiting + active + completed
    }

    /// How many bytes the listed ranges have written.
    fn progress_of(ranges: &Vec<Chunk>, list: &Vec<usize>) -> (res: u64)
        requires
            forall|k: int| 0 <= k < list@.len() ==> (#[trigger] list@[k]) < ranges@.len(),
            written_in(ranges@, list@) <= u64::MAX,
        ensures
            res == written_in(ranges@, list@),
    {
        let mut total: u64 = 0;
        let mut i: usize = 0;
        while i < list.len()
            invariant
                i <= list@.len(),
                forall|k: int| 0 <= k < list@.len() ==> (#[trigger] list@[k]) < ranges@.len(),
                written_in(ranges@, list@) <= u64::MAX,
                total == written_in(ranges@, list@.take(i as int)),
            decreases list@.len() - i,
        {
            proof {
                assert(list@.take(i + 1).drop_last() =~= list@.take(i as int));
                assert(list@.take(i + 1).last() == list@[i as int]);
                lemma_written_in_take(ranges@, list@, i + 1);
            }
            total = total + ranges[list[i]].progress;
            i = i + 1;
        }
        proof {
            assert(list@.take(i as int) =~= list@);
        }
        total
    }

    /// Which of the listed ranges has the most left, the first where several have.
    fn largest(ranges: &Vec<Chunk>, list: &Vec<usize>) -> (res: Option<usize>)
        requires
            all_valid(ranges@),
            forall|k: int| 0 <= k < list@.len() ==> (#[trigger] list@[k]) < ranges@.len(),
        ensures
            match res {
                Some(k) => first_largest(ranges@, list@) == Some(k as int) && is_first_largest(
                    ranges@,
                    list@,
                    k as int,
                ),
                None => first_largest(ranges@, list@) is None,
            },
    {
        let mut largest_idx: Option<usize> = None;
        let mut max_rem: u64 = 0;
        let mut i: usize = 0;
        while i < list.len()
            invariant
                i <= list@.len(),
                all_valid(ranges@),
                forall|k: int| 0 <= k < list@.len() ==> (#[trigger] list@[k]) < ranges@.len(),
                forall|j: int|
                    0 <= j < i ==> (#[trigger] ranges@[list@[j] as int]).remaining() <= max_rem,
                largest_idx is None ==> max_rem == 0,
                largest_idx matches Some(k) ==> {
                    &&& k < i
                    &&& max_rem > 0
                    &&& ranges@[list@[k as int] as int].remaining() == max_rem
                    &&& forall|j: int|
                        0 <= j < k ==> (#[trigger] ranges@[list@[j] as int]).remaining() < max_rem
                },
            decreases list@.len() - i,
        {
            assert(ranges@[list@[i as int] as int].wf());
            let rem = ranges[list[i]].remaining_bytes();
            if rem > max_rem {
                max_rem = rem;
                largest_idx = Some(i);
            }
            i = i + 1;
        }
        proof {
            match largest_idx {
                Some(k) => {
                    assert(is_first_largest(ranges@, list@, k as int));
                    lemma_first_largest_unique(ranges@, list@, k as int);
                },
                None => lemma_no_largest(ranges@, list@),
            }
        }
        largest_idx
    }

    /// Halves a range that is large enough; the new range waits at the end of the queue.
    fn halve(&mut self, i: usize, min_split: u64) -> (res: bool)
        requires
            old(self)@.wf(),
            i < old(self)@.ranges.len(),
            0 < min_split <= u64::MAX / 2,
        ensures
            final(self).same_file(*old(self)),
            final(self)@.wf(),
            res == old(self)@.ranges[i as int].splittable(min_split as int),
            final(self)@ == if res {
                old(self)@.halved(i as int)
            } else {
                old(self)@
            },
            final(self)@.total_progress() == old(self)@.total_progress(),
    {
        assert(self.ranges@[i as int].wf());
        let mut left = self.ranges[i];
        match left.split_at_least(min_split) {
            Some(right) => {
                let fresh = self.ranges.len();
                self.ranges.set(i, left);
                self.ranges.push(right);
                self.chunks.push(fresh);
                proof {
                    assert(self.ranges.len() == self.ranges@.len());
                    law_halving_keeps_the_file_whole(old(self)@, i as int, min_split as int);
                    law_halving_keeps_progress(old(self)@, i as int);
                    assert(self@ =~= old(self)@.halved(i as int));
                }
                true
            },
            None => false,
        }
    }

    /// Halves the largest waiting range over and over, until `target_count` ranges wait or the
    /// largest is too small.
    pub fn reconcile_chunks(&mut self, target_count: usize, min_split: u64)
        requires
            old(self)@.wf(),
            0 < min_split <= u64::MAX / 2,
        ensures
            final(self).same_file(*old(self)),
            final(self)@.wf(),
            final(self)@ == old(self)@.reconciled(target_count as int, min_split as int),
            final(self)@.total_progress() == old(self)@.total_progress(),
    {
        while self.chunks.len() < target_count
            invariant_except_break
                self@.reconciled(target_count as int, min_split as int) == old(self)@.reconciled(
                    target_count as int,
                    min_split as int,
                ),
            invariant
                self@.wf(),
                0 < min_split <= u64::MAX / 2,
                self.same_file(*old(self)),
                self@.total_progress() == old(self)@.total_progress(),
            ensures
                self@ == old(self)@.reconciled(target_count as int, min_split as int),
            decreases target_count - self.chunks@.len(),
        {
            proof {
                lemma_listed(self@);
            }
            match Self::largest(&self.ranges, &self.chunks) {
                Some(k) => {
                    let i = self.chunks[k];
                    if !self.halve(i, min_split) {
                        break;
                    }
                },
                None => {
                    break;
                },
            }
        }
    }

    /// Takes the second half of what is left of the range in transfer that has the most left, for an
    /// idle worker; none where that range is too small. The half is held nowhere yet.
    pub fn try_steal_work(&mut self, min_split: u64) -> (res: Option<Chunk>)
        requires
            old(self)@.wf(),
            0 < min_split <= u64::MAX / 2,
        ensures
            final(self).same_file(*old(self)),
            final(self)@.wf(),
            res == old(self)@.stolen_half(min_split as int),
            final(self)@ == old(self)@.robbed(min_split as int),
    {
        proof {
            lemma_listed(self@);
            lemma_robbed(self@, min_split as int);
            assert(self@.active == self.active_chunks@);
        }
        match Self::largest(&self.ranges, &self.active_chunks) {
            Some(k) => {
                let i = self.active_chunks[k];
                assert(self.ranges@[i as int].wf());
                let mut left = self.ranges[i];
                let half = left.split_at_least(min_split);
                if half.is_some() {
                    self.ranges.set(i, left);
                }
                assert(self@ =~= old(self)@.robbed(min_split as int));
                half
            },
            None => None,
        }
    }

    /// Puts a new range at the end of the queue.
    pub fn queue_chunk(&mut self, chunk: Chunk)
        requires
            old(self)@.wf(),
            chunk.wf(),
        ensures
            final(self).same_file(*old(self)),
            final(self)@.wf(),
            final(self)@ == old(self)@.queued(chunk),
    {
        let fresh = self.ranges.len();
        self.ranges.push(chunk);
        self.chunks.push(fresh);
        proof {
            assert(self.ranges.len() == self.ranges@.len());
            lemma_queued(old(self)@, chunk);
            assert(self@ =~= old(self)@.queued(chunk));
        }
    }

    /// Queues the ranges of failed workers again.
    pub fn drain_failed(&mut self)
        requires
            old(self)@.wf(),
        ensures
            final(self).same_file(*old(self)),
            final(self)@.wf(),
            final(self)@ == old(self)@.drained(),
    {
        proof {
            law_draining_loses_nothing(self@);
        }
        self.chunks.append(&mut self.failed_chunks);
        assert(self@ =~= old(self)@.drained());
    }

    /// Takes the ranges that have nothing left off the front of the queue.
    pub fn retire_front(&mut self)
        requires
            old(self)@.wf(),
        ensures
            final(self).same_file(*old(self)),
            final(self)@.wf(),
            final(self)@ == old(self)@.retired(),
    {
        proof {
            law_retiring_loses_nothing(self@);
        }
        while self.chunks.len() > 0
            invariant_except_break
                self@.retired() == old(self)@.retired(),
            invariant
                old(self)@.retired().wf(),
                self@.wf(),
                self.same_file(*old(self)),
            ensures
                self@ == old(self)@.retired(),
            decreases self.chunks@.len(),
        {
            proof {
                lemma_listed(self@);
                law_retiring_loses_nothing(self@);
                assert(self.chunks@[0] == self@.chunks[0]);
                assert(self@.ranges[self@.chunks[0] as int].wf());
            }
            let front = self.chunks[0];
            if self.ranges[front].remaining_bytes() != 0 {
                break;
            }
            let ghost before = self@;
            let done = self.chunks.remove(0);
            self.completed_chunks.push(done);
            proof {
                assert(self@.chunks =~= before.chunks.drop_first());
                lemma_retire_one(before);
            }
        }
    }

    /// One turn of the coordinator: failed ranges are queued again, finished ones leave the queue, an
    /// empty queue is filled by halving a range in transfer, and a worker starts on the first range
    /// if `permit` allows it. `idle` says that no worker runs.
    pub fn schedule(&mut self, profile: Profile, permit: bool, idle: bool) -> (res: Step)
        requires
            old(self)@.wf(),
            profile.wf(),
        ensures
            final(self).same_file(*old(self)),
            final(self)@.wf(),
            res == old(self)@.next_step(profile, permit, idle),
            final(self)@ == old(self)@.after_step(profile, permit),
    {
        self.drain_failed();
        self.retire_front();
        if self.chunks.len() == 0 && profile.steal {
            proof {
                lemma_robbed(self@, profile.min_split as int);
            }
            if let Some(half) = self.try_steal_work(profile.min_split) {
                self.queue_chunk(half);
            }
        }
        assert(self@ == old(self)@.prepared(profile));
        if self.chunks.len() == 0 {
            if idle {
                Step::Finished
            } else {
                Step::Wait
            }
        } else if permit {
            proof {
                law_starting_loses_nothing(self@);
            }
            let ghost before = self@;
            let first = self.chunks.remove(0);
            self.active_chunks.push(first);
            assert(self@ =~= before.started());
            Step::Spawn(first)
        } else {
            Step::Wait
        }
    }

    /// Records that the worker on a range ended. The range is done where the worker ended well and
    /// nothing is left of it, and is queued again otherwise; one that is not in transfer is left alone.
    pub fn finish_worker(&mut self, index: usize, ok: bool)
        requires
            old(self)@.wf(),
        ensures
            final(self).same_file(*old(self)),
            final(self)@.wf(),
            !old(self)@.active.contains(index) ==> final(self)@ == old(self)@,
            old(self)@.active.contains(index) ==> final(self)@ == old(self)@.ended(
                old(self)@.active.index_of(index),
                ok,
            ),
    {
        let mut pos: usize = 0;
        while pos < self.active_chunks.len() && self.active_chunks[pos] != index
            invariant
                pos <= self.active_chunks@.len(),
                *self == *old(self),
                forall|k: int| 0 <= k < pos ==> self.active_chunks@[k] != index,
            decreases self.active_chunks@.len() - pos,
        {
            pos = pos + 1;
        }
        if pos < self.active_chunks.len() {
            proof {
                let k = self@.active.index_of(index);
                assert(self.active_chunks@[pos as int] == self@.active[pos as int]);
                assert(self@.active.contains(index));
                assert(self@.active[k] == index);
                lemma_active_once(self@, k, pos as int);
                law_ending_loses_nothing(self@, k, ok);
            }
            proof {
                lemma_listed(self@);
                assert(self.ranges@[index as int].wf());
            }
            let done = ok && self.ranges[index].remaining_bytes() == 0;
            let c = self.active_chunks.remove(pos);
            if done {
                self.completed_chunks.push(c);
            } else {
                self.failed_chunks.push(c);
            }
            assert(self@ =~= old(self)@.ended(pos as int, ok));
        } else {
            assert(self@.active == self.active_chunks@);
        }
    }
}

/// What one turn of retiring does.
proof fn lemma_retire_one(s: DownloadState)
    requires
        s.wf(),
        s.front_is_done(),
    ensures
        (DownloadState {
            ranges: s.ranges,
            chunks: s.chunks.drop_first(),
            active: s.active,
            completed: s.completed.push(s.chunks[0]),
            failed: s.failed,
        }).wf(),
{
    let t = DownloadState {
        ranges: s.ranges,
        chunks: s.chunks.drop_first(),
        active: s.active,
        completed: s.completed.push(s.chunks[0]),
        failed: s.failed,
    };
    assert forall|j: usize| #[trigger]
        t.holders(j) == if j < t.ranges.len() {
            1nat
        } else {
            0nat
        } by {
        broadcast use vstd::seq_lib::group_to_multiset_ensures;

        assert(s.holders(j) == if j < s.ranges.len() {
            1nat
        } else {
            0nat
        });
        assert(s.chunks.drop_first() =~= s.chunks.remove(0));
        assert(s.chunks.contains(s.chunks[0]));
    }
    lemma_listed(s);
    assert forall|m: int| 0 <= m < t.completed.len() implies (
    #[trigger] t.ranges[t.completed[m] as int]).remaining() == 0 by {
        if m < s.completed.len() {
            assert(s.ranges[s.completed[m] as int].remaining() == 0);
        }
    }
}

/// A range in transfer is listed there once.
proof fn lemma_active_once(s: DownloadState, j: int, k: int)
    requires
        s.wf(),
        0 <= j < s.active.len(),
        0 <= k < s.active.len(),
        s.active[j] == s.active[k],
    ensures
        j == k,
{
    broadcast use vstd::seq_lib::group_to_multiset_ensures;

    if j != k {
        let x = s.active[j];
        let rest = s.active.remove(j);
        let m = if k < j {
            k
        } else {
            k - 1
        };
        assert(rest[m] == x);
        assert(rest.contains(x));
        assert(rest.to_multiset().count(x) > 0);
        assert(s.holders(x) >= 2);
    }
}

proof fn lemma_written_in_positive(ranges: Seq<Chunk>, list: Seq<usize>)
    ensures
        written_in(ranges, list) >= 0,
    decreases list.len(),
{
    if list.len() > 0 {
        lemma_written_in_positive(ranges, list.drop_last());
    }
}

proof fn lemma_written_in_take(ranges: Seq<Chunk>, list: Seq<usize>, n: int)
    requires
        0 <= n <= list.len(),
    ensures
        0 <= written_in(ranges, list.take(n)) <= written_in(ranges, list),
    decreases list.len() - n,
{
    lemma_written_in_positive(ranges, list.take(n));
    if n == list.len() {
        assert(list.take(n) =~= list);
    } else {
        lemma_written_in_take(ranges, list, n + 1);
        assert(list.take(n + 1).drop_last() =~= list.take(n));
    }
}

/// The pieces of a file are of one size, as far as its bytes go round, and the last one takes what is
/// left over; the first begins at byte 0, each begins where the one before it ends, and the last ends
/// with the file. Nothing of them is written.
pub proof fn law_pieces_are_of_one_size(size: int, n: int, i: int)
    requires
        0 < n <= size <= u64::MAX,
        0 <= i < n,
    ensures
        piece(size, n, i).progress == 0,
        piece(size, n, 0).start == 0,
        i < n - 1 ==> piece(size, n, i).end + 1 - piece(size, n, i).start == size / n,
        i < n - 1 ==> piece(size, n, i + 1).start == piece(size, n, i).end + 1,
        piece(size, n, n - 1).end == size - 1,
        piece_count(0) == 1,
        0 < n <= usize::MAX ==> piece_count(n as usize) == n,
        iota(n as nat).len() == n,
        n <= usize::MAX ==> iota(n as nat)[i] == i,
{
    let q = size / n;
    assert(q >= 1 && n * q <= size) by (nonlinear_arith)
        requires
            q == size / n,
            0 < n <= size,
    ;
    assert(0 <= i * q && (i + 1) * q == i * q + q && (i + 1) * q <= n * q && (i + 2) * q == (i + 1)
        * q + q && 0 * q == 0) by (nonlinear_arith)
        requires
            0 <= i < n,
            q >= 1,
    ;
}

} // verus!
