//! The model of a download session: which ranges there are, and where each of them is held.

use crate::download::segment::Chunk;
use vstd::prelude::*;

verus! {

/// How many of the ranges satisfy `p`.
pub open spec fn count_where(ranges: Seq<Chunk>, p: spec_fn(Chunk) -> bool) -> nat
    decreases ranges.len(),
{
    if ranges.len() == 0 {
        0
    } else {
        count_where(ranges.drop_last(), p) + if p(ranges.last()) {
            1nat
        } else {
            0nat
        }
    }
}

/// How many of the ranges hold the byte.
pub open spec fn cover(ranges: Seq<Chunk>, byte: int) -> nat {
    count_where(ranges, |c: Chunk| c.contains(byte))
}

/// How many of the ranges have written the byte.
pub open spec fn written_cover(ranges: Seq<Chunk>, byte: int) -> nat {
    count_where(ranges, |c: Chunk| c.written(byte))
}

/// Every byte of a file of `size` bytes lies in exactly one range, and no other byte in any.
pub open spec fn tiles(ranges: Seq<Chunk>, size: int) -> bool {
    forall|byte: int| #[trigger]
        cover(ranges, byte) == if 0 <= byte < size {
            1nat
        } else {
            0nat
        }
}

/// Every range is valid.
pub open spec fn all_valid(ranges: Seq<Chunk>) -> bool {
    forall|i: int| 0 <= i < ranges.len() ==> (#[trigger] ranges[i]).wf()
}

/// No range has more written than it holds.
pub open spec fn within(ranges: Seq<Chunk>) -> bool {
    forall|i: int| 0 <= i < ranges.len() ==> (#[trigger] ranges[i]).progress <= ranges[i].len()
}

/// How many bytes the listed ranges have written.
pub open spec fn written_in(ranges: Seq<Chunk>, list: Seq<usize>) -> int
    decreases list.len(),
{
    if list.len() == 0 {
        0
    } else {
        written_in(ranges, list.drop_last()) + ranges[list.last() as int].progress
    }
}

/// The `k`-th of the listed ranges has the most left, and is the first that has.
pub open spec fn is_first_largest(ranges: Seq<Chunk>, list: Seq<usize>, k: int) -> bool {
    &&& 0 <= k < list.len()
    &&& ranges[list[k] as int].remaining() > 0
    &&& forall|j: int|
        0 <= j < list.len() ==> (#[trigger] ranges[list[j] as int]).remaining()
            <= ranges[list[k] as int].remaining()
    &&& forall|j: int|
        0 <= j < k ==> (#[trigger] ranges[list[j] as int]).remaining()
            < ranges[list[k] as int].remaining()
}

/// Which of the listed ranges has the most left, the first where several have.
pub open spec fn first_largest(ranges: Seq<Chunk>, list: Seq<usize>) -> Option<int> {
    if exists|k: int| is_first_largest(ranges, list, k) {
        Some(choose|k: int| is_first_largest(ranges, list, k))
    } else {
        None
    }
}

/// Whether idle workers may halve ranges that are in transfer, and how small a half may be.
#[derive(Debug, Clone, Copy, PartialEq, Eq, Structural)]
pub struct Profile {
    /// The smallest half, in bytes.
    pub min_split: u64,
    /// Whether an idle worker takes over half of a range in transfer.
    pub steal: bool,
}

impl Profile {
    /// A half is at least one byte, and twice a half is a `u64`.
    pub open spec fn wf(self) -> bool {
        0 < self.min_split <= u64::MAX / 2
    }
}

/// What the coordinator does next.
#[derive(Debug, Clone, Copy, PartialEq, Eq, Structural)]
pub enum Step {
    /// Start a worker on this range.
    Spawn(usize),
    /// Wait for a worker to end or for time to pass.
    Wait,
    /// Nothing is left to do.
    Finished,
}

/// The state of a download session. A range is named by its index in `ranges`.
#[verifier::ext_equal]
pub struct DownloadState {
    /// All ranges of the session, in the order in which they came up.
    pub ranges: Seq<Chunk>,
    /// Ranges that wait for a worker, first come first served.
    pub chunks: Seq<usize>,
    /// Ranges that a worker transfers.
    pub active: Seq<usize>,
    /// Ranges that are done.
    pub completed: Seq<usize>,
    /// Ranges whose worker failed, not queued again yet.
    pub failed: Seq<usize>,
}

impl DownloadState {
    /// In how many places the range is held.
    pub open spec fn holders(self, i: usize) -> nat {
        self.chunks.to_multiset().count(i) + self.active.to_multiset().count(i)
            + self.completed.to_multiset().count(i) + self.failed.to_multiset().count(i)
    }

    /// Every range is held in exactly one place, and nothing else is held.
    pub open spec fn accounted(self) -> bool {
        forall|i: usize| #[trigger]
            self.holders(i) == if i < self.ranges.len() {
                1nat
            } else {
                0nat
            }
    }

    /// The ranges are valid, each is held once, and those that are done have nothing left.
    pub open spec fn wf(self) -> bool {
        all_valid(self.ranges) && self.accounted() && self.ranges.len() <= usize::MAX
            && self.completed_done()
    }

    /// How many bytes are written, as far as the ranges that wait, run or are done tell.
    pub open spec fn total_progress(self) -> int {
        written_in(self.ranges, self.chunks) + written_in(self.ranges, self.active) + written_in(
            self.ranges,
            self.completed,
        )
    }

    /// The state after range `i` was halved; the new range waits at the end of the queue.
    pub open spec fn halved(self, i: int) -> DownloadState {
        DownloadState {
            ranges: self.ranges.update(i, self.ranges[i].left_half()).push(
                self.ranges[i].right_half(),
            ),
            chunks: self.chunks.push(self.ranges.len() as usize),
            active: self.active,
            completed: self.completed,
            failed: self.failed,
        }
    }

    /// The state after the largest waiting range was halved over and over, until `target` ranges
    /// wait or the largest is too small.
    pub open spec fn reconciled(self, target: int, min: int) -> DownloadState
        decreases target - self.chunks.len(),
    {
        if self.chunks.len() >= target {
            self
        } else {
            match first_largest(self.ranges, self.chunks) {
                None => self,
                Some(k) => if self.ranges[self.chunks[k] as int].splittable(min) {
                    self.halved(self.chunks[k] as int).reconciled(target, min)
                } else {
                    self
                },
            }
        }
    }

    /// Whether the largest range in transfer can be halved.
    pub open spec fn can_steal(self, min: int) -> bool {
        match first_largest(self.ranges, self.active) {
            Some(k) => self.ranges[self.active[k] as int].splittable(min),
            None => false,
        }
    }

    /// The half that is taken from the largest range in transfer, if it can be halved.
    pub open spec fn stolen_half(self, min: int) -> Option<Chunk> {
        if self.can_steal(min) {
            Some(
                self.ranges[self.active[first_largest(self.ranges, self.active)->0] as int].right_half(),
            )
        } else {
            None
        }
    }

    /// The state after that half was taken away; it is held nowhere yet.
    pub open spec fn robbed(self, min: int) -> DownloadState {
        if self.can_steal(min) {
            let i = self.active[first_largest(self.ranges, self.active)->0] as int;
            DownloadState { ranges: self.ranges.update(i, self.ranges[i].left_half()), ..self }
        } else {
            self
        }
    }

    /// The state after a new range was put at the end of the queue.
    pub open spec fn queued(self, c: Chunk) -> DownloadState {
        DownloadState {
            ranges: self.ranges.push(c),
            chunks: self.chunks.push(self.ranges.len() as usize),
            ..self
        }
    }

    /// The state after the largest range in transfer was halved, if it can be, and the half queued.
    pub open spec fn stolen(self, min: int) -> DownloadState {
        if self.can_steal(min) {
            self.halved(self.active[first_largest(self.ranges, self.active)->0] as int)
        } else {
            self
        }
    }

    /// The state after the failed ranges were queued again.
    pub open spec fn drained(self) -> DownloadState {
        DownloadState {
            ranges: self.ranges,
            chunks: self.chunks + self.failed,
            active: self.active,
            completed: self.completed,
            failed: Seq::empty(),
        }
    }

    /// Whether the first waiting range has nothing left.
    pub open spec fn front_is_done(self) -> bool {
        self.chunks.len() > 0 && self.ranges[self.chunks[0] as int].remaining() == 0
    }

    /// The state after the waiting ranges that have nothing left were taken off the front.
    pub open spec fn retired(self) -> DownloadState
        decreases self.chunks.len(),
    {
        if self.front_is_done() {
            DownloadState {
                ranges: self.ranges,
                chunks: self.chunks.drop_first(),
                active: self.active,
                completed: self.completed.push(self.chunks[0]),
                failed: self.failed,
            }.retired()
        } else {
            self
        }
    }

    /// The state in which the next worker is chosen.
    pub open spec fn prepared(self, profile: Profile) -> DownloadState {
        let s = self.drained().retired();
        if s.chunks.len() == 0 && profile.steal {
            s.stolen(profile.min_split as int)
        } else {
            s
        }
    }

    /// The state after a worker took the first waiting range.
    pub open spec fn started(self) -> DownloadState {
        DownloadState {
            ranges: self.ranges,
            chunks: self.chunks.drop_first(),
            active: self.active.push(self.chunks[0]),
            completed: self.completed,
            failed: self.failed,
        }
    }

    /// What the coordinator does next, where `permit` says whether a worker may start and `idle`
    /// whether none runs.
    pub open spec fn next_step(self, profile: Profile, permit: bool, idle: bool) -> Step {
        let s = self.prepared(profile);
        if s.chunks.len() == 0 {
            if idle {
                Step::Finished
            } else {
                Step::Wait
            }
        } else if permit {
            Step::Spawn(s.chunks[0])
        } else {
            Step::Wait
        }
    }

    /// The state after that step.
    pub open spec fn after_step(self, profile: Profile, permit: bool) -> DownloadState {
        let s = self.prepared(profile);
        if s.chunks.len() > 0 && permit {
            s.started()
        } else {
            s
        }
    }

    /// The worker on the `k`-th range in transfer ended well and left nothing of it.
    pub open spec fn ends_done(self, k: int, ok: bool) -> bool {
        ok && self.ranges[self.active[k] as int].remaining() == 0
    }

    /// The state after the worker on the `k`-th range in transfer ended: the range is done where
    /// nothing is left of it, and is to be queued again otherwise.
    pub open spec fn ended(self, k: int, ok: bool) -> DownloadState {
        DownloadState {
            ranges: self.ranges,
            chunks: self.chunks,
            active: self.active.remove(k),
            completed: if self.ends_done(k, ok) {
                self.completed.push(self.active[k])
            } else {
                self.completed
            },
            failed: if self.ends_done(k, ok) {
                self.failed
            } else {
                self.failed.push(self.active[k])
            },
        }
    }

    /// Nothing waits, runs or is to be queued again.
    pub open spec fn finished(self) -> bool {
        self.chunks.len() == 0 && self.active.len() == 0 && self.failed.len() == 0
    }

    /// Every completed range has nothing left.
    pub open spec fn completed_done(self) -> bool {
        forall|k: int|
            0 <= k < self.completed.len() ==> (#[trigger] self.ranges[self.completed[k] as int]).remaining()
                == 0
    }
}

/// A held index names a range.
pub proof fn lemma_listed(s: DownloadState)
    requires
        s.accounted(),
    ensures
        forall|k: int| 0 <= k < s.chunks.len() ==> (#[trigger] s.chunks[k]) < s.ranges.len(),
        forall|k: int| 0 <= k < s.active.len() ==> (#[trigger] s.active[k]) < s.ranges.len(),
        forall|k: int| 0 <= k < s.completed.len() ==> (#[trigger] s.completed[k]) < s.ranges.len(),
        forall|k: int| 0 <= k < s.failed.len() ==> (#[trigger] s.failed[k]) < s.ranges.len(),
{
    broadcast use vstd::seq_lib::group_to_multiset_ensures;

    assert forall|k: int| 0 <= k < s.chunks.len() implies (#[trigger] s.chunks[k])
        < s.ranges.len() by {
        assert(s.chunks.contains(s.chunks[k]));
        assert(s.holders(s.chunks[k]) > 0);
    }
    assert forall|k: int| 0 <= k < s.active.len() implies (#[trigger] s.active[k])
        < s.ranges.len() by {
        assert(s.active.contains(s.active[k]));
        assert(s.holders(s.active[k]) > 0);
    }
    assert forall|k: int| 0 <= k < s.completed.len() implies (#[trigger] s.completed[k])
        < s.ranges.len() by {
        assert(s.completed.contains(s.completed[k]));
        assert(s.holders(s.completed[k]) > 0);
    }
    assert forall|k: int| 0 <= k < s.failed.len() implies (#[trigger] s.failed[k])
        < s.ranges.len() by {
        assert(s.failed.contains(s.failed[k]));
        assert(s.holders(s.failed[k]) > 0);
    }
}

/// Replacing one range changes a count by that range alone.
proof fn lemma_count_update(r: Seq<Chunk>, i: int, c: Chunk, p: spec_fn(Chunk) -> bool)
    requires
        0 <= i < r.len(),
    ensures
        count_where(r.update(i, c), p) + (if p(r[i]) {
            1nat
        } else {
            0nat
        }) == count_where(r, p) + (if p(c) {
            1nat
        } else {
            0nat
        }),
    decreases r.len(),
{
    if i == r.len() - 1 {
        assert(r.update(i, c).drop_last() =~= r.drop_last());
    } else {
        assert(r.update(i, c).drop_last() =~= r.drop_last().update(i, c));
        lemma_count_update(r.drop_last(), i, c, p);
    }
}

/// Two predicates that agree on the ranges have the same count.
proof fn lemma_count_same(r: Seq<Chunk>, p: spec_fn(Chunk) -> bool, q: spec_fn(Chunk) -> bool)
    requires
        forall|i: int| 0 <= i < r.len() ==> p(#[trigger] r[i]) == q(r[i]),
    ensures
        count_where(r, p) == count_where(r, q),
    decreases r.len(),
{
    if r.len() > 0 {
        assert(r.last() == r[r.len() - 1]);
        assert forall|i: int| 0 <= i < r.drop_last().len() implies p(
            #[trigger] r.drop_last()[i],
        ) == q(r.drop_last()[i]) by {
            assert(r.drop_last()[i] == r[i]);
        }
        lemma_count_same(r.drop_last(), p, q);
    }
}

/// A range that satisfies the predicate counts.
proof fn lemma_count_some(r: Seq<Chunk>, i: int, p: spec_fn(Chunk) -> bool)
    requires
        0 <= i < r.len(),
        p(r[i]),
    ensures
        count_where(r, p) >= 1,
    decreases r.len(),
{
    if i < r.len() - 1 {
        assert(r.drop_last()[i] == r[i]);
        lemma_count_some(r.drop_last(), i, p);
    }
}

/// Bytes that a worker wrote change no range: the file stays whole, what was written stays written,
/// and the bytes of the packet are written now.
pub proof fn law_writing_keeps_the_file_whole(s: DownloadState, i: int, n: int)
    requires
        s.wf(),
        0 <= i < s.ranges.len(),
        0 <= n,
        s.ranges[i].progress + n <= s.ranges[i].len(),
    ensures
        ({
            let t = DownloadState {
                ranges: s.ranges.update(
                    i,
                    Chunk { progress: (s.ranges[i].progress + n) as u64, ..s.ranges[i] },
                ),
                ..s
            };
            &&& t.wf()
            &&& forall|byte: int| #[trigger] cover(t.ranges, byte) == cover(s.ranges, byte)
            &&& forall|byte: int| #[trigger]
                written_cover(t.ranges, byte) >= written_cover(s.ranges, byte)
            &&& forall|byte: int|
                s.ranges[i].start + s.ranges[i].progress <= byte < s.ranges[i].start
                    + s.ranges[i].progress + n ==> #[trigger] written_cover(t.ranges, byte) >= 1
            &&& forall|size: int| #[trigger] tiles(s.ranges, size) ==> tiles(t.ranges, size)
            &&& within(s.ranges) ==> within(t.ranges)
        }),
{
    let before = s.ranges[i];
    let after = Chunk { progress: (before.progress + n) as u64, ..before };
    assert(before.wf());
    let u = s.ranges.update(i, after);
    let t = DownloadState { ranges: u, ..s };
    assert forall|byte: int| #[trigger] cover(u, byte) == cover(s.ranges, byte) by {
        lemma_count_update(s.ranges, i, after, |c: Chunk| c.contains(byte));
    }
    assert forall|byte: int| #[trigger]
        written_cover(u, byte) >= written_cover(s.ranges, byte) by {
        lemma_count_update(s.ranges, i, after, |c: Chunk| c.written(byte));
    }
    assert forall|byte: int|
        before.start + before.progress <= byte < before.start + before.progress
            + n implies #[trigger] written_cover(u, byte) >= 1 by {
        lemma_count_update(s.ranges, i, after, |c: Chunk| c.written(byte));
        assert(after.written(byte) && !before.written(byte));
    }
    assert forall|size: int| #[trigger] tiles(s.ranges, size) implies tiles(u, size) by {
        assert forall|byte: int| #[trigger]
            cover(u, byte) == if 0 <= byte < size {
                1nat
            } else {
                0nat
            } by {
            assert(cover(u, byte) == cover(s.ranges, byte));
        }
    }
    assert(all_valid(u));
    assert forall|j: usize| #[trigger]
        t.holders(j) == if j < u.len() {
            1nat
        } else {
            0nat
        } by {
        assert(s.holders(j) == t.holders(j));
    }
    lemma_listed(s);
    assert forall|m: int| 0 <= m < t.completed.len() implies (
    #[trigger] t.ranges[t.completed[m] as int]).remaining() == 0 by {
        assert(s.ranges[s.completed[m] as int].remaining() == 0);
    }
}

/// Halving a range, as an idle worker or the coordinator does, keeps the session valid: every byte
/// stays in exactly one range, what was written stays written, each range is held once.
pub proof fn law_halving_keeps_the_file_whole(s: DownloadState, i: int, min: int)
    requires
        s.wf(),
        s.ranges.len() < usize::MAX,
        0 <= i < s.ranges.len(),
        min > 0,
        s.ranges[i].splittable(min),
    ensures
        s.halved(i).wf(),
        forall|byte: int| #[trigger] cover(s.halved(i).ranges, byte) == cover(s.ranges, byte),
        forall|byte: int| #[trigger]
            written_cover(s.halved(i).ranges, byte) == written_cover(s.ranges, byte),
        forall|size: int| #[trigger] tiles(s.ranges, size) ==> tiles(s.halved(i).ranges, size),
        within(s.ranges) ==> within(s.halved(i).ranges),
{
    let old_range = s.ranges[i];
    let left = old_range.left_half();
    let right = old_range.right_half();
    let t = s.halved(i);
    let mid = s.ranges.update(i, left);
    assert(old_range.wf());
    assert(left.wf() && right.wf());
    assert(t.ranges.drop_last() =~= mid);
    assert(t.ranges.last() == right);
    assert forall|byte: int| #[trigger] cover(t.ranges, byte) == cover(s.ranges, byte) by {
        crate::download::segment::law_split_is_exact(old_range, min, byte);
        lemma_count_update(s.ranges, i, left, |c: Chunk| c.contains(byte));
    }
    assert forall|byte: int| #[trigger]
        written_cover(t.ranges, byte) == written_cover(s.ranges, byte) by {
        crate::download::segment::law_split_is_exact(old_range, min, byte);
        lemma_count_update(s.ranges, i, left, |c: Chunk| c.written(byte));
    }
    assert forall|size: int| #[trigger] tiles(s.ranges, size) implies tiles(t.ranges, size) by {
        assert forall|byte: int| #[trigger]
            cover(t.ranges, byte) == if 0 <= byte < size {
                1nat
            } else {
                0nat
            } by {
            assert(cover(t.ranges, byte) == cover(s.ranges, byte));
        }
    }
    assert(all_valid(t.ranges));
    let fresh = s.ranges.len() as usize;
    assert forall|j: usize| #[trigger]
        t.holders(j) == if j < t.ranges.len() {
            1nat
        } else {
            0nat
        } by {
        broadcast use vstd::seq_lib::group_to_multiset_ensures;

        assert(s.holders(j) == if j < s.ranges.len() {
            1nat
        } else {
            0nat
        });
        assert(t.chunks.to_multiset() =~= s.chunks.to_multiset().insert(fresh));
    }
    lemma_halving_keeps_done(s, i, min);
}

/// A new range at the end of the queue is held once.
pub proof fn lemma_queued(s: DownloadState, c: Chunk)
    requires
        s.wf(),
        s.ranges.len() < usize::MAX,
        c.wf(),
    ensures
        s.queued(c).wf(),
{
    let t = s.queued(c);
    let fresh = s.ranges.len() as usize;
    assert forall|j: usize| #[trigger]
        t.holders(j) == if j < t.ranges.len() {
            1nat
        } else {
            0nat
        } by {
        broadcast use vstd::seq_lib::group_to_multiset_ensures;

        assert(s.holders(j) == if j < s.ranges.len() {
            1nat
        } else {
            0nat
        });
        assert(t.chunks.to_multiset() =~= s.chunks.to_multiset().insert(fresh));
    }
    lemma_listed(s);
    assert forall|m: int| 0 <= m < t.completed.len() implies (
    #[trigger] t.ranges[t.completed[m] as int]).remaining() == 0 by {
        assert(s.ranges[s.completed[m] as int].remaining() == 0);
    }
}

/// Taking half of a range away leaves the rest of the session valid, and with the half in the queue it
/// is the session with the range halved.
pub proof fn lemma_robbed(s: DownloadState, min: int)
    requires
        s.wf(),
        min > 0,
    ensures
        s.robbed(min).wf(),
        s.stolen_half(min) matches Some(c) ==> c.wf() && s.robbed(min).queued(c) == s.stolen(min),
        s.stolen_half(min) is None ==> s.stolen(min) == s,
{
    let t = s.robbed(min);
    if s.can_steal(min) {
        lemma_listed(s);
        let k = first_largest(s.ranges, s.active)->0;
        assert(is_first_largest(s.ranges, s.active, k));
        let i = s.active[k] as int;
        assert(s.ranges[i].wf());
        assert(s.ranges[i].left_half().wf() && s.ranges[i].right_half().wf());
        assert forall|j: usize| #[trigger]
            t.holders(j) == if j < t.ranges.len() {
                1nat
            } else {
                0nat
            } by {
            assert(s.holders(j) == t.holders(j));
        }
        assert forall|m: int| 0 <= m < t.completed.len() implies (
        #[trigger] t.ranges[t.completed[m] as int]).remaining() == 0 by {
            assert(s.ranges[s.completed[m] as int].remaining() == 0);
        }
        assert(t.queued(s.ranges[i].right_half()) =~= s.stolen(min));
    }
}

/// Halving a range leaves the completed ranges as they are: they have nothing to halve.
proof fn lemma_halving_keeps_done(s: DownloadState, i: int, min: int)
    requires
        s.wf(),
        0 <= i < s.ranges.len(),
        min > 0,
        s.ranges[i].splittable(min),
    ensures
        s.halved(i).completed_done(),
{
    lemma_listed(s);
    let t = s.halved(i);
    assert forall|m: int| 0 <= m < t.completed.len() implies (
    #[trigger] t.ranges[t.completed[m] as int]).remaining() == 0 by {
        assert(s.ranges[s.completed[m] as int].remaining() == 0);
        assert(s.completed[m] != i);
    }
}

/// Queueing failed ranges again keeps each range held once.
pub proof fn law_draining_loses_nothing(s: DownloadState)
    requires
        s.wf(),
    ensures
        s.drained().wf(),
        s.drained().ranges == s.ranges,
        s.drained().failed.len() == 0,
{
    let t = s.drained();
    assert forall|j: usize| #[trigger]
        t.holders(j) == if j < t.ranges.len() {
            1nat
        } else {
            0nat
        } by {
        broadcast use vstd::seq_lib::group_to_multiset_ensures;

        vstd::seq_lib::lemma_multiset_commutative(s.chunks, s.failed);
        assert(s.holders(j) == if j < s.ranges.len() {
            1nat
        } else {
            0nat
        });
        assert(t.failed.to_multiset().count(j) == 0);
    }
}

/// Taking the finished ranges off the front of the queue keeps each range held once, and what it
/// leaves in front is unfinished.
pub proof fn law_retiring_loses_nothing(s: DownloadState)
    requires
        s.wf(),
    ensures
        s.retired().wf(),
        s.retired().ranges == s.ranges,
        s.retired().active == s.active,
        s.retired().failed == s.failed,
        !s.retired().front_is_done(),
    decreases s.chunks.len(),
{
    if s.front_is_done() {
        let first = s.chunks[0];
        let t = DownloadState {
            ranges: s.ranges,
            chunks: s.chunks.drop_first(),
            active: s.active,
            completed: s.completed.push(first),
            failed: s.failed,
        };
        assert forall|j: usize| #[trigger]
            t.holders(j) == if j < t.ranges.len() {
                1nat
            } else {
                0nat
            } by {
            broadcast use vstd::seq_lib::group_to_multiset_ensures;

            assert(s.holders(j) == if j < s.ranges.len() {
                1nat
            } else {
                0nat
            });
            assert(s.chunks.drop_first() =~= s.chunks.remove(0));
            assert(s.chunks.contains(first));
        }
        lemma_listed(s);
        assert forall|m: int| 0 <= m < t.completed.len() implies (
        #[trigger] t.ranges[t.completed[m] as int]).remaining() == 0 by {
            if m < s.completed.len() {
                assert(s.ranges[s.completed[m] as int].remaining() == 0);
            }
        }
        law_retiring_loses_nothing(t);
    }
}

/// Starting a worker keeps each range held once.
pub proof fn law_starting_loses_nothing(s: DownloadState)
    requires
        s.wf(),
        s.chunks.len() > 0,
    ensures
        s.started().wf(),
{
    let t = s.started();
    let first = s.chunks[0];
    assert forall|j: usize| #[trigger]
        t.holders(j) == if j < t.ranges.len() {
            1nat
        } else {
            0nat
        } by {
        broadcast use vstd::seq_lib::group_to_multiset_ensures;

        assert(s.holders(j) == if j < s.ranges.len() {
            1nat
        } else {
            0nat
        });
        assert(s.chunks.drop_first() =~= s.chunks.remove(0));
        assert(s.chunks.contains(first));
    }
}

/// A worker that ends, well or badly, leaves its range held once: it is done and has nothing left, or
/// it is queued again.
pub proof fn law_ending_loses_nothing(s: DownloadState, k: int, ok: bool)
    requires
        s.wf(),
        0 <= k < s.active.len(),
    ensures
        s.ended(k, ok).wf(),
{
    let t = s.ended(k, ok);
    let x = s.active[k];
    assert forall|j: usize| #[trigger]
        t.holders(j) == if j < t.ranges.len() {
            1nat
        } else {
            0nat
        } by {
        broadcast use vstd::seq_lib::group_to_multiset_ensures;

        assert(s.holders(j) == if j < s.ranges.len() {
            1nat
        } else {
            0nat
        });
        assert(s.active.contains(x));
    }
    lemma_listed(s);
    assert forall|m: int| 0 <= m < t.completed.len() implies (
    #[trigger] t.ranges[t.completed[m] as int]).remaining() == 0 by {
        if m < s.completed.len() {
            assert(s.ranges[s.completed[m] as int].remaining() == 0);
        }
    }
}

/// The largest of some ranges is unique.
pub proof fn lemma_first_largest_unique(ranges: Seq<Chunk>, list: Seq<usize>, k: int)
    requires
        is_first_largest(ranges, list, k),
    ensures
        first_largest(ranges, list) == Some(k),
{
    let m = first_largest(ranges, list)->0;
    assert(is_first_largest(ranges, list, m));
    assert(ranges[list[k] as int].remaining() == ranges[list[m] as int].remaining());
}

/// Where nothing is left of any listed range, none is the largest.
pub proof fn lemma_no_largest(ranges: Seq<Chunk>, list: Seq<usize>)
    requires
        forall|j: int|
            0 <= j < list.len() ==> (#[trigger] ranges[list[j] as int]).remaining() == 0,
    ensures
        first_largest(ranges, list) is None,
{
    if exists|k: int| is_first_largest(ranges, list, k) {
        let k = choose|k: int| is_first_largest(ranges, list, k);
        assert(ranges[list[k] as int].remaining() == 0);
    }
}

/// Splitting the queue up keeps the file whole, and never lets fewer ranges wait.
pub proof fn law_reconciling_keeps_the_file_whole(s: DownloadState, target: int, min: int)
    requires
        s.wf(),
        s.chunks.len() >= target || s.ranges.len() + target - s.chunks.len() <= usize::MAX,
        min > 0,
    ensures
        s.reconciled(target, min).wf(),
        forall|size: int| #[trigger]
            tiles(s.ranges, size) ==> tiles(s.reconciled(target, min).ranges, size),
        within(s.ranges) ==> within(s.reconciled(target, min).ranges),
        s.chunks.len() <= s.reconciled(target, min).chunks.len(),
        s.reconciled(target, min).chunks.len() <= target || s.reconciled(target, min) == s,
        s.reconciled(target, min).active == s.active,
        s.reconciled(target, min).completed == s.completed,
        s.reconciled(target, min).failed == s.failed,
    decreases target - s.chunks.len(),
{
    if s.chunks.len() < target {
        match first_largest(s.ranges, s.chunks) {
            None => {},
            Some(k) => {
                lemma_listed(s);
                assert(is_first_largest(s.ranges, s.chunks, k));
                let i = s.chunks[k] as int;
                assert(0 <= i < s.ranges.len());
                if s.ranges[i].splittable(min) {
                    law_halving_keeps_the_file_whole(s, i, min);
                    let t = s.halved(i);
                    law_reconciling_keeps_the_file_whole(t, target, min);
                }
            },
        }
    }
}

/// A step of the coordinator keeps the session valid and the file whole, and no range that is done
/// is transferred again.
pub proof fn law_step_keeps_the_file_whole(s: DownloadState, profile: Profile, permit: bool)
    requires
        s.wf(),
        profile.wf(),
        s.ranges.len() < usize::MAX,
    ensures
        s.after_step(profile, permit).wf(),
        forall|size: int| #[trigger]
            tiles(s.ranges, size) ==> tiles(s.after_step(profile, permit).ranges, size),
        within(s.ranges) ==> within(s.after_step(profile, permit).ranges),
        s.next_step(profile, permit, false) matches Step::Spawn(i) ==> {
            &&& i < s.after_step(profile, permit).ranges.len()
            &&& s.after_step(profile, permit).ranges[i as int].remaining() > 0
            &&& s.after_step(profile, permit).active.last() == i
        },
{
    let d = s.drained();
    law_draining_loses_nothing(s);
    let r = d.retired();
    law_retiring_loses_nothing(d);
    let min = profile.min_split as int;
    let p = s.prepared(profile);
    if r.chunks.len() == 0 && profile.steal && r.can_steal(min) {
        lemma_listed(r);
        let k = first_largest(r.ranges, r.active)->0;
        assert(is_first_largest(r.ranges, r.active, k));
        let i = r.active[k] as int;
        law_halving_keeps_the_file_whole(r, i, min);
        assert(p == r.halved(i));
        assert(p.chunks[0] == r.ranges.len());
    }
    lemma_listed(p);
    if p.chunks.len() > 0 && permit {
        law_starting_loses_nothing(p);
    }
}

/// Once nothing waits, runs or has failed, every byte of the file is written, by exactly one range.
pub proof fn law_finished_file_is_complete(s: DownloadState, size: int, byte: int)
    requires
        s.wf(),
        tiles(s.ranges, size),
        s.finished(),
        0 <= byte < size,
    ensures
        written_cover(s.ranges, byte) == 1,
{
    broadcast use vstd::seq_lib::group_to_multiset_ensures;

    assert forall|i: int| 0 <= i < s.ranges.len() implies (#[trigger] s.ranges[i]).contains(byte)
        == s.ranges[i].written(byte) by {
        assert(s.holders(i as usize) == 1);
        assert(s.completed.contains(i as usize));
        let k = choose|k: int| 0 <= k < s.completed.len() && s.completed[k] == i as usize;
        assert(s.ranges[s.completed[k] as int].remaining() == 0);
    }
    lemma_count_same(s.ranges, |c: Chunk| c.contains(byte), |c: Chunk| c.written(byte));
    assert(cover(s.ranges, byte) == 1);
}

/// A run that comes to its end, with no range in transfer, has written every byte of the file.
pub proof fn law_finished_run_has_every_byte(
    s: DownloadState,
    profile: Profile,
    permit: bool,
    size: int,
    byte: int,
)
    requires
        s.wf(),
        profile.wf(),
        s.ranges.len() < usize::MAX,
        tiles(s.ranges, size),
        s.active.len() == 0,
        s.next_step(profile, permit, true) == Step::Finished,
        0 <= byte < size,
    ensures
        s.after_step(profile, permit).finished(),
        written_cover(s.after_step(profile, permit).ranges, byte) == 1,
{
    law_draining_loses_nothing(s);
    law_retiring_loses_nothing(s.drained());
    law_step_keeps_the_file_whole(s, profile, permit);
    let r = s.drained().retired();
    if r.can_steal(profile.min_split as int) {
        assert(is_first_largest(r.ranges, r.active, first_largest(r.ranges, r.active)->0));
    }
    law_finished_file_is_complete(s.after_step(profile, permit), size, byte);
}

/// How many bytes of the range lie below `n`.
spec fn below(c: Chunk, n: int) -> int {
    if n <= c.start {
        0
    } else if n <= c.end {
        n - c.start
    } else {
        c.len()
    }
}

/// How many bytes of the ranges lie below `n`.
spec fn sum_below(r: Seq<Chunk>, n: int) -> int
    decreases r.len(),
{
    if r.len() == 0 {
        0
    } else {
        sum_below(r.drop_last(), n) + below(r.last(), n)
    }
}

/// How many bytes all the ranges have written.
spec fn sum_written(r: Seq<Chunk>) -> int
    decreases r.len(),
{
    if r.len() == 0 {
        0
    } else {
        sum_written(r.drop_last()) + r.last().progress
    }
}

proof fn lemma_sum_below_step(r: Seq<Chunk>, n: int)
    requires
        all_valid(r),
        n >= 0,
    ensures
        sum_below(r, n + 1) == sum_below(r, n) + cover(r, n),
        n == 0 ==> sum_below(r, n) == 0,
    decreases r.len(),
{
    if r.len() > 0 {
        assert(r.last().wf());
        assert(all_valid(r.drop_last())) by {
            assert forall|i: int| 0 <= i < r.drop_last().len() implies (
            #[trigger] r.drop_last()[i]).wf() by {
                assert(r.drop_last()[i] == r[i]);
            }
        }
        lemma_sum_below_step(r.drop_last(), n);
    }
}

proof fn lemma_sum_below(r: Seq<Chunk>, size: int, n: int)
    requires
        all_valid(r),
        tiles(r, size),
        0 <= n <= size,
    ensures
        sum_below(r, n) == n,
    decreases n,
{
    if n == 0 {
        lemma_sum_below_step(r, 0);
    } else {
        lemma_sum_below(r, size, n - 1);
        lemma_sum_below_step(r, n - 1);
        assert(cover(r, n - 1) == 1);
    }
}

proof fn lemma_written_at_most(r: Seq<Chunk>, size: int)
    requires
        all_valid(r),
        within(r),
        forall|i: int| 0 <= i < r.len() ==> (#[trigger] r[i]).end < size,
    ensures
        0 <= sum_written(r) <= sum_below(r, size),
        (forall|i: int| 0 <= i < r.len() ==> (#[trigger] r[i]).remaining() == 0) ==> sum_written(r)
            == sum_below(r, size),
    decreases r.len(),
{
    if r.len() > 0 {
        let d = r.drop_last();
        assert forall|i: int| 0 <= i < d.len() implies (#[trigger] d[i]).wf() && d[i].progress
            <= d[i].len() && d[i].end < size by {
            assert(d[i] == r[i]);
        }
        if forall|i: int| 0 <= i < r.len() ==> (#[trigger] r[i]).remaining() == 0 {
            assert forall|i: int| 0 <= i < d.len() implies (#[trigger] d[i]).remaining() == 0 by {
                assert(d[i] == r[i]);
            }
        }
        lemma_written_at_most(d, size);
        assert(r.last() == r[r.len() - 1]);
    }
}

proof fn lemma_written_in_remove(ranges: Seq<Chunk>, list: Seq<usize>, k: int)
    requires
        0 <= k < list.len(),
    ensures
        written_in(ranges, list) == written_in(ranges, list.remove(k))
            + ranges[list[k] as int].progress,
    decreases list.len(),
{
    if k == list.len() - 1 {
        assert(list.remove(k) =~= list.drop_last());
    } else {
        assert(list.remove(k).drop_last() =~= list.drop_last().remove(k));
        assert(list.remove(k).last() == list.last());
        lemma_written_in_remove(ranges, list.drop_last(), k);
    }
}

proof fn lemma_written_in_concat(ranges: Seq<Chunk>, a: Seq<usize>, b: Seq<usize>)
    ensures
        written_in(ranges, a + b) == written_in(ranges, a) + written_in(ranges, b),
    decreases b.len(),
{
    if b.len() == 0 {
        assert(a + b =~= a);
    } else {
        assert((a + b).drop_last() =~= a + b.drop_last());
        lemma_written_in_concat(ranges, a, b.drop_last());
    }
}

proof fn lemma_written_in_prefix(r: Seq<Chunk>, t: Seq<Chunk>, list: Seq<usize>)
    requires
        forall|k: int|
            0 <= k < list.len() ==> (#[trigger] list[k]) < r.len() && list[k] < t.len()
                && r[list[k] as int] == t[list[k] as int],
    ensures
        written_in(r, list) == written_in(t, list),
    decreases list.len(),
{
    if list.len() > 0 {
        assert(list.last() == list[list.len() - 1]);
        assert forall|k: int| 0 <= k < list.drop_last().len() implies (#[trigger] list.drop_last()[k])
            < r.len() && list.drop_last()[k] < t.len() && r[list.drop_last()[k] as int]
            == t[list.drop_last()[k] as int] by {
            assert(list.drop_last()[k] == list[k]);
        }
        lemma_written_in_prefix(r, t, list.drop_last());
    }
}

proof fn lemma_listed_once(ranges: Seq<Chunk>, list: Seq<usize>)
    requires
        ranges.len() <= usize::MAX,
        forall|i: usize| #[trigger]
            list.to_multiset().count(i) == if i < ranges.len() {
                1nat
            } else {
                0nat
            },
    ensures
        written_in(ranges, list) == sum_written(ranges),
    decreases ranges.len(),
{
    broadcast use vstd::seq_lib::group_to_multiset_ensures;

    if ranges.len() == 0 {
        if list.len() > 0 {
            assert(list.contains(list[0]));
            assert(list.to_multiset().count(list[0]) > 0);
        }
    } else {
        let last = (ranges.len() - 1) as usize;
        assert(list.to_multiset().count(last) == 1);
        assert(list.contains(last));
        let k = choose|k: int| 0 <= k < list.len() && list[k] == last;
        let rest = list.remove(k);
        lemma_written_in_remove(ranges, list, k);
        let d = ranges.drop_last();
        assert forall|i: usize| #[trigger]
            rest.to_multiset().count(i) == if i < d.len() {
                1nat
            } else {
                0nat
            } by {
            assert(list.to_multiset().count(i) == if i < ranges.len() {
                1nat
            } else {
                0nat
            });
        }
        lemma_listed_once(d, rest);
        assert forall|m: int| 0 <= m < rest.len() implies (#[trigger] rest[m]) < d.len() by {
            assert(rest.contains(rest[m]));
            assert(rest.to_multiset().count(rest[m]) > 0);
        }
        lemma_written_in_prefix(ranges, d, rest);
    }
}

/// The progress of a session never exceeds the size of the file, and reaches it once every range is
/// done. A range between a failed worker and the queue is not counted, so the law is stated for a
/// session with none.
pub proof fn law_progress_is_bounded_by_size(s: DownloadState, size: int)
    requires
        s.wf(),
        within(s.ranges),
        size >= 0,
        tiles(s.ranges, size),
        s.failed.len() == 0,
    ensures
        0 <= s.total_progress() <= size,
        (forall|i: int| 0 <= i < s.ranges.len() ==> (#[trigger] s.ranges[i]).remaining() == 0)
            ==> s.total_progress() == size,
{
    broadcast use vstd::seq_lib::group_to_multiset_ensures;

    let all = s.chunks + s.active + s.completed;
    lemma_written_in_concat(s.ranges, s.chunks, s.active);
    lemma_written_in_concat(s.ranges, s.chunks + s.active, s.completed);
    assert forall|i: usize| #[trigger]
        all.to_multiset().count(i) == if i < s.ranges.len() {
            1nat
        } else {
            0nat
        } by {
        vstd::seq_lib::lemma_multiset_commutative(s.chunks, s.active);
        vstd::seq_lib::lemma_multiset_commutative(s.chunks + s.active, s.completed);
        assert(s.holders(i) == if i < s.ranges.len() {
            1nat
        } else {
            0nat
        });
        assert(s.failed.to_multiset().count(i) == 0);
    }
    lemma_listed_once(s.ranges, all);
    lemma_sum_below(s.ranges, size, size);
    assert forall|i: int| 0 <= i < s.ranges.len() implies (#[trigger] s.ranges[i]).end < size by {
        let e = s.ranges[i].end as int;
        assert(s.ranges[i].wf());
        lemma_count_some(s.ranges, i, |c: Chunk| c.contains(e));
        assert(cover(s.ranges, e) >= 1);
    }
    lemma_written_at_most(s.ranges, size);
}

proof fn lemma_written_in_halved(s: DownloadState, i: int, list: Seq<usize>)
    requires
        0 <= i < s.ranges.len(),
        forall|k: int| 0 <= k < list.len() ==> (#[trigger] list[k]) < s.ranges.len(),
    ensures
        written_in(s.halved(i).ranges, list) == written_in(s.ranges, list),
    decreases list.len(),
{
    if list.len() > 0 {
        assert(list.last() == list[list.len() - 1]);
        assert forall|k: int| 0 <= k < list.drop_last().len() implies (
        #[trigger] list.drop_last()[k]) < s.ranges.len() by {
            assert(list.drop_last()[k] == list[k]);
        }
        lemma_written_in_halved(s, i, list.drop_last());
    }
}

/// Halving a range changes nothing about how many bytes are written.
pub proof fn law_halving_keeps_progress(s: DownloadState, i: int)
    requires
        s.wf(),
        s.ranges.len() < usize::MAX,
        0 <= i < s.ranges.len(),
    ensures
        s.halved(i).total_progress() == s.total_progress(),
{
    lemma_listed(s);
    let t = s.halved(i);
    lemma_written_in_halved(s, i, s.chunks);
    lemma_written_in_halved(s, i, s.active);
    lemma_written_in_halved(s, i, s.completed);
    assert(t.chunks.drop_last() =~= s.chunks);
    assert(t.ranges[t.chunks.last() as int].progress == 0);
}

/// Splitting the queue up changes nothing about how many bytes are written.
pub proof fn law_reconciling_keeps_progress(s: DownloadState, target: int, min: int)
    requires
        s.wf(),
        s.chunks.len() >= target || s.ranges.len() + target - s.chunks.len() <= usize::MAX,
        min > 0,
    ensures
        s.reconciled(target, min).total_progress() == s.total_progress(),
    decreases target - s.chunks.len(),
{
    if s.chunks.len() < target {
        match first_largest(s.ranges, s.chunks) {
            None => {},
            Some(k) => {
                lemma_listed(s);
                assert(is_first_largest(s.ranges, s.chunks, k));
                let i = s.chunks[k] as int;
                if s.ranges[i].splittable(min) {
                    law_halving_keeps_the_file_whole(s, i, min);
                    law_halving_keeps_progress(s, i);
                    law_reconciling_keeps_progress(s.halved(i), target, min);
                }
            },
        }
    }
}

/// Where something is left of a listed range, one of them is the largest.
proof fn lemma_some_largest(ranges: Seq<Chunk>, list: Seq<usize>, j: int) -> (k: int)
    requires
        0 <= j < list.len(),
        ranges[list[j] as int].remaining() > 0,
    ensures
        is_first_largest(ranges, list, k),
    decreases list.len(),
{
    let n = list.len() - 1;
    let d = list.drop_last();
    if exists|m: int| 0 <= m < n && (#[trigger] ranges[list[m] as int]).remaining() > 0 {
        let m = choose|m: int| 0 <= m < n && (#[trigger] ranges[list[m] as int]).remaining() > 0;
        assert(d[m] == list[m]);
        let k = lemma_some_largest(ranges, d, m);
        assert(d[k] == list[k]);
        assert forall|i: int| 0 <= i < n implies (#[trigger] ranges[list[i] as int]).remaining()
            <= ranges[list[k] as int].remaining() && (i < k ==> ranges[list[i] as int].remaining()
            < ranges[list[k] as int].remaining()) by {
            assert(ranges[d[i] as int].remaining() <= ranges[d[k] as int].remaining());
        }
        if ranges[list[n] as int].remaining() > ranges[list[k] as int].remaining() {
            n
        } else {
            k
        }
    } else {
        n
    }
}

/// An idle worker gets half of a range in transfer wherever one of them misses at least twice `min`
/// bytes. It gets the second half of what is missing of a range that misses no less than any other in
/// transfer; that range keeps the first half, and no other range changes.
pub proof fn law_idle_workers_take_half_of_the_largest(s: DownloadState, min: int, k: int)
    requires
        s.wf(),
        min > 0,
        0 <= k < s.active.len(),
    ensures
        ({
            let c = s.ranges[s.active[k] as int];
            c.end - c.start + 1 - c.progress >= 2 * min ==> s.stolen_half(min) is Some
        }),
        s.stolen_half(min) matches Some(half) ==> exists|m: int|
            {
                let robbed = #[trigger] s.active[m];
                let c = s.ranges[robbed as int];
                let kept = s.robbed(min).ranges[robbed as int];
                let rest = c.end - c.start + 1 - c.progress;
                let other = s.ranges[s.active[k] as int];
                &&& 0 <= m < s.active.len()
                &&& rest >= 2 * min
                &&& other.end - other.start + 1 - other.progress <= rest
                &&& half.end == c.end && half.progress == 0
                &&& half.end - half.start + 1 == rest - rest / 2
                &&& kept.start == c.start && kept.end + 1 == half.start && kept.progress
                    == c.progress
                &&& s.robbed(min).ranges == s.ranges.update(robbed as int, kept)
            },
        s.stolen_half(min) is None ==> s.robbed(min) == s,
{
    lemma_listed(s);
    let c = s.ranges[s.active[k] as int];
    assert(c.wf());
    if c.remaining() > 0 {
        let m = lemma_some_largest(s.ranges, s.active, k);
        lemma_first_largest_unique(s.ranges, s.active, m);
    }
    if s.can_steal(min) {
        let m = first_largest(s.ranges, s.active)->0;
        assert(is_first_largest(s.ranges, s.active, m));
        assert(s.ranges[s.active[m] as int].wf());
        assert(s.robbed(min).ranges =~= s.ranges.update(
            s.active[m] as int,
            s.robbed(min).ranges[s.active[m] as int],
        ));
        assert(c.remaining() <= s.ranges[s.active[m] as int].remaining());
    }
}

proof fn lemma_retired_from(s: DownloadState) -> (m: int)
    ensures
        0 <= m <= s.chunks.len(),
        s.retired().chunks == s.chunks.skip(m),
        s.retired().completed == s.completed + s.chunks.take(m),
        s.retired().active == s.active,
        s.retired().failed == s.failed,
        s.retired().ranges == s.ranges,
        forall|j: int|
            0 <= j < m ==> (#[trigger] s.ranges[s.chunks[j] as int]).remaining() == 0,
        m < s.chunks.len() ==> s.ranges[s.chunks[m] as int].remaining() != 0,
    decreases s.chunks.len(),
{
    if s.front_is_done() {
        let t = DownloadState {
            ranges: s.ranges,
            chunks: s.chunks.drop_first(),
            active: s.active,
            completed: s.completed.push(s.chunks[0]),
            failed: s.failed,
        };
        let n = lemma_retired_from(t);
        assert(t.chunks.skip(n) =~= s.chunks.skip(n + 1));
        assert(t.completed + t.chunks.take(n) =~= s.completed + s.chunks.take(n + 1));
        assert forall|j: int| 0 <= j < n + 1 implies (
        #[trigger] s.ranges[s.chunks[j] as int]).remaining() == 0 by {
            if j > 0 {
                assert(t.chunks[j - 1] == s.chunks[j]);
                assert(s.ranges[t.chunks[j - 1] as int].remaining() == 0);
            }
        }
        if n + 1 < s.chunks.len() {
            assert(t.chunks[n] == s.chunks[n + 1]);
        }
        n + 1
    } else {
        assert(s.chunks.skip(0) =~= s.chunks);
        assert(s.completed + s.chunks.take(0) =~= s.completed);
        0
    }
}

/// The range at a place of a line misses bytes: its first unwritten byte does not lie behind its end.
pub open spec fn misses_bytes(ranges: Seq<Chunk>, line: Seq<usize>, i: int) -> bool {
    ranges[line[i] as int].start + ranges[line[i] as int].progress <= ranges[line[i] as int].end
}

/// A worker that may start is put to work wherever there is some: the first waiting range that misses
/// bytes is transferred, those whose worker failed wait behind the others, and where none waits half
/// of a range in transfer is, if one is large enough and that is wanted. Ranges before it that miss
/// nothing are filed as done. Without a permit nothing is started.
pub proof fn law_workers_are_kept_busy(s: DownloadState, profile: Profile, idle: bool, k: int)
    requires
        s.wf(),
        profile.wf(),
        s.ranges.len() < usize::MAX,
    ensures
        ({
            let line = s.chunks + s.failed;
            &&& 0 <= k < line.len() && misses_bytes(s.ranges, line, k) && (forall|j: int| 0 <= j < k ==> !misses_bytes(s.ranges, line, j))
                ==> s.next_step(profile, true, idle) == Step::Spawn(line[k])
                && s.after_step(profile, true).active == s.active.push(line[k])
                && s.after_step(profile, true).chunks == line.skip(k + 1)
                && s.after_step(profile, true).completed == s.completed + line.take(k)
                && s.after_step(profile, true).ranges == s.ranges
            &&& (forall|j: int| 0 <= j < line.len() ==> !misses_bytes(s.ranges, line, j)) && 0 <= k < s.active.len()
                && profile.steal && ({
                let c = s.ranges[s.active[k] as int];
                c.end - c.start + 1 - c.progress >= 2 * profile.min_split
            }) ==> s.next_step(profile, true, idle) == Step::Spawn(s.ranges.len() as usize)
            &&& (forall|j: int| 0 <= j < line.len() ==> !misses_bytes(s.ranges, line, j)) && !profile.steal
                ==> s.next_step(profile, true, idle) == if idle {
                Step::Finished
            } else {
                Step::Wait
            }
            &&& !(s.next_step(profile, false, idle) is Spawn)
        }),
{
    let line = s.chunks + s.failed;
    let d = s.drained();
    law_draining_loses_nothing(s);
    lemma_listed(d);
    assert(d.chunks == line);
    let m = lemma_retired_from(d);
    assert forall|j: int| 0 <= j < line.len() implies (misses_bytes(s.ranges, line, j) <==> (
    #[trigger] s.ranges[line[j] as int]).remaining() != 0) by {
        assert(s.ranges[d.chunks[j] as int].wf());
    }
    if 0 <= k < line.len() && misses_bytes(s.ranges, line, k) && (forall|j: int| 0 <= j < k ==> !misses_bytes(s.ranges, line, j)) {
        assert(m == k) by {
            if m < k {
                assert(misses_bytes(s.ranges, line, m));
            } else if k < m {
                assert(s.ranges[line[k] as int].remaining() == 0);
            }
        }
        assert(line.skip(k).drop_first() =~= line.skip(k + 1));
        assert(line.skip(k)[0] == line[k]);
    }
    if forall|j: int| 0 <= j < line.len() ==> !misses_bytes(s.ranges, line, j) {
        assert(m == line.len()) by {
            if m < line.len() {
                assert(misses_bytes(s.ranges, line, m));
            }
        }
        let r = d.retired();
        assert(r.chunks.len() == 0);
        if 0 <= k < s.active.len() && profile.steal {
            law_retiring_loses_nothing(d);
            law_idle_workers_take_half_of_the_largest(r, profile.min_split as int, k);
        }
    }
}

/// A worker that ended well and left nothing of its range has it filed as done; in any other case the
/// range is kept to be queued again. No other range is touched.
pub proof fn law_ended_workers_hand_their_range_over(s: DownloadState, k: int, ok: bool)
    requires
        s.wf(),
        0 <= k < s.active.len(),
    ensures
        ({
            let i = s.active[k];
            let c = s.ranges[i as int];
            let t = s.ended(k, ok);
            &&& t.ranges == s.ranges
            &&& t.chunks == s.chunks
            &&& t.active == s.active.take(k) + s.active.skip(k + 1)
            &&& ok && c.start + c.progress > c.end ==> t.completed == s.completed.push(i)
                && t.failed == s.failed
            &&& !ok || c.start + c.progress <= c.end ==> t.failed == s.failed.push(i)
                && t.completed == s.completed
        }),
{
    lemma_listed(s);
    assert(s.ranges[s.active[k] as int].wf());
    assert(s.active.remove(k) =~= s.active.take(k) + s.active.skip(k + 1));
}

/// Splitting the queue up stops only where enough ranges wait, or where none that waits misses twice
/// `min` bytes; the ranges that waited before still wait, in their order and before the new ones.
pub proof fn law_reconciling_goes_as_far_as_it_can(
    s: DownloadState,
    target: int,
    min: int,
    k: int,
)
    requires
        s.wf(),
        s.chunks.len() >= target || s.ranges.len() + target - s.chunks.len() <= usize::MAX,
        min > 0,
    ensures
        ({
            let t = s.reconciled(target, min);
            &&& t.chunks.len() >= target || (0 <= k < t.chunks.len() ==> {
                let c = t.ranges[t.chunks[k] as int];
                c.end - c.start + 1 - c.progress < 2 * min
            })
            &&& s.chunks.len() <= t.chunks.len()
            &&& t.chunks.take(s.chunks.len() as int) == s.chunks
            &&& t.ranges.len() - s.ranges.len() == t.chunks.len() - s.chunks.len()
        }),
    decreases target - s.chunks.len(),
{
    assert(s.chunks.take(s.chunks.len() as int) =~= s.chunks);
    if s.chunks.len() < target {
        lemma_listed(s);
        if 0 <= k < s.chunks.len() {
            assert(s.ranges[s.chunks[k] as int].wf());
            if s.ranges[s.chunks[k] as int].remaining() > 0 {
                let m = lemma_some_largest(s.ranges, s.chunks, k);
                lemma_first_largest_unique(s.ranges, s.chunks, m);
                assert(s.ranges[s.chunks[k] as int].remaining()
                    <= s.ranges[s.chunks[m] as int].remaining());
            }
        }
        match first_largest(s.ranges, s.chunks) {
            None => {},
            Some(m) => {
                assert(is_first_largest(s.ranges, s.chunks, m));
                let i = s.chunks[m] as int;
                if s.ranges[i].splittable(min) {
                    law_halving_keeps_the_file_whole(s, i, min);
                    let h = s.halved(i);
                    law_reconciling_goes_as_far_as_it_can(h, target, min, k);
                    let t = s.reconciled(target, min);
                    assert(h.chunks.take(s.chunks.len() as int) =~= s.chunks);
                    assert(t.chunks.take(h.chunks.len() as int).take(s.chunks.len() as int)
                        =~= t.chunks.take(s.chunks.len() as int));
                }
            },
        }
    }
}

/// The progress of a session is what its ranges that wait, run or are done have written, each counted
/// once.
pub proof fn law_progress_adds_up(ranges: Seq<Chunk>, list: Seq<usize>, i: usize, s: DownloadState)
    ensures
        written_in(ranges, Seq::<usize>::empty()) == 0,
        written_in(ranges, list.push(i)) == written_in(ranges, list) + ranges[i as int].progress,
        s.total_progress() == written_in(s.ranges, s.chunks) + written_in(s.ranges, s.active)
            + written_in(s.ranges, s.completed),
{
    assert(list.push(i).drop_last() =~= list);
}

/// A file is covered where each of its bytes lies in one range and no range reaches outside of it: how
/// many ranges hold a byte is counted one by one, by their bounds.
pub proof fn law_cover_counts_ranges(ranges: Seq<Chunk>, c: Chunk, byte: int)
    ensures
        cover(Seq::<Chunk>::empty(), byte) == 0,
        cover(ranges.push(c), byte) == cover(ranges, byte) + if c.start <= byte <= c.end {
            1nat
        } else {
            0nat
        },
        written_cover(Seq::<Chunk>::empty(), byte) == 0,
        written_cover(ranges.push(c), byte) == written_cover(ranges, byte) + if c.start <= byte
            <= c.end && byte < c.start + c.progress {
            1nat
        } else {
            0nat
        },
{
    assert(ranges.push(c).drop_last() =~= ranges);
}

/// Of the ranges that miss most, the first is the one that is cut.
pub proof fn law_the_first_of_the_largest_is_taken(ranges: Seq<Chunk>, list: Seq<usize>, k: int)
    requires
        0 <= k < list.len(),
        ranges[list[k] as int].remaining() > 0,
        forall|j: int|
            0 <= j < list.len() ==> (#[trigger] ranges[list[j] as int]).remaining()
                <= ranges[list[k] as int].remaining(),
        forall|j: int|
            0 <= j < k ==> (#[trigger] ranges[list[j] as int]).remaining()
                < ranges[list[k] as int].remaining(),
    ensures
        first_largest(ranges, list) == Some(k),
{
    assert(is_first_largest(ranges, list, k));
    let m = choose|m: int| is_first_largest(ranges, list, m);
    assert(is_first_largest(ranges, list, m));
    if m < k {
        assert(ranges[list[m] as int].remaining() < ranges[list[k] as int].remaining());
    } else if k < m {
        assert(ranges[list[k] as int].remaining() < ranges[list[m] as int].remaining());
    }
}

} // verus!
