//! Byte ranges of a file, how they are halved, and the decisions of one range transfer.

use core::ops::RangeInclusive;
use vstd::arithmetic::power2::{lemma2_to64, pow2};
use vstd::prelude::*;

verus! {

/// How long a request or a read may stall, in seconds.
pub const TIMEOUT_SECS: u64 = 30;

/// The smallest half that a split may leave: a range is halved only where both halves reach it.
pub const MIN_SPLIT_SIZE: u64 = 1024 * 1024;

/// How often a transfer retries in a row before it gives up.
pub const MAX_RETRIES: u32 = 5;

/// How many bytes a transfer writes before it flushes them to disk.
pub const FLUSH_INTERVAL: u64 = 1024 * 1024;

/// `RangeInclusive::start` returns the lower bound of a range that was not iterated to its end.
pub assume_specification<Idx>[ RangeInclusive::<Idx>::start ](r: &RangeInclusive<Idx>) -> (res:
    &Idx)
    ensures
        !r@.exhausted ==> *res == r@.start,
;

/// `RangeInclusive::end` returns the upper bound of a range that was not iterated to its end.
pub assume_specification<Idx>[ RangeInclusive::<Idx>::end ](r: &RangeInclusive<Idx>) -> (res: &Idx)
    ensures
        !r@.exhausted ==> *res == r@.end,
;

/// A range of bytes to download, both ends inclusive, and how many of them are written.
#[derive(Debug, Clone, Copy, PartialEq, Eq, Structural)]
pub struct Chunk {
    /// First byte of the range; it never changes.
    pub start: u64,
    /// Last byte of the range; a split moves it down.
    pub end: u64,
    /// How many bytes of the range, counted from its start, are written.
    pub progress: u64,
}

impl Chunk {
    /// The range is not empty and its length is a `u64`.
    pub open spec fn wf(self) -> bool {
        self.start <= self.end && self.end - self.start < u64::MAX
    }

    /// How many bytes the range holds.
    pub open spec fn len(self) -> int {
        self.end - self.start + 1
    }

    /// How many bytes of the range are not written yet.
    pub open spec fn remaining(self) -> int {
        if self.progress >= self.len() {
            0
        } else {
            self.len() - self.progress
        }
    }

    /// The byte lies in the range.
    pub open spec fn contains(self, byte: int) -> bool {
        self.start <= byte <= self.end
    }

    /// The byte lies in the range and is written.
    pub open spec fn written(self, byte: int) -> bool {
        self.contains(byte) && byte < self.start + self.progress
    }

    /// The first byte of the half that a split gives away: the middle of what is not written.
    pub open spec fn split_point(self) -> int {
        self.start + self.progress + self.remaining() / 2
    }

    /// Whether both halves of what is not written reach `min` bytes.
    pub open spec fn splittable(self, min: int) -> bool {
        self.remaining() >= 2 * min
    }

    /// What a split leaves in place.
    pub open spec fn left_half(self) -> Chunk {
        Chunk { start: self.start, end: (self.split_point() - 1) as u64, progress: self.progress }
    }

    /// What a split gives away.
    pub open spec fn right_half(self) -> Chunk {
        Chunk { start: self.split_point() as u64, end: self.end, progress: 0 }
    }

    /// A range with the given bounds and progress.
    pub fn new(range: RangeInclusive<u64>, progress: u64) -> (res: Self)
        requires
            !range@.exhausted,
        ensures
            res == (Chunk { start: range@.start, end: range@.end, progress }),
    {
        Chunk { start: *range.start(), end: *range.end(), progress }
    }

    /// How many bytes of the range are still to be downloaded.
    pub fn remaining_bytes(&self) -> (res: u64)
        requires
            self.wf(),
        ensures
            res == self.remaining(),
            res == 0 <==> self.start + self.progress > self.end,
            res > 0 ==> self.start + self.progress + res == self.end + 1,
    {
        let total_size: u64 = (self.end - self.start) + 1;
        total_size.saturating_sub(self.progress)
    }

    /// Halves what is not written of the range, if that is at least twice `min` bytes: the range
    /// keeps the first half, and the second is returned as a range of its own.
    pub fn split_at_least(&mut self, min: u64) -> (res: Option<Chunk>)
        requires
            old(self).wf(),
            0 < min <= u64::MAX / 2,
        ensures
            old(self).splittable(min as int) ==> {
                &&& res == Some(old(self).right_half())
                &&& *final(self) == old(self).left_half()
            },
            !old(self).splittable(min as int) ==> res is None && *final(self) == *old(self),
            res is Some <==> old(self).end - old(self).start + 1 - old(self).progress >= 2 * min,
            res matches Some(right) ==> {
                &&& right.end == old(self).end
                &&& right.progress == 0
                &&& final(self).end + 1 == right.start
            },
            final(self).start == old(self).start,
            final(self).progress == old(self).progress,
            res is None ==> final(self).end == old(self).end,
    {
        let remaining = self.remaining_bytes();
        if remaining < min * 2 {
            return None;
        }
        let split_point: u64 = self.start + self.progress + (remaining / 2);
        let right = Chunk { start: split_point, end: self.end, progress: 0 };
        self.end = split_point - 1;
        Some(right)
    }

    /// Halves what is not written of the range, unless a half would be below `MIN_SPLIT_SIZE`.
    pub fn split(&mut self) -> (res: Option<Chunk>)
        requires
            old(self).wf(),
        ensures
            old(self).splittable(MIN_SPLIT_SIZE as int) ==> {
                &&& res == Some(old(self).right_half())
                &&& *final(self) == old(self).left_half()
            },
            !old(self).splittable(MIN_SPLIT_SIZE as int) ==> res is None && *final(self) == *old(
                self,
            ),
            res is Some <==> old(self).end - old(self).start + 1 - old(self).progress >= 2 * 1024
                * 1024,
    {
        self.split_at_least(MIN_SPLIT_SIZE)
    }
}

/// A split loses no byte and doubles none: a byte of the range lies in exactly one half, the halves
/// hold nothing else, they touch, the start stays, and what was written stays written.
pub proof fn law_split_is_exact(c: Chunk, min: int, byte: int)
    requires
        c.wf(),
        min > 0,
        c.splittable(min),
    ensures
        c.left_half().wf(),
        c.right_half().wf(),
        c.left_half().start == c.start,
        c.right_half().end == c.end,
        c.left_half().end + 1 == c.right_half().start,
        c.contains(byte) <==> c.left_half().contains(byte) || c.right_half().contains(byte),
        !(c.left_half().contains(byte) && c.right_half().contains(byte)),
        c.written(byte) <==> c.left_half().written(byte) || c.right_half().written(byte),
        c.left_half().len() + c.right_half().len() == c.len(),
        c.left_half().remaining() + c.right_half().remaining() == c.remaining(),
        c.left_half().remaining() >= min,
        c.right_half().remaining() >= min,
{
}

/// What a transfer does next.
#[derive(Debug, Clone, Copy, PartialEq, Eq, Structural)]
pub enum NextRequest {
    /// Nothing of the range is left.
    Done,
    /// Ask for these bytes, both ends inclusive, and write them from the first on.
    Request { from: u64, to: u64 },
}

/// Whether a transfer tries again.
#[derive(Debug, Clone, Copy, PartialEq, Eq, Structural)]
pub enum Retry {
    /// Try again after so many seconds.
    After(u64),
    /// Report the failure.
    GiveUp,
}

/// What a transfer does with a response.
#[derive(Debug, Clone, Copy, PartialEq, Eq, Structural)]
pub enum StatusAction {
    /// Read the body.
    Stream,
    /// Try again after so many seconds.
    RetryAfter(u64),
    /// Report the status.
    Reject,
}

/// What a transfer does with a packet of the body.
#[derive(Debug, Clone, Copy, PartialEq, Eq, Structural)]
pub enum PacketAction {
    /// Drop it: the range ends before it.
    Stop,
    /// Drop it: what is missing of the range begins behind it.
    Skip,
    /// Leave out so many of its first bytes, and write so many of those that follow.
    Write { skip: usize, len: usize },
}

/// What a transfer does once a packet is written.
#[derive(Debug, Clone, Copy, PartialEq, Eq, Structural)]
pub struct AfterWrite {
    /// Flush what is buffered.
    pub flush: bool,
    /// The packet reached past the range: the transfer is over.
    pub finished: bool,
}

/// Whether the HTTP status is a success (2xx).
pub open spec fn is_success(status: u16) -> bool {
    200 <= status < 300
}

/// The status of a response whose body is the range that was asked for (206).
pub const PARTIAL_CONTENT: u16 = 206;

/// The offset in the file at which the body of a successful response begins, where `from` is the
/// first byte that was asked for: a server that does not serve ranges sends the whole file.
pub open spec fn body_start(status: u16, from: u64) -> u64 {
    if status == PARTIAL_CONTENT {
        from
    } else {
        0
    }
}

/// Whether the HTTP status is a server error (5xx).
pub open spec fn is_server_error(status: u16) -> bool {
    500 <= status < 600
}

/// The answer to the failure that follows `retries` retries in a row.
pub open spec fn retry_after(retries: u32) -> Retry {
    if retries < MAX_RETRIES {
        Retry::After(pow2((retries + 1) as nat) as u64)
    } else {
        Retry::GiveUp
    }
}

/// The bounds of the next request for a range.
pub open spec fn next_request_of(c: Chunk) -> NextRequest {
    if c.start + c.progress > c.end {
        NextRequest::Done
    } else {
        NextRequest::Request { from: (c.start + c.progress) as u64, to: c.end }
    }
}

/// How many bytes of a packet belong to a range.
pub open spec fn bytes_to_write(c: Chunk, packet_len: int) -> int {
    if packet_len > c.remaining() {
        c.remaining()
    } else {
        packet_len
    }
}

/// What is done with a packet of which the first `skip` bytes lie before what is missing.
pub open spec fn packet_action(c: Chunk, skip: u64, packet_len: int) -> PacketAction {
    if c.remaining() == 0 {
        PacketAction::Stop
    } else if skip >= packet_len {
        PacketAction::Skip
    } else {
        PacketAction::Write {
            skip: skip as usize,
            len: bytes_to_write(c, packet_len - skip) as usize,
        }
    }
}

/// How many bytes of the body are still to be left out once a packet has been looked at.
pub open spec fn skip_after(c: Chunk, skip: u64, packet_len: int) -> u64 {
    if c.remaining() == 0 {
        skip
    } else if skip >= packet_len {
        (skip - packet_len) as u64
    } else {
        0
    }
}

/// The retry count and the flush count of one transfer, and how much of its body is left out.
#[derive(Debug, Clone, Copy, PartialEq, Eq, Structural)]
pub struct Transfer {
    /// Failures since the last packet.
    pub retry_count: u32,
    /// Bytes written since the last flush.
    pub bytes_since_flush: u64,
    /// Bytes of the body that lie before what is missing of the range.
    pub skip: u64,
}

impl Transfer {
    /// A transfer that has not failed and has nothing to flush.
    pub fn new() -> (res: Self)
        ensures
            res == (Transfer { retry_count: 0, bytes_since_flush: 0, skip: 0 }),
    {
        Transfer { retry_count: 0, bytes_since_flush: 0, skip: 0 }
    }

    /// Which bytes to ask for: from the first byte that is not written to the end of the range.
    pub fn next_request(chunk: &Chunk) -> (res: NextRequest)
        requires
            chunk.start + chunk.progress <= u64::MAX,
        ensures
            res == next_request_of(*chunk),
    {
        let from: u64 = chunk.start + chunk.progress;
        if from > chunk.end {
            NextRequest::Done
        } else {
            NextRequest::Request { from, to: chunk.end }
        }
    }

    /// Counts a failed connection, or a body that broke off, and says whether to try again.
    pub fn on_failure(&mut self) -> (res: Retry)
        ensures
            res == retry_after(old(self).retry_count),
            final(self).bytes_since_flush == old(self).bytes_since_flush,
            final(self).skip == old(self).skip,
            final(self).retry_count == if old(self).retry_count < MAX_RETRIES {
                old(self).retry_count + 1
            } else {
                old(self).retry_count as int
            },
    {
        if self.retry_count < MAX_RETRIES {
            self.retry_count = self.retry_count + 1;
            proof {
                lemma2_to64();
            }
            let delay: u64 = match self.retry_count {
                1 => 2,
                2 => 4,
                3 => 8,
                4 => 16,
                _ => 32,
            };
            Retry::After(delay)
        } else {
            Retry::GiveUp
        }
    }

    /// Judges the status of a response to a request for the bytes from `from` on: only a server error
    /// is worth another try. Where the body begins before `from`, what lies between is left out.
    pub fn on_status(&mut self, status: u16, from: u64) -> (res: StatusAction)
        ensures
            is_success(status) ==> res == StatusAction::Stream && *final(self) == (Transfer {
                retry_count: old(self).retry_count,
                bytes_since_flush: 0,
                skip: (from - body_start(status, from)) as u64,
            }),
            !is_success(status) && !is_server_error(status) ==> res == StatusAction::Reject
                && *final(self) == *old(self),
            is_server_error(status) ==> {
                &&& res == match retry_after(old(self).retry_count) {
                    Retry::After(secs) => StatusAction::RetryAfter(secs),
                    Retry::GiveUp => StatusAction::Reject,
                }
                &&& final(self).bytes_since_flush == old(self).bytes_since_flush
                &&& final(self).skip == old(self).skip
                &&& final(self).retry_count == if old(self).retry_count < MAX_RETRIES {
                    old(self).retry_count + 1
                } else {
                    old(self).retry_count as int
                }
            },
    {
        if 200 <= status && status < 300 {
            self.bytes_since_flush = 0;
            self.skip = if status == PARTIAL_CONTENT {
                0
            } else {
                from
            };
            StatusAction::Stream
        } else if 500 <= status && status < 600 {
            match self.on_failure() {
                Retry::After(secs) => StatusAction::RetryAfter(secs),
                Retry::GiveUp => StatusAction::Reject,
            }
        } else {
            StatusAction::Reject
        }
    }

    /// Says which part of a packet to write. The end of the range is looked up anew for each packet,
    /// since a split may have moved it.
    pub fn on_packet(&mut self, chunk: &Chunk, packet_len: usize) -> (res: PacketAction)
        requires
            chunk.wf(),
            chunk.start + chunk.progress <= u64::MAX,
        ensures
            *final(self) == (Transfer {
                retry_count: 0,
                bytes_since_flush: old(self).bytes_since_flush,
                skip: skip_after(*chunk, old(self).skip, packet_len as int),
            }),
            res == packet_action(*chunk, old(self).skip, packet_len as int),
    {
        self.retry_count = 0;
        let from: u64 = chunk.start + chunk.progress;
        if from > chunk.end {
            return PacketAction::Stop;
        }
        if self.skip >= packet_len as u64 {
            self.skip = self.skip - packet_len as u64;
            return PacketAction::Skip;
        }
        let skip: usize = self.skip as usize;
        self.skip = 0;
        let rest: usize = packet_len - skip;
        let left: u64 = chunk.end - from + 1;
        if rest as u64 > left {
            PacketAction::Write { skip, len: left as usize }
        } else {
            PacketAction::Write { skip, len: rest }
        }
    }

    /// Records that the first `written` of the `offered` bytes of a packet that were not left out are
    /// written.
    pub fn on_written(&mut self, chunk: &mut Chunk, written: usize, offered: usize) -> (res:
        AfterWrite)
        requires
            written <= offered,
            old(chunk).progress + written <= u64::MAX,
            old(self).bytes_since_flush + written <= u64::MAX,
        ensures
            *final(chunk) == (Chunk {
                start: old(chunk).start,
                end: old(chunk).end,
                progress: (old(chunk).progress + written) as u64,
            }),
            res.finished == (written < offered),
            res.flush == (old(self).bytes_since_flush + written >= FLUSH_INTERVAL),
            res.flush == (old(self).bytes_since_flush + written >= 0x10_0000),
            *final(self) == (Transfer {
                retry_count: old(self).retry_count,
                bytes_since_flush: if res.flush {
                    0
                } else {
                    (old(self).bytes_since_flush + written) as u64
                },
                skip: old(self).skip,
            }),
    {
        chunk.progress = chunk.progress + written as u64;
        self.bytes_since_flush = self.bytes_since_flush + written as u64;
        let flush = self.bytes_since_flush >= FLUSH_INTERVAL;
        if flush {
            self.bytes_since_flush = 0;
        }
        AfterWrite { flush, finished: written < offered }
    }

    /// Whether the end of a body is the end of the range; if not, the rest is asked for.
    pub fn on_stream_end(chunk: &Chunk) -> (res: bool)
        requires
            chunk.wf(),
        ensures
            res == (chunk.remaining() == 0),
    {
        chunk.progress > chunk.end - chunk.start
    }
}

/// A transfer asks for exactly the bytes of the range that are not written, so that nothing is
/// skipped and nothing is fetched twice after a failure.
pub proof fn law_request_is_the_rest(c: Chunk, byte: int)
    requires
        c.wf(),
        c.start + c.progress <= u64::MAX,
    ensures
        next_request_of(c) == NextRequest::Done <==> c.remaining() == 0,
        next_request_of(c) matches NextRequest::Request { from, to } ==> {
            (from <= byte <= to) <==> (c.contains(byte) && !c.written(byte))
        },
{
}

/// What is written of a packet stays inside the range, even where a split has just moved its end,
/// and a packet that is cut short completes the range.
pub proof fn law_write_stays_inside(c: Chunk, packet_len: int)
    requires
        c.wf(),
        c.progress <= c.len(),
        packet_len >= 0,
    ensures
        ({
            let n = bytes_to_write(c, packet_len);
            let after = Chunk { start: c.start, end: c.end, progress: (c.progress + n) as u64 };
            &&& 0 <= n <= packet_len
            &&& c.start + c.progress + n <= c.end + 1
            &&& after.progress <= after.len()
            &&& n < packet_len ==> after.remaining() == 0
        }),
{
}

/// Every byte of a body is written where it belongs, whether the server serves ranges or sends the
/// whole file. The file offset of the next byte of the body is that of the first missing byte less
/// what is left out: it is where the body begins when the response comes, it moves on by the length
/// of each packet that is taken up whole, and byte `i` of a packet is written at the offset of the
/// packet plus `i`.
pub proof fn law_bytes_land_where_they_belong(
    c: Chunk,
    status: u16,
    skip: u64,
    packet_len: usize,
    i: int,
)
    requires
        c.wf(),
        c.start + c.progress <= u64::MAX,
    ensures
        next_request_of(c) matches NextRequest::Request { from, .. } ==> c.start + c.progress - (from
            - body_start(status, from)) == body_start(status, from),
        ({
            let offset = c.start + c.progress - skip;
            let left_out = skip_after(c, skip, packet_len as int);
            match packet_action(c, skip, packet_len as int) {
                PacketAction::Stop => c.remaining() == 0,
                PacketAction::Skip => c.start + c.progress - left_out == offset + packet_len,
                PacketAction::Write { skip: k, len: n } => {
                    &&& k + n <= packet_len
                    &&& k <= i < k + n ==> c.start + c.progress + (i - k) == offset + i
                    &&& k + n == packet_len ==> c.start + (c.progress + n) - left_out == offset
                        + packet_len
                    &&& k + n < packet_len ==> c.progress + n >= c.len()
                },
            }
        }),
{
}

/// A transfer that keeps failing waits 2, 4, 8, 16 and 32 seconds and then gives up.
pub proof fn law_backoff_doubles(retries: u32)
    ensures
        retries >= MAX_RETRIES ==> retry_after(retries) == Retry::GiveUp,
        retries < MAX_RETRIES ==> retry_after(retries) == Retry::After(
            pow2((retries + 1) as nat) as u64,
        ),
        retry_after(0) == Retry::After(2),
        retries + 1 < MAX_RETRIES ==> retry_after((retries + 1) as u32)->After_0 == 2 * retry_after(
            retries,
        )->After_0,
{
    lemma2_to64();
}

/// A split gives work away exactly where there is enough of it: at least twice `min` bytes of the
/// range are not written. Each half then gets half of these bytes, the second one the odd byte, and
/// the second half starts with nothing written.
pub proof fn law_rest_is_halved(c: Chunk, min: int)
    requires
        c.start <= c.end,
        c.end - c.start < u64::MAX,
        min > 0,
    ensures
        c.splittable(min) <==> c.end - c.start + 1 - c.progress >= 2 * min,
        c.splittable(min) ==> {
            let rest = c.end - c.start + 1 - c.progress;
            let (left, right) = (c.left_half(), c.right_half());
            &&& right.end - right.start + 1 == rest - rest / 2
            &&& right.end == c.end
            &&& right.progress == 0
            &&& left.start == c.start
            &&& left.progress == c.progress
            &&& left.end - left.start + 1 - left.progress == rest / 2
        },
{
}

/// What is left of a range is what it holds less what is written, and nothing where more is written.
pub proof fn law_remaining_counts_unwritten_bytes(c: Chunk)
    requires
        c.start <= c.end,
    ensures
        c.remaining() >= 0,
        c.remaining() == 0 <==> c.start + c.progress > c.end,
        c.remaining() > 0 ==> c.remaining() + c.progress + c.start == c.end + 1,
{
}

/// A range that misses bytes asks for them from its first missing byte to its last byte; one that
/// misses none asks for nothing.
pub proof fn law_request_runs_from_the_first_gap_to_the_end(c: Chunk)
    requires
        c.start + c.progress <= u64::MAX,
    ensures
        c.start + c.progress > c.end ==> next_request_of(c) == NextRequest::Done,
        c.start + c.progress <= c.end ==> next_request_of(c) == (NextRequest::Request {
            from: (c.start + c.progress) as u64,
            to: c.end,
        }),
{
}

/// Of a packet as much is written as the range misses, and no less where the packet holds that much.
/// A packet whose bytes all lie before the gap is left out; none is left out that reaches into it.
pub proof fn law_packets_fill_the_gap(c: Chunk, skip: u64, packet_len: usize)
    requires
        c.start <= c.end,
        c.end - c.start < u64::MAX,
    ensures
        ({
            let gap = c.end - c.start + 1 - c.progress;
            &&& gap <= 0 <==> packet_action(c, skip, packet_len as int) == PacketAction::Stop
            &&& gap > 0 && packet_len <= skip ==> packet_action(c, skip, packet_len as int)
                == PacketAction::Skip && skip_after(c, skip, packet_len as int) == skip
                - packet_len
            &&& gap > 0 && packet_len > skip ==> skip_after(c, skip, packet_len as int) == 0
                && match packet_action(c, skip, packet_len as int) {
                PacketAction::Write { skip: k, len: n } => {
                    &&& k == skip
                    &&& n <= gap && n <= packet_len - skip
                    &&& n == gap || n == packet_len - skip
                },
                _ => false,
            }
        }),
{
}

/// The statuses from 200 to 299 are read, and with any but 206 the body is the whole file; those from
/// 500 to 599 are the errors of a server.
pub proof fn law_statuses_have_their_classes(status: u16, from: u64)
    ensures
        is_success(status) <==> status / 100 == 2,
        is_server_error(status) <==> status / 100 == 5,
        body_start(206, from) == from,
        status != 206 ==> body_start(status, from) == 0,
{
}

/// The wait before the first retry is two seconds, each further one is twice as long, and after five
/// retries in a row there is no other.
pub proof fn law_five_retries_with_doubled_waits(retries: u32)
    ensures
        retries < 5 ==> retry_after(retries) == Retry::After(pow2((retries + 1) as nat) as u64),
        retries >= 5 ==> retry_after(retries) == Retry::GiveUp,
{
}

} // verus!
