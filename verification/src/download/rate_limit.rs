//! Token buckets that keep a download, or all of them, below a number of bytes per second.

use vstd::prelude::*;

verus! {

/// Nanoseconds in a second, and the parts of a byte in which tokens are counted.
pub const NANOS: u128 = 1_000_000_000;

/// The longest wait, in nanoseconds, that is not worth going to sleep for.
pub const YIELD_NANOS: u128 = 5_000_000;

/// What a transfer does before it goes on.
#[derive(Debug, Clone, Copy, PartialEq, Eq, Structural)]
pub enum Grant {
    /// Go on.
    Granted,
    /// Sleep so many nanoseconds and ask again.
    Sleep(u128),
    /// Let others run and ask again.
    Yield,
}

/// A token bucket: it fills with the allowed rate and holds what two seconds bring at most.
#[derive(Debug, Clone, Copy, PartialEq, Eq, Structural)]
pub struct RateLimiter {
    /// Bytes per second.
    pub bytes_per_sec: u64,
    /// What may be transferred at once, in billionths of a byte.
    pub tokens: u128,
}

/// What the bucket holds at most.
pub open spec fn capacity(rate: int) -> int {
    2 * rate * NANOS
}

/// What the bucket holds after some time.
pub open spec fn refilled(rate: int, tokens: int, elapsed: int) -> int {
    if tokens + elapsed * rate <= capacity(rate) {
        tokens + elapsed * rate
    } else {
        capacity(rate)
    }
}

/// How long it takes until the bucket holds what is missing.
pub open spec fn wait_nanos(rate: int, missing: int) -> int {
    (missing + rate - 1) / rate
}

/// How many bytes of those that are left are paid for at once: as many as the bucket can hold.
pub open spec fn piece_of(rate: int, left: int) -> int {
    if left <= 2 * rate {
        left
    } else {
        2 * rate
    }
}

/// What a transfer does that waits until the bucket holds what is missing.
pub open spec fn pause(rate: int, missing: int) -> Grant {
    let wait = wait_nanos(rate, missing);
    if wait > YIELD_NANOS {
        Grant::Sleep(wait as u128)
    } else {
        Grant::Yield
    }
}

/// How many bytes are left to be paid for, where the bucket held so much.
pub open spec fn left_after(rate: int, held: int, left: int) -> int {
    if held >= piece_of(rate, left) * NANOS {
        left - piece_of(rate, left)
    } else {
        left
    }
}

/// What the bucket holds after some bytes were asked for.
pub open spec fn held_after(rate: int, held: int, left: int) -> int {
    held - (left - left_after(rate, held, left)) * NANOS
}

/// What the bucket lacks for the next piece, after some bytes were asked for.
pub open spec fn lacking(rate: int, held: int, left: int) -> int {
    piece_of(rate, left_after(rate, held, left)) * NANOS - held_after(rate, held, left)
}

/// What a transfer with so many bytes left does where the bucket holds so much.
pub open spec fn grant_of(rate: int, held: int, left: int) -> Grant {
    if left_after(rate, held, left) == 0 {
        Grant::Granted
    } else {
        pause(rate, lacking(rate, held, left))
    }
}

impl RateLimiter {
    /// The rate is positive and the bucket is not overfull.
    pub open spec fn wf(self) -> bool {
        self.bytes_per_sec >= 1 && self.tokens <= capacity(self.bytes_per_sec as int)
    }

    /// A bucket that holds what one second brings. A rate of zero counts as one byte per second, with
    /// an empty bucket.
    pub fn new(bytes_per_sec: u64) -> (res: Self)
        ensures
            res.wf(),
            res.bytes_per_sec == if bytes_per_sec == 0 {
                1
            } else {
                bytes_per_sec
            },
            res.tokens == bytes_per_sec * NANOS,
    {
        RateLimiter {
            bytes_per_sec: if bytes_per_sec == 0 {
                1
            } else {
                bytes_per_sec
            },
            tokens: bytes_per_sec as u128 * NANOS,
        }
    }

    /// Asks for the bytes of a transfer that are left to be paid for, where so many nanoseconds passed
    /// since the last time. More than the bucket can hold is paid for in pieces, one at a time.
    pub fn acquire_after(&mut self, elapsed_nanos: u64, left: &mut u64) -> (res: Grant)
        requires
            old(self).wf(),
        ensures
            final(self).wf(),
            final(self).bytes_per_sec == old(self).bytes_per_sec,
            ({
                let rate = old(self).bytes_per_sec as int;
                let held = refilled(rate, old(self).tokens as int, elapsed_nanos as int);
                &&& res == grant_of(rate, held, *old(left) as int)
                &&& *final(left) == left_after(rate, held, *old(left) as int)
                &&& final(self).tokens == held_after(rate, held, *old(left) as int)
            }),
    {
        let rate: u128 = self.bytes_per_sec as u128;
        let cap: u128 = 2 * rate * NANOS;
        proof {
            assert(elapsed_nanos * rate <= 0xffff_ffff_ffff_ffff * 0xffff_ffff_ffff_ffff)
                by (nonlinear_arith)
                requires
                    elapsed_nanos <= 0xffff_ffff_ffff_ffff,
                    rate <= 0xffff_ffff_ffff_ffff,
            ;
            assert(elapsed_nanos * rate >= 0) by (nonlinear_arith)
                requires
                    elapsed_nanos >= 0,
                    rate >= 0,
            ;
        }
        let gained: u128 = elapsed_nanos as u128 * rate;
        let sum: u128 = self.tokens.saturating_add(gained);
        let held: u128 = if sum <= cap {
            sum
        } else {
            cap
        };
        self.tokens = held;
        let piece: u64 = Self::piece(self.bytes_per_sec, *left);
        let need: u128 = piece as u128 * NANOS;
        if held >= need {
            self.tokens = held - need;
            *left = *left - piece;
            if *left == 0 {
                return Grant::Granted;
            }
        }
        let next: u64 = Self::piece(self.bytes_per_sec, *left);
        let missing: u128 = next as u128 * NANOS - self.tokens;
        let wait: u128 = (missing + rate - 1) / rate;
        if wait > YIELD_NANOS {
            Grant::Sleep(wait)
        } else {
            Grant::Yield
        }
    }

    /// How many bytes of those that are left are paid for at once.
    fn piece(rate: u64, left: u64) -> (res: u64)
        ensures
            res == piece_of(rate as int, left as int),
    {
        let most: u128 = 2 * rate as u128;
        if left as u128 <= most {
            left
        } else {
            most as u64
        }
    }
}

/// A bucket that is asked once for a transfer with so many bytes left, some nanoseconds after the last
/// time.
pub struct Request {
    pub elapsed: nat,
    pub left: nat,
}

/// What the bucket holds, and how many bytes were paid for, after some requests.
pub open spec fn served(rate: int, tokens: int, requests: Seq<Request>) -> (int, int)
    decreases requests.len(),
{
    if requests.len() == 0 {
        (tokens, 0)
    } else {
        let (before, paid) = served(rate, tokens, requests.drop_last());
        let r = requests.last();
        let held = refilled(rate, before, r.elapsed as int);
        (
            held_after(rate, held, r.left as int),
            paid + r.left - left_after(rate, held, r.left as int),
        )
    }
}

/// How many nanoseconds some requests span.
pub open spec fn span(requests: Seq<Request>) -> int
    decreases requests.len(),
{
    if requests.len() == 0 {
        0
    } else {
        span(requests.drop_last()) + requests.last().elapsed
    }
}

/// Over any span of time a bucket lets through no more than what it held at first and what the rate
/// brings, and it never holds more than two seconds bring.
pub proof fn law_rate_is_kept(rate: int, tokens: int, requests: Seq<Request>)
    requires
        rate >= 1,
        0 <= tokens <= capacity(rate),
    ensures
        served(rate, tokens, requests).1 * NANOS + served(rate, tokens, requests).0 <= tokens + span(
            requests,
        ) * rate,
        0 <= served(rate, tokens, requests).0 <= capacity(rate),
        served(rate, tokens, requests).1 >= 0,
    decreases requests.len(),
{
    if requests.len() == 0 {
        assert(0 * rate == 0) by (nonlinear_arith);
    } else {
        let d = requests.drop_last();
        law_rate_is_kept(rate, tokens, d);
        let e = requests.last().elapsed as int;
        assert((span(d) + e) * rate == span(d) * rate + e * rate) by (nonlinear_arith);
        assert(e * rate >= 0) by (nonlinear_arith)
            requires
                e >= 0,
                rate >= 1,
        ;
    }
}

proof fn lemma_wait(rate: int, missing: int)
    requires
        rate >= 1,
        missing > 0,
    ensures
        missing <= wait_nanos(rate, missing) * rate < missing + rate,
        wait_nanos(rate, missing) >= 1,
{
    let w = wait_nanos(rate, missing);
    assert(missing <= w * rate < missing + rate && w >= 1) by (nonlinear_arith)
        requires
            w == (missing + rate - 1) / rate,
            rate >= 1,
            missing > 0,
    ;
}

/// A transfer that was told to wait pays for its next piece once so much time has passed, and is
/// granted its bytes where that is the last one.
pub proof fn law_sleep_is_long_enough(rate: int, held: int, left: int)
    requires
        rate >= 1,
        0 <= held <= capacity(rate),
        0 <= left,
        left_after(rate, held, left) > 0,
    ensures
        ({
            let rest = left_after(rate, held, left);
            let later = refilled(
                rate,
                held_after(rate, held, left),
                wait_nanos(rate, lacking(rate, held, left)),
            );
            &&& lacking(rate, held, left) > 0
            &&& 0 <= held_after(rate, held, left) <= later <= capacity(rate)
            &&& left_after(rate, later, rest) == rest - piece_of(rate, rest)
            &&& left_after(rate, later, rest) < rest
            &&& rest <= 2 * rate ==> grant_of(rate, later, rest) == Grant::Granted
        }),
{
    let rest = left_after(rate, held, left);
    assert(held >= piece_of(rate, left) * NANOS ==> piece_of(rate, left) == 2 * rate);
    assert(lacking(rate, held, left) > 0);
    lemma_wait(rate, lacking(rate, held, left));
}

/// How often a transfer with so many bytes left asks until it is granted them, and how many
/// nanoseconds it waits for that, where no other one uses the bucket and it waits as it is told.
pub open spec fn until_granted(rate: int, held: int, left: int) -> (int, int)
    decreases
            left,
            if held >= piece_of(rate, left) * NANOS {
                0int
            } else {
                1int
            },
{
    if !(rate >= 1 && 0 <= held <= capacity(rate) && left >= 0) || left_after(rate, held, left)
        == 0 {
        (1, 0)
    } else {
        proof {
            law_sleep_is_long_enough(rate, held, left);
        }
        let wait = wait_nanos(rate, lacking(rate, held, left));
        let (asks, nanos) = until_granted(
            rate,
            refilled(rate, held_after(rate, held, left), wait),
            left_after(rate, held, left),
        );
        (asks + 1, nanos + wait)
    }
}

/// Every transfer is granted its bytes, however many they are: it asks no more than two times and
/// once for each two seconds of the rate, and what it waits is the time that the rate takes for the
/// bytes, but for less than a nanosecond each time that it asks.
pub proof fn law_every_request_is_granted(rate: int, held: int, left: int)
    requires
        rate >= 1,
        0 <= held <= capacity(rate),
        left >= 0,
    ensures
        ({
            let (asks, nanos) = until_granted(rate, held, left);
            &&& asks >= 1
            &&& 0 <= nanos * rate <= left * NANOS + asks * rate
            &&& (asks - 2) * (2 * rate) <= left
        }),
{
    lemma_until_granted(rate, held, left);
    let (asks, nanos) = until_granted(rate, held, left);
    assert(asks * rate >= 0) by (nonlinear_arith)
        requires
            asks >= 1,
            rate >= 1,
    ;
    assert(0 * rate == 0) by (nonlinear_arith);
}

proof fn lemma_until_granted(rate: int, held: int, left: int)
    requires
        rate >= 1,
        0 <= held <= capacity(rate),
        left >= 0,
    ensures
        ({
            let (asks, nanos) = until_granted(rate, held, left);
            &&& asks >= 1
            &&& 0 <= nanos * rate
            &&& nanos == 0 || nanos * rate <= left * NANOS - held + asks * rate
            &&& (asks - 2) * (2 * rate) <= left
            &&& held >= piece_of(rate, left) * NANOS ==> (asks - 1) * (2 * rate) <= left
        }),
    decreases
            left,
            if held >= piece_of(rate, left) * NANOS {
                0int
            } else {
                1int
            },
{
    if left_after(rate, held, left) == 0 {
        assert(-1 * (2 * rate) <= 0 && 0 * (2 * rate) == 0 && 0 * rate == 0) by (nonlinear_arith)
            requires
                rate >= 1,
        ;
    } else {
        law_sleep_is_long_enough(rate, held, left);
        let missing = lacking(rate, held, left);
        let h = held_after(rate, held, left);
        let rest = left_after(rate, held, left);
        let wait = wait_nanos(rate, missing);
        let later = refilled(rate, h, wait);
        lemma_wait(rate, missing);
        lemma_until_granted(rate, later, rest);
        let (asks, nanos) = until_granted(rate, later, rest);
        assert((nanos + wait) * rate == nanos * rate + wait * rate) by (nonlinear_arith);
        assert((asks + 1) * rate == asks * rate + rate) by (nonlinear_arith);
        assert(asks * (2 * rate) == (asks - 1) * (2 * rate) + 2 * rate) by (nonlinear_arith);
        assert(0 * rate == 0) by (nonlinear_arith);
        assert(asks * rate >= rate) by (nonlinear_arith)
            requires
                asks >= 1,
                rate >= 1,
        ;
    }
}

/// The limits of a run: that of all downloads and that of this one.
#[derive(Debug, Clone, Copy, PartialEq, Eq, Structural)]
pub struct RunLimits {
    pub global: Option<RateLimiter>,
    pub local: Option<RateLimiter>,
}

/// The bucket is in order, where there is one.
pub open spec fn in_order(limiter: Option<RateLimiter>) -> bool {
    limiter matches Some(l) ==> l.wf()
}

/// How many bytes of a transfer each limit has still to let through.
#[derive(Debug, Clone, Copy, PartialEq, Eq, Structural)]
pub struct Due {
    pub global: u64,
    pub local: u64,
}

impl Due {
    /// A transfer of some bytes that no limit was asked about yet.
    pub fn new(bytes: u64) -> (res: Self)
        ensures
            res == (Due { global: bytes, local: bytes }),
    {
        Due { global: bytes, local: bytes }
    }
}

/// A limit after it was asked for the bytes that are left, how many then are left, and what it
/// answers; no limit grants everything.
pub open spec fn asked(limiter: Option<RateLimiter>, elapsed: u64, left: u64) -> (
    Option<RateLimiter>,
    u64,
    Grant,
) {
    match limiter {
        None => (None, 0, Grant::Granted),
        Some(l) => {
            let rate = l.bytes_per_sec as int;
            let held = refilled(rate, l.tokens as int, elapsed as int);
            (
                Some(
                    RateLimiter {
                        bytes_per_sec: l.bytes_per_sec,
                        tokens: held_after(rate, held, left as int) as u128,
                    },
                ),
                left_after(rate, held, left as int) as u64,
                grant_of(rate, held, left as int),
            )
        },
    }
}

/// The limits after they were asked for what is due, what then is due, and what is answered: the limit
/// of all downloads is asked first, that of this one once it let everything through.
pub open spec fn asked_both(limits: RunLimits, due: Due, elapsed: (u64, u64)) -> (
    RunLimits,
    Due,
    Grant,
) {
    let (g, left, first) = if due.global == 0 {
        (limits.global, 0, Grant::Granted)
    } else {
        asked(limits.global, elapsed.0, due.global)
    };
    if first != Grant::Granted {
        (RunLimits { global: g, ..limits }, Due { global: left, ..due }, first)
    } else {
        let (l, rest, second) = asked(limits.local, elapsed.1, due.local);
        (RunLimits { global: g, local: l }, Due { global: left, local: rest }, second)
    }
}

fn ask(limiter: &mut Option<RateLimiter>, elapsed: u64, left: &mut u64) -> (res: Grant)
    requires
        in_order(*old(limiter)),
    ensures
        in_order(*final(limiter)),
        (*final(limiter), *final(left), res) == asked(*old(limiter), elapsed, *old(left)),
{
    match *limiter {
        None => {
            *left = 0;
            Grant::Granted
        },
        Some(l) => {
            let mut bucket = l;
            let res = bucket.acquire_after(elapsed, left);
            *limiter = Some(bucket);
            res
        },
    }
}

impl RunLimits {
    /// Both buckets are in order.
    pub open spec fn wf(self) -> bool {
        in_order(self.global) && in_order(self.local)
    }

    /// The limits of a run under that of all downloads, where the download has one of its own or not.
    pub fn new(global: Option<RateLimiter>, max_speed_bytes: Option<u64>) -> (res: Self)
        requires
            in_order(global),
        ensures
            res.wf(),
            res.global == global,
            match max_speed_bytes {
                None => res.local is None,
                Some(b) => res.local == Some(
                    RateLimiter {
                        bytes_per_sec: if b == 0 {
                            1
                        } else {
                            b
                        },
                        tokens: (b * NANOS) as u128,
                    },
                ),
            },
    {
        let local: Option<RateLimiter> = match max_speed_bytes {
            None => None,
            Some(b) => Some(RateLimiter::new(b)),
        };
        RunLimits { global, local }
    }
}

/// Asks both limits for what is due of a transfer; `elapsed` holds the nanoseconds since each was asked
/// last.
pub fn acquire_composed(limits: &mut RunLimits, due: &mut Due, elapsed: (u64, u64)) -> (res: Grant)
    requires
        old(limits).wf(),
    ensures
        final(limits).wf(),
        (*final(limits), *final(due), res) == asked_both(*old(limits), *old(due), elapsed),
{
    if due.global != 0 {
        let first = ask(&mut limits.global, elapsed.0, &mut due.global);
        if first != Grant::Granted {
            return first;
        }
    }
    ask(&mut limits.local, elapsed.1, &mut due.local)
}

/// A limit was paid for some bytes, where there is one: its bucket holds so much less.
pub open spec fn paid_for(
    before: Option<RateLimiter>,
    after: Option<RateLimiter>,
    elapsed: u64,
    bytes: int,
) -> bool {
    match (before, after) {
        (Some(l), Some(m)) => m.tokens == refilled(
            l.bytes_per_sec as int,
            l.tokens as int,
            elapsed as int,
        ) - bytes * NANOS,
        (None, None) => true,
        _ => false,
    }
}

/// The slower limit decides: a transfer is granted only once both limits have let all of it through,
/// and what a limit let through it was paid for.
pub proof fn law_slower_limit_decides(limits: RunLimits, due: Due, elapsed: (u64, u64))
    requires
        limits.wf(),
    ensures
        ({
            let (after, left, grant) = asked_both(limits, due, elapsed);
            &&& grant == Grant::Granted <==> left == (Due { global: 0, local: 0 })
            &&& left.global <= due.global && left.local <= due.local
            &&& left.global > 0 ==> left.local == due.local && after.local == limits.local
            &&& left.local < due.local ==> paid_for(
                limits.local,
                after.local,
                elapsed.1,
                due.local - left.local,
            )
            &&& left.global < due.global ==> paid_for(
                limits.global,
                after.global,
                elapsed.0,
                due.global - left.global,
            )
        }),
{
    if let Some(l) = limits.global {
        lemma_refilled(l, elapsed.0);
    }
    if let Some(l) = limits.local {
        lemma_refilled(l, elapsed.1);
    }
}

proof fn lemma_refilled(l: RateLimiter, elapsed: u64)
    requires
        l.wf(),
    ensures
        0 <= refilled(l.bytes_per_sec as int, l.tokens as int, elapsed as int) <= capacity(
            l.bytes_per_sec as int,
        ),
{
    let rate = l.bytes_per_sec as int;
    assert(elapsed * rate >= 0) by (nonlinear_arith)
        requires
            elapsed >= 0,
            rate >= 0,
    ;
}

/// A bucket gains its rate each second, up to what two seconds bring.
pub proof fn law_buckets_fill_with_the_rate(rate: int, tokens: int, elapsed: int)
    requires
        rate >= 1,
        0 <= tokens <= 2 * rate * 1_000_000_000,
        elapsed >= 0,
    ensures
        refilled(rate, tokens, elapsed) <= tokens + elapsed * rate,
        refilled(rate, tokens, elapsed) <= 2 * rate * 1_000_000_000,
        refilled(rate, tokens, elapsed) == tokens + elapsed * rate || refilled(
            rate,
            tokens,
            elapsed,
        ) == 2 * rate * 1_000_000_000,
{
}

/// Bytes that the bucket holds are granted at once, and taken from it; fewer than two seconds bring
/// are granted in no other case. A transfer that has to wait is told the least time in which the
/// bucket gains what is missing, and goes to sleep only for more than five milliseconds.
pub proof fn law_held_bytes_are_granted_at_once(rate: int, held: int, left: int)
    requires
        rate >= 1,
        0 <= held <= 2 * rate * 1_000_000_000,
        0 <= left <= 2 * rate,
    ensures
        held >= left * 1_000_000_000 ==> grant_of(rate, held, left) == Grant::Granted && left_after(
            rate,
            held,
            left,
        ) == 0 && held_after(rate, held, left) == held - left * 1_000_000_000,
        held < left * 1_000_000_000 ==> {
            let missing = left * 1_000_000_000 - held;
            &&& left_after(rate, held, left) == left
            &&& held_after(rate, held, left) == held
            &&& match grant_of(rate, held, left) {
                Grant::Granted => false,
                Grant::Sleep(wait) => wait > 5_000_000 && (wait - 1) * rate < missing <= wait
                    * rate,
                Grant::Yield => missing <= 5_000_000 * rate,
            }
        },
{
    if held < left * 1_000_000_000 {
        let missing = left * 1_000_000_000 - held;
        lemma_wait(rate, missing);
        let w = wait_nanos(rate, missing);
        assert((w - 1) * rate == w * rate - rate) by (nonlinear_arith);
        assert(w <= 2_000_000_000) by (nonlinear_arith)
            requires
                w * rate < missing + rate,
                missing <= 2 * rate * 1_000_000_000,
                rate >= 1,
        ;
        if w <= 5_000_000 {
            assert(w * rate <= 5_000_000 * rate) by (nonlinear_arith)
                requires
                    w <= 5_000_000,
                    rate >= 1,
            ;
        }
    }
}

/// Where no limit is set everything is granted, and a limit that has let all of a transfer through is
/// not asked for it again.
pub proof fn law_no_limit_grants_everything(limits: RunLimits, due: Due, elapsed: (u64, u64))
    ensures
        limits.global is None && limits.local is None ==> asked_both(limits, due, elapsed).2
            == Grant::Granted,
        due.global == 0 ==> asked_both(limits, due, elapsed).0.global == limits.global,
{
}

} // verus!
