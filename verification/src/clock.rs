//! The present time.

use std::time::{SystemTime, UNIX_EPOCH};
use vstd::prelude::*;

verus! {

/// Nanoseconds in a second.
pub const NANOS_PER_SEC: u128 = 1_000_000_000;

/// `SystemTime::now` gives the present time, handed on as nanoseconds since 1970; nothing where the
/// clock stands before that. Only its range is stated: it depends on the moment.
#[verifier::external_body]
pub(crate) fn nanos_since_epoch() -> (res: Option<u128>)
    ensures
        res matches Some(n) ==> n / NANOS_PER_SEC <= u64::MAX,
{
    SystemTime::now().duration_since(UNIX_EPOCH).ok().map(|d| d.as_nanos())
}

/// The whole seconds in a time that is given in nanoseconds, where there is one.
pub open spec fn seconds_in(nanos: Option<u128>) -> Option<int> {
    match nanos {
        Some(n) => Some(n as int / NANOS_PER_SEC as int),
        None => None,
    }
}

/// The whole seconds in a time that is given in nanoseconds, where there is one.
pub fn whole_seconds(nanos: Option<u128>) -> (res: Option<u64>)
    requires
        seconds_in(nanos) matches Some(s) ==> s <= u64::MAX,
    ensures
        match res {
            Some(s) => seconds_in(nanos) == Some(s as int),
            None => seconds_in(nanos) is None,
        },
{
    match nanos {
        Some(n) => Some((n / NANOS_PER_SEC) as u64),
        None => None,
    }
}

/// The last second that a timestamp with a year of four digits can name, in seconds since 1970.
pub const LAST_SECOND: u64 = 253_402_300_799;

/// The instant at which so many nanoseconds have passed since 1970, as whole seconds and the
/// nanoseconds that are left. A clock that stands before 1970 counts as its first instant, one that
/// stands behind the last second as that second.
pub open spec fn instant(nanos: Option<u128>) -> (int, int) {
    match seconds_in(nanos) {
        Some(s) => if s <= LAST_SECOND {
            (s, nanos->0 as int % NANOS_PER_SEC as int)
        } else {
            (LAST_SECOND as int, 0)
        },
        None => (0, 0),
    }
}

/// The instant at which so many nanoseconds have passed since 1970.
pub fn instant_at(nanos: Option<u128>) -> (res: (i64, u32))
    ensures
        (res.0 as int, res.1 as int) == instant(nanos),
        0 <= res.0 <= LAST_SECOND,
        res.1 < NANOS_PER_SEC,
{
    match nanos {
        Some(n) => {
            let secs: u128 = n / NANOS_PER_SEC;
            if secs <= LAST_SECOND as u128 {
                (secs as i64, (n % NANOS_PER_SEC) as u32)
            } else {
                (LAST_SECOND as i64, 0)
            }
        },
        None => (0, 0),
    }
}

/// The present instant. Only its range is stated: it depends on the moment.
pub(crate) fn present() -> (res: (i64, u32))
    ensures
        0 <= res.0 <= LAST_SECOND,
        res.1 < NANOS_PER_SEC,
{
    instant_at(nanos_since_epoch())
}

/// Whole seconds since 1970; nothing where the clock stands before that. Nothing is stated of them:
/// any second may be the present one.
pub(crate) fn seconds_since_epoch() -> (res: Option<u64>) {
    whole_seconds(nanos_since_epoch())
}

/// The seconds and the nanoseconds of an instant make up its time, and a later time has a later instant,
/// up to the last second.
pub proof fn law_instants_make_up_their_time(m: u128, n: u128)
    requires
        m <= n,
        n < 253_402_300_800 * 1_000_000_000,
    ensures
        instant(Some(n)).0 * 1_000_000_000 + instant(Some(n)).1 == n,
        0 <= instant(Some(n)).1 < 1_000_000_000,
        instant(Some(m)).0 < instant(Some(n)).0 || (instant(Some(m)).0 == instant(Some(n)).0
            && instant(Some(m)).1 <= instant(Some(n)).1),
        seconds_in(Some(n)) == Some(instant(Some(n)).0),
{
}

/// A clock before 1970 gives the first instant, and one behind the last second gives that second.
pub proof fn law_instants_stay_in_range(nanos: Option<u128>)
    ensures
        nanos is None ==> instant(nanos) == (0int, 0int) && seconds_in(nanos) is None,
        nanos is Some && nanos->0 >= 253_402_300_800 * 1_000_000_000 ==> instant(nanos) == (
            253_402_300_799int,
            0int,
        ),
{
}

} // verus!
