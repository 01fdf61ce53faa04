//! How many workers the machine can bear.

use vstd::prelude::*;

verus! {

/// The most workers that are suggested, where nothing else is set.
pub const DEFAULT_WORKER_CAP: usize = 32;

/// How many cores are assumed where their number cannot be found out.
pub const FALLBACK_CORES: usize = 4;

/// The bits of 70 percent as a floating-point number of 32 bits.
pub const HEAVY_LOAD_BITS: u32 = 0x428c_0000;

/// The bits of 40 percent as a floating-point number of 32 bits.
pub const MODERATE_LOAD_BITS: u32 = 0x4220_0000;

/// The bits of infinity as a floating-point number of 32 bits.
pub const INFINITY_BITS: u32 = 0x7f80_0000;

/// How busy the machine is.
#[derive(Debug, Clone, Copy, PartialEq, Eq, Structural)]
pub enum Load {
    /// Below 40 percent.
    Idle,
    /// From 40 to 70 percent.
    Moderate,
    /// Above 70 percent.
    Heavy,
}

/// What is known of the machine, and how many workers are suggested for it.
#[derive(Debug, Clone, Copy, PartialEq, Eq, Structural)]
pub struct ResourceStats {
    /// How many workers are suggested.
    pub suggested_workers: usize,
    /// The bits of the processor usage in percent, a floating-point number of 32 bits.
    pub cpu_usage_bits: u32,
}

/// The floating-point number with these bits is greater than the positive one with those: it is
/// positive itself, no NaN, and its bits are the greater number.
pub open spec fn bits_above(bits: u32, limit: u32) -> bool {
    limit < bits <= INFINITY_BITS
}

/// The floating-point number with these bits is at least the positive one with those.
pub open spec fn bits_from(bits: u32, limit: u32) -> bool {
    limit <= bits <= INFINITY_BITS
}

/// How busy a machine with this processor usage is.
pub open spec fn load_of(bits: u32) -> Load {
    if bits_above(bits, HEAVY_LOAD_BITS) {
        Load::Heavy
    } else if bits_from(bits, MODERATE_LOAD_BITS) {
        Load::Moderate
    } else {
        Load::Idle
    }
}

/// How many workers so many cores bear.
pub open spec fn workers_for(cores: int, load: Load) -> int {
    match load {
        Load::Heavy => cores,
        Load::Moderate => 2 * cores,
        Load::Idle => 4 * cores,
    }
}

/// A number brought into a range.
pub open spec fn clamped(n: int, low: int, high: int) -> int {
    if n < low {
        low
    } else if n > high {
        high
    } else {
        n
    }
}

/// How busy a machine with this processor usage is.
pub fn classify_load(cpu_usage_bits: u32) -> (res: Load)
    ensures
        res == load_of(cpu_usage_bits),
{
    if HEAVY_LOAD_BITS < cpu_usage_bits && cpu_usage_bits <= INFINITY_BITS {
        Load::Heavy
    } else if MODERATE_LOAD_BITS <= cpu_usage_bits && cpu_usage_bits <= INFINITY_BITS {
        Load::Moderate
    } else {
        Load::Idle
    }
}

/// How many workers are suggested for a machine with so many cores and this processor usage: one to
/// four per core, the fewer the busier it is, at least one and at most `cap`.
pub fn calculate_optimal_workers(
    cores: Option<usize>,
    cpu_usage_bits: u32,
    cap: Option<usize>,
) -> (res: ResourceStats)
    requires
        cores matches Some(n) ==> n <= usize::MAX / 4,
        cap matches Some(c) ==> c >= 1,
    ensures
        res.cpu_usage_bits == cpu_usage_bits,
        res.suggested_workers == clamped(
            workers_for(
                match cores {
                    Some(n) => n as int,
                    None => FALLBACK_CORES as int,
                },
                load_of(cpu_usage_bits),
            ),
            1,
            match cap {
                Some(c) => c as int,
                None => DEFAULT_WORKER_CAP as int,
            },
        ),
{
    let total: usize = match cores {
        Some(n) => n,
        None => FALLBACK_CORES,
    };
    let high: usize = match cap {
        Some(c) => c,
        None => DEFAULT_WORKER_CAP,
    };
    let workers: usize = match classify_load(cpu_usage_bits) {
        Load::Heavy => total,
        Load::Moderate => total * 2,
        Load::Idle => total * 4,
    };
    let suggested_workers: usize = if workers < 1 {
        1
    } else if workers > high {
        high
    } else {
        workers
    };
    ResourceStats { suggested_workers, cpu_usage_bits }
}

/// A busier machine is never given more workers.
pub proof fn law_load_sheds_workers(cores: nat, cap: nat)
    requires
        cap >= 1,
    ensures
        1 <= clamped(workers_for(cores as int, Load::Heavy), 1, cap as int) <= clamped(
            workers_for(cores as int, Load::Moderate),
            1,
            cap as int,
        ) <= clamped(workers_for(cores as int, Load::Idle), 1, cap as int) <= cap,
{
}

/// Up to 40 percent a machine bears four workers for each core, up to 70 percent two, and one beyond;
/// no fewer than one and no more than the cap are suggested. The usage is compared by the bits of its
/// number of 32 bits, of which those of 40 and of 70 are the limits.
pub proof fn law_workers_follow_the_load(bits: u32, cores: int, cap: int)
    requires
        bits <= 0x7f80_0000,
        cores >= 1,
        cap >= 1,
    ensures
        ({
            let n = clamped(workers_for(cores, load_of(bits)), 1, cap);
            let wanted = if bits < 0x4220_0000 {
                4 * cores
            } else if bits <= 0x428c_0000 {
                2 * cores
            } else {
                cores
            };
            &&& n <= wanted && n <= cap && n >= 1
            &&& n == wanted || n == cap
        }),
{
}

} // verus!
