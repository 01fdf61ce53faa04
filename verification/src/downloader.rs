//! The cautious way to cut a download: it starts as one piece, and only large rests are cut.

use crate::download::plan::Profile;
use crate::download::segment::Chunk;
use vstd::prelude::*;

verus! {

/// The least number of bytes in a piece that is cut off.
pub const MIN_SPLIT_SIZE: u64 = 10 * 1024 * 1024;

/// How pieces are cut: a worker without work takes half of the largest rest.
pub fn profile() -> (res: Profile)
    ensures
        res == (Profile { min_split: MIN_SPLIT_SIZE, steal: true }),
        res.min_split == 10 * 1024 * 1024 && res.steal,
{
    Profile { min_split: MIN_SPLIT_SIZE, steal: true }
}

/// Cuts the rest of a piece in half, where both halves are large enough.
pub fn split(chunk: &mut Chunk) -> (res: Option<Chunk>)
    requires
        old(chunk).wf(),
    ensures
        final(chunk).wf(),
        old(chunk).splittable(MIN_SPLIT_SIZE as int) ==> *final(chunk) == old(chunk).left_half()
            && res == Some(old(chunk).right_half()) && old(chunk).right_half().wf(),
        !old(chunk).splittable(MIN_SPLIT_SIZE as int) ==> *final(chunk) == *old(chunk)
            && res is None,
{
    chunk.split_at_least(MIN_SPLIT_SIZE)
}

/// A piece is cut exactly where 20 megabytes of it or more are missing, and then in the middle of what is
/// missing.
pub proof fn law_only_large_rests_are_cut(c: Chunk)
    requires
        c.wf(),
        c.start + c.progress <= c.end,
    ensures
        c.splittable(MIN_SPLIT_SIZE as int) <==> c.end + 1 - (c.start + c.progress) >= 20 * 1024
            * 1024,
        c.splittable(MIN_SPLIT_SIZE as int) ==> {
            let middle = c.start + c.progress + (c.end + 1 - (c.start + c.progress)) / 2;
            &&& c.left_half() == (Chunk { end: (middle - 1) as u64, ..c })
            &&& c.right_half() == (Chunk { start: middle as u64, end: c.end, progress: 0 })
        },
{
}

} // verus!
