//! Uniform integer draws, backed by the thread-local generator of `rand`.
use rand::Rng;
use vstd::prelude::*;

verus! {

/// Relies on `rand::Rng::gen_range` on `rand::thread_rng()`: for a range
/// `0..bound` it returns a value in `[0, bound)` and panics on an empty range.
#[verifier::external_body]
pub(crate) fn draw_below(bound: u64) -> (r: u64)
    requires
        bound > 0,
    ensures
        r < bound,
{
    rand::thread_rng().gen_range(0..bound)
}

/// A uniform integer in `[0, num)`; `0` when `num` is `0`.
pub fn radint(num: usize) -> (r: usize)
    ensures
        num == 0 ==> r == 0,
        num > 0 ==> r < num,
{
    if num == 0 {
        0
    } else {
        let d = draw_below(num as u64);
        d as usize
    }
}

/// A uniform integer in the half-open range `[start, end)`; `start` when the
/// range is empty.
pub fn rex(start: usize, end: usize) -> (r: usize)
    requires
        start <= end,
    ensures
        start == end ==> r == start,
        start < end ==> start <= r < end,
{
    start + radint(end - start)
}

} // verus!
