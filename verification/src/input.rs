//! Cutting raw input bytes into fields.

use vstd::prelude::*;
use vstd::slice::slice_subrange;

verus! {

/// Cut `data` into three consecutive parts at `n / 3` and `2n / 3`, where
/// `n` is its length (three empty parts for empty input).
pub fn split3(data: &[u8]) -> (r: (&[u8], &[u8], &[u8]))
    ensures
        r.0@ == data@.subrange(0, (data@.len() / 3) as int),
        r.1@ == data@.subrange((data@.len() / 3) as int, (2 * data@.len() / 3) as int),
        r.2@ == data@.subrange((2 * data@.len() / 3) as int, data@.len() as int),
{
    let n = data.len();
    let third = n / 3;
    let two_thirds = 2 * third + (2 * (n % 3)) / 3;
    assert(two_thirds == 2 * n / 3) by (nonlinear_arith)
        requires
            third == n / 3,
            two_thirds == 2 * third + (2 * (n % 3)) / 3,
    ;
    (slice_subrange(data, 0, third), slice_subrange(data, third, two_thirds), slice_subrange(
        data,
        two_thirds,
        n,
    ))
}

} // verus!
