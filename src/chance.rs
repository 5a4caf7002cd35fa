use vstd::prelude::*;

verus! {

/// Relies on macroquad::rand::gen_range (quad_rand) on `usize`: it scales a
/// uniform draw in `[0, 1)` to the range, so the result lies in `[0, n)`.
/// The range is kept small enough for the scaling to be exact in `f64`.
#[verifier::external_body]
pub(crate) fn pick_below(n: usize) -> (r: usize)
    requires
        0 < n <= 0x10_0000,
    ensures
        r < n,
{
    macroquad::rand::gen_range(0, n)
}

} // verus!
