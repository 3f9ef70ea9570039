//! The random source of level generation and the few calls into `rand`
//! that the generators make.

use rand::rngs::StdRng;
use rand::seq::SliceRandom;
use rand::Rng;
use vstd::prelude::*;

verus! {

/// `rand::rngs::StdRng`, carried through the generators as an opaque value.
#[verifier::external_type_specification]
#[verifier::external_body]
pub struct ExStdRng(StdRng);

/// Calls `SliceRandom::choose` on the cells: `None` exactly when there are
/// no cells, otherwise one of them. Which one is left to chance.
#[verifier::external_body]
pub(crate) fn choose_cell(rng: &mut StdRng, cells: &Vec<(usize, usize)>) -> (r: Option<(usize, usize)>)
    ensures
        r is None <==> cells@.len() == 0,
        r matches Some(c) ==> cells@.contains(c),
{
    cells.as_slice().choose(rng).copied()
}

/// Calls `SliceRandom::shuffle`: the cells come back in some order, the
/// same cells as many times as before. The order is left to chance.
#[verifier::external_body]
pub(crate) fn shuffle_cells(rng: &mut StdRng, cells: &mut Vec<(usize, usize)>)
    ensures
        final(cells)@.len() == old(cells)@.len(),
        final(cells)@.to_multiset() == old(cells)@.to_multiset(),
{
    cells.as_mut_slice().shuffle(rng)
}

/// Calls `Rng::gen_range(lo..hi)` on `i32`: some value in `[lo, hi)`.
/// The range must not be empty (`gen_range` panics on an empty range).
#[verifier::external_body]
pub(crate) fn gen_range_i32(rng: &mut StdRng, lo: i32, hi: i32) -> (r: i32)
    requires
        lo < hi,
    ensures
        lo <= r < hi,
{
    rng.gen_range(lo..hi)
}

/// Calls `Rng::gen_ratio(numerator, denominator)`: `true` with probability
/// `numerator / denominator`; always `false` for a zero numerator and
/// always `true` when numerator and denominator are equal. It panics on a
/// zero denominator or a numerator above it, which `requires` rules out.
#[verifier::external_body]
pub(crate) fn gen_ratio(rng: &mut StdRng, numerator: u32, denominator: u32) -> (r: bool)
    requires
        0 < denominator,
        numerator <= denominator,
    ensures
        numerator == 0 ==> !r,
        numerator == denominator ==> r,
{
    rng.gen_ratio(numerator, denominator)
}

} // verus!
