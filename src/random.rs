use vstd::prelude::*;

use rand::{Rng, RngCore};

use crate::action::Action;

verus! {

/// The single seeded stream that every random choice draws from.
pub type Gen = rand_pcg::Lcg128Xsl64;

/// Relies on rand_pcg's `Lcg128Xsl64` only as an opaque value that the draws
/// below advance.
#[verifier::external_type_specification]
#[verifier::external_body]
pub struct ExLcg128Xsl64(rand_pcg::Lcg128Xsl64);

/// Drawn fractions are numerators over this: a fraction `k` stands for
/// `k / 2^24`.
pub const FRACTION_SCALE: u32 = 16777216;

/// Relies on `RngCore::next_u32` of rand_pcg's generator: the next 32 bits of
/// the stream (one step of the generator).
#[verifier::external_body]
pub(crate) fn next_bits(rng: &mut Gen) -> (r: u32) {
    rng.next_u32()
}

/// Relies on rand's `Rng::gen_range` over `0..n` for `u32`: a value below `n`.
/// It panics on an empty range, hence `n > 0`.
#[verifier::external_body]
pub(crate) fn draw_below(rng: &mut Gen, n: u32) -> (r: u32)
    requires
        n > 0,
    ensures
        r < n,
{
    rng.gen_range(0..n)
}

/// Relies on rand's `Rng::gen_range` over `lo..=hi` for `usize`: a value
/// between the bounds. It panics on an empty range, hence `lo <= hi`.
#[verifier::external_body]
pub(crate) fn draw_between(rng: &mut Gen, lo: usize, hi: usize) -> (r: usize)
    requires
        lo <= hi,
    ensures
        lo <= r <= hi,
{
    rng.gen_range(lo..=hi)
}

/// A uniform fraction in `[0, 1)` with 24 bits of precision, as the integer
/// numerator over `2^24`. Drawn the way rand draws an `f32` from the standard
/// distribution: the top 24 bits of one 32-bit draw.
pub fn draw_fraction(rng: &mut Gen) -> (r: u32)
    ensures
        r < FRACTION_SCALE,
{
    let bits = next_bits(rng);
    let r = bits >> 8u32;
    assert(bits >> 8u32 < 16777216u32) by (bit_vector);
    r
}

/// One of the six actions, uniformly: `Action::from_index` of a draw below
/// six. Any action can come out, so the contract says nothing of it.
pub fn get_random_action(rng: &mut Gen) -> Action {
    let k = draw_below(rng, 6);
    Action::from_index(k)
}

/// One of the four directional moves, uniformly: `Action::move_from_index`
/// of a draw below four.
pub fn get_random_move(rng: &mut Gen) -> (a: Action)
    ensures
        a.is_direction(),
{
    let k = draw_below(rng, 4);
    Action::move_from_index(k)
}

} // verus!
