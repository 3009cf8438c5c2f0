//! Random number source used by generation and mutation.
//!
//! Every item here calls into the `rand` crate; each contract states only what
//! holds for every outcome the generator may produce.
use vstd::prelude::*;

verus! {

/// The random number generator type used throughout the library.
#[verifier::external_type_specification]
#[verifier::external_body]
pub struct ExSmallRng(rand::rngs::SmallRng);

/// `Rng::gen_ratio(numerator, denominator)`: a Bernoulli draw with probability
/// `numerator / denominator`. The source rejects `denominator == 0` and
/// `numerator > denominator`; with `numerator == 0` it never returns `true`,
/// with `numerator == denominator` it always returns `true`.
#[verifier::external_body]
pub(crate) fn rand_ratio(rng: &mut rand::rngs::SmallRng, numerator: u32, denominator: u32) -> (r: bool)
    requires
        0 < denominator,
        numerator <= denominator,
    ensures
        numerator == 0 ==> !r,
        numerator == denominator ==> r,
{
    rand::Rng::gen_ratio(rng, numerator, denominator)
}

/// `Rng::gen_range(low..=high)`: a value in the inclusive range. The source
/// panics on an empty range, which `requires` rules out.
#[verifier::external_body]
pub(crate) fn rand_in_range(rng: &mut rand::rngs::SmallRng, low: u64, high: u64) -> (r: u64)
    requires
        low <= high,
    ensures
        low <= r <= high,
{
    rand::Rng::gen_range(rng, low..=high)
}

/// `Rng::gen::<u64>()`: any 64-bit value; nothing is promised about it.
#[verifier::external_body]
pub(crate) fn rand_u64(rng: &mut rand::rngs::SmallRng) -> (r: u64) {
    rand::Rng::gen::<u64>(rng)
}

/// `SliceRandom::shuffle`: permutes the slice in place (the source only swaps
/// elements), so the multiset of elements and the length are unchanged.
#[verifier::external_body]
pub(crate) fn rand_shuffle<T>(rng: &mut rand::rngs::SmallRng, buf: &mut [T])
    ensures
        final(buf)@.len() == old(buf)@.len(),
        final(buf)@.to_multiset() == old(buf)@.to_multiset(),
{
    rand::seq::SliceRandom::shuffle(buf, rng)
}

/// `Rng::fill` on a byte slice: overwrites every byte with random data, the
/// length is unchanged.
#[verifier::external_body]
pub(crate) fn rand_fill(rng: &mut rand::rngs::SmallRng, buf: &mut [u8])
    ensures
        final(buf)@.len() == old(buf)@.len(),
{
    rand::Rng::fill(rng, buf)
}

/// A uniformly drawn index below `len`.
pub fn rand_index(rng: &mut rand::rngs::SmallRng, len: usize) -> (r: usize)
    requires
        len > 0,
    ensures
        r < len,
{
    rand_in_range(rng, 0, (len - 1) as u64) as usize
}

/// `Rng::gen::<bool>()`: a fair coin; nothing is promised about the
/// outcome.
#[verifier::external_body]
pub(crate) fn rand_bool(rng: &mut rand::rngs::SmallRng) -> (r: bool) {
    rand::Rng::gen::<bool>(rng)
}

} // verus!
