//! The draws from `rand` that the node and the connection code make.
use vstd::prelude::*;

verus! {

/// `rand::random_range` on the inclusive range `low..=high`: a value drawn
/// from the thread-local generator. The function's documentation promises a
/// value in the given range and a panic on an empty one, which `requires`
/// leaves out; which value comes is chance and is not stated.
#[verifier::external_body]
pub(crate) fn random_u64_in(low: u64, high: u64) -> (r: u64)
    requires
        low <= high,
    ensures
        low <= r <= high,
{
    rand::random_range(low..=high)
}

/// `rand::distr::Uniform::<u64>::new(low, high)`: whether it accepts the
/// bounds of a half-open range. Its source answers `Err(EmptyRange)` exactly
/// when `low < high` fails; the distribution it builds is dropped here.
#[verifier::external_body]
pub(crate) fn uniform_accepts(low: u64, high: u64) -> (ok: bool)
    ensures
        ok == (low < high),
{
    rand::distr::Uniform::<u64>::new(low, high).is_ok()
}

/// `rand::distr::Uniform::<u64>::new(low, high)`, sampled once with the
/// thread-local generator `rand::rng()`. The distribution's documentation
/// promises a value of the half-open range `[low, high)`; `new` fails only
/// on an empty range, which `requires` leaves out. Which value comes is
/// chance and is not stated.
#[verifier::external_body]
pub(crate) fn uniform_sample(low: u64, high: u64) -> (r: u64)
    requires
        low < high,
    ensures
        low <= r < high,
{
    let dist = rand::distr::Uniform::<u64>::new(low, high).expect("a nonempty range");
    rand::RngExt::sample(&mut rand::rng(), &dist)
}

} // verus!
