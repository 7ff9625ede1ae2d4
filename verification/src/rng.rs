//! The random draws that argument generation makes, each through one call
//! of the `rand` crate on a PCG generator.
use rand::seq::SliceRandom;
use rand::Rng;
use vstd::prelude::*;

use crate::text::is_ascii_alnum;

verus! {

/// The permuted congruential generator (`rand_pcg::Pcg64Mcg`) that draws
/// the random parts of requests.
#[verifier::external_type_specification]
#[verifier::external_body]
pub struct ExPcg64Mcg(rand_pcg::Mcg128Xsl64);

/// `rand::Rng::gen_range` on `i64`: a value drawn from `low..high`. It
/// panics unless `low < high`, hence the `requires`. Which value comes out
/// depends on the generator's state and is not stated.
#[verifier::external_body]
pub(crate) fn gen_range_i64(rng: &mut rand_pcg::Mcg128Xsl64, low: i64, high: i64) -> (r: i64)
    requires
        low < high,
    ensures
        low <= r < high,
{
    rng.gen_range(low, high)
}

/// `rand::Rng::gen_range` on `u8`: a value drawn from `low..high`. It panics
/// unless `low < high`, hence the `requires`.
#[verifier::external_body]
pub(crate) fn gen_range_u8(rng: &mut rand_pcg::Mcg128Xsl64, low: u8, high: u8) -> (r: u8)
    requires
        low < high,
    ensures
        low <= r < high,
{
    rng.gen_range(low, high)
}

/// `rand::seq::SliceRandom::choose`: `None` for an empty slice, otherwise
/// one of its elements. Which one is not stated.
#[verifier::external_body]
pub(crate) fn choose_one<'a, T>(
    items: &'a [T],
    rng: &mut rand_pcg::Mcg128Xsl64,
) -> (r: Option<&'a T>)
    ensures
        r is None <==> items@.len() == 0,
        r matches Some(x) ==> items@.contains(*x),
{
    items.choose(rng)
}

/// `rand::Rng::sample` of `rand::distributions::Alphanumeric`: one of the
/// 62 ASCII letters and digits. Which one is not stated.
#[verifier::external_body]
pub(crate) fn alphanumeric(rng: &mut rand_pcg::Mcg128Xsl64) -> (c: char)
    ensures
        is_ascii_alnum(c),
{
    rng.sample(rand::distributions::Alphanumeric)
}

} // verus!
