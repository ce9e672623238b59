//! Weighted random choice, drawn by the `rand` crate.
//!
//! The distribution and the generator are `rand`'s own; what is stated of
//! them here is taken from `rand` and trusted, not proved.

use rand::distr::weighted::{Error, WeightedIndex};
use rand::distr::Distribution;
use rand::rngs::ThreadRng;
use rand::Rng;
use vstd::prelude::*;

verus! {

/// A distribution over the places of a list of weights: `rand`'s
/// `WeightedIndex<u128>`, kept as it is. The weights are held in 128 bits
/// so that the sum of any list of 64-bit weights fits.
#[verifier::external_body]
pub struct WeightedPlaces {
    index: WeightedIndex<u128>,
}

/// `rand`'s handle to the random number generator of the current thread.
#[verifier::external_type_specification]
#[verifier::external_body]
pub struct ExThreadRng(ThreadRng);

/// `rand`'s word on why a list of weights gives no distribution.
#[verifier::external_type_specification]
#[verifier::external_body]
pub struct ExWeightedError(Error);

/// Why a list of weights gives no distribution to draw from.
#[derive(Clone, Copy, Debug, PartialEq, Eq, Structural)]
pub enum WeightError {
    /// The list is empty.
    InvalidInput,
    /// Every weight in the list is zero.
    InsufficientNonZero,
}

/// Whether a list of weights holds a weight that is not zero.
pub open spec fn has_positive_weight(weights: Seq<u64>) -> bool {
    exists|i: int| 0 <= i < weights.len() && #[trigger] weights[i] > 0
}

/// What is wrong with a list of weights, if anything: a list can be drawn
/// from unless it is empty or all its weights are zero.
pub open spec fn weights_fault(weights: Seq<u64>) -> Option<WeightError> {
    if weights.len() == 0 {
        Some(WeightError::InvalidInput)
    } else if !has_positive_weight(weights) {
        Some(WeightError::InsufficientNonZero)
    } else {
        None
    }
}

/// The weights that a distribution was made from, in their order.
pub uninterp spec fn index_weights(places: WeightedPlaces) -> Seq<u128>;

/// Whether a list of widened weights holds a weight that is not zero.
pub open spec fn has_positive_wide_weight(weights: Seq<u128>) -> bool {
    exists|i: int| 0 <= i < weights.len() && #[trigger] weights[i] > 0
}

/// `WeightedIndex::new` on 128-bit weights none of which is above 64 bits:
/// it makes the distribution over the places of `weights` unless the list
/// is empty or every weight is zero. With weights this small the sum of
/// the list always fits in 128 bits.
#[verifier::external_body]
pub(crate) fn weighted_places(weights: &Vec<u128>) -> (made: Result<WeightedPlaces, Error>)
    requires
        forall|i: int| 0 <= i < weights.len() ==> weights[i] <= u64::MAX,
    ensures
        match made {
            Ok(places) => has_positive_wide_weight(weights@) && index_weights(places) == weights@,
            Err(_) => !has_positive_wide_weight(weights@),
        },
{
    match WeightedIndex::new(weights) {
        Ok(index) => Ok(WeightedPlaces { index }),
        Err(error) => Err(error),
    }
}

/// `rand::rng`: the generator of the current thread.
#[verifier::external_body]
pub(crate) fn thread_rng() -> ThreadRng {
    rand::rng()
}

/// `WeightedIndex::sample`: draws a place in the list of weights. Whatever
/// is drawn is a place of the list, and never one whose weight is zero.
#[verifier::external_body]
pub(crate) fn sample_place(places: &WeightedPlaces, rng: &mut ThreadRng) -> (place: usize)
    ensures
        place < index_weights(*places).len(),
        index_weights(*places)[place as int] > 0,
{
    places.index.sample(rng)
}

/// `Rng::random_range` on the whole numbers from 0 to `top`: whatever is
/// drawn lies in that range, both ends included.
#[verifier::external_body]
pub(crate) fn roll_up_to(rng: &mut ThreadRng, top: i32) -> (roll: i32)
    requires
        0 <= top,
    ensures
        0 <= roll <= top,
{
    rng.random_range(0..=top)
}

} // verus!
