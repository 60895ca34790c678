//! The genetic "smart rockets" search: weighted parent selection over agent
//! fitness, crossover and mutation of per-agent move sequences.
use vstd::prelude::*;
use crate::entity::Entity;
use crate::noc::random;

pub mod data;
pub mod systems;

verus! {

/// Why a selection returned no parents.
#[derive(Clone, Copy, PartialEq, Eq, Structural, Debug)]
pub enum SelectError {
    /// The weight list was empty.
    Empty,
    /// Every weight in the list was zero.
    AllWeightsZero,
    /// A weight was invalid for the sampler.
    InvalidWeight,
    /// The list was too long for the sampler.
    TooMany,
    /// Every entry named the same entity, so no distinct second parent
    /// exists.
    NoDistinct,
}

/// Relies on rand's `SliceRandom::choose_weighted` over `u32` weights: `Ok`
/// lands on an element whose weight is positive; an empty slice gives its
/// `NoItem` error and an all-zero weight list its `AllWeightsZero` error.
/// `u32` weights are never invalid, and with the length and weights bounded
/// as required the weight total cannot overflow, so its other two errors do
/// not occur.
#[verifier::external_body]
fn weighted_pick(weights: &Vec<(Entity, u32)>) -> (r: Result<Entity, SelectError>)
    requires
        weights@.len() <= 1_000_000,
        forall|i: int| 0 <= i < weights@.len() ==> (#[trigger] weights@[i]).1 <= 1_000,
    ensures
        match r {
            Ok(e) => exists|i: int|
                0 <= i < weights@.len() && (#[trigger] weights@[i]).0 == e && weights@[i].1 > 0,
            Err(SelectError::Empty) => weights@.len() == 0,
            Err(SelectError::AllWeightsZero) => forall|i: int|
                0 <= i < weights@.len() ==> (#[trigger] weights@[i]).1 == 0,
            Err(SelectError::InvalidWeight) => false,
            Err(SelectError::TooMany) => false,
            Err(SelectError::NoDistinct) => false,
        },
{
    let mut rng = rand::thread_rng();
    match rand::seq::SliceRandom::choose_weighted(weights.as_slice(), &mut rng, |item| item.1) {
        Ok(picked) => Ok(picked.0),
        Err(rand::distributions::WeightedError::NoItem) => Err(SelectError::Empty),
        Err(rand::distributions::WeightedError::AllWeightsZero) => Err(
            SelectError::AllWeightsZero,
        ),
        Err(rand::distributions::WeightedError::InvalidWeight) => Err(SelectError::InvalidWeight),
        Err(rand::distributions::WeightedError::TooMany) => Err(SelectError::TooMany),
    }
}

/// A fair coin, drawn from the same uniform source the rest of the library
/// uses.
pub fn coin() -> (r: bool) {
    random(0, 2) == 1
}

/// How many weighted draws are made for a distinct second parent before the
/// uniform fallback takes over.
pub const DISTINCT_RETRY_CAP: u64 = 16;

/// Chooses two distinct parents: both draws are weighted by fitness, the
/// second redrawn while it matches the first, with a bounded retry and then
/// a uniform draw over the remaining entities.  Succeeds whenever some
/// weight is positive and two entries name distinct entities; an empty
/// list, an all-zero weight list, or a list naming a single entity is
/// reported instead.
pub fn choose_two(weights: &Vec<(Entity, u32)>) -> (r: Result<(Entity, Entity), SelectError>)
    requires
        weights@.len() <= 1_000_000,
        forall|i: int| 0 <= i < weights@.len() ==> (#[trigger] weights@[i]).1 <= 1_000,
    ensures
        match r {
            Ok((a, b)) => {
                &&& a != b
                &&& exists|i: int|
                    0 <= i < weights@.len() && (#[trigger] weights@[i]).0 == a && weights@[i].1
                        > 0
                &&& exists|j: int| 0 <= j < weights@.len() && (#[trigger] weights@[j]).0 == b
            },
            Err(SelectError::Empty) => weights@.len() == 0,
            Err(SelectError::AllWeightsZero) => forall|i: int|
                0 <= i < weights@.len() ==> (#[trigger] weights@[i]).1 == 0,
            Err(SelectError::NoDistinct) => forall|i: int, j: int|
                0 <= i < weights@.len() && 0 <= j < weights@.len() ==> (#[trigger] weights@[i]).0
                    == (#[trigger] weights@[j]).0,
            Err(SelectError::InvalidWeight) => false,
            Err(SelectError::TooMany) => false,
        },
{
    let first = match weighted_pick(weights) {
        Ok(e) => e,
        Err(e) => {
            return Err(e);
        },
    };
    let mut tries: u64 = 0;
    while tries < DISTINCT_RETRY_CAP
        invariant
            exists|i: int|
                0 <= i < weights@.len() && (#[trigger] weights@[i]).0 == first && weights@[i].1
                    > 0,
        decreases DISTINCT_RETRY_CAP - tries,
    {
        match weighted_pick(weights) {
            Ok(second) => {
                if second != first {
                    proof {
                        let j = choose|j: int|
                            0 <= j < weights@.len() && (#[trigger] weights@[j]).0 == second
                                && weights@[j].1 > 0;
                    }
                    return Ok((first, second));
                }
            },
            Err(e) => {
                return Err(e);
            },
        }
        tries = tries + 1;
    }
    let mut candidates: Vec<Entity> = Vec::new();
    let n = weights.len();
    let mut k: usize = 0;
    while k < n
        invariant
            k <= n,
            n == weights@.len(),
            forall|i: int|
                0 <= i < candidates@.len() ==> {
                    &&& #[trigger] candidates@[i] != first
                    &&& exists|j: int|
                        0 <= j < weights@.len() && (#[trigger] weights@[j]).0 == candidates@[i]
                },
            candidates@.len() == 0 ==> forall|j: int|
                0 <= j < k ==> (#[trigger] weights@[j]).0 == first,
        decreases n - k,
    {
        let w = weights[k];
        if w.0 != first {
            candidates.push(w.0);
        }
        k = k + 1;
    }
    if candidates.len() == 0 {
        proof {
            assert forall|i: int, j: int|
                0 <= i < weights@.len() && 0 <= j < weights@.len() implies (#[trigger] weights@[i]).0
                == (#[trigger] weights@[j]).0 by {
                assert(weights@[i].0 == first);
                assert(weights@[j].0 == first);
            }
        }
        Err(SelectError::NoDistinct)
    } else {
        let idx = random(0, candidates.len() as u64) as usize;
        Ok((first, candidates[idx]))
    }
}

} // verus!
