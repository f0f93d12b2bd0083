//! The random source used for seeding.

use vstd::prelude::*;

verus! {

/// Relies on `rand::random`: draws a value from the standard distribution of
/// its type. Nothing is promised of the value; callers state what holds of
/// every outcome.
pub assume_specification<T>[ rand::random::<T> ]() -> (r: T)
    where
        rand::distr::StandardUniform: rand::distr::Distribution<T>,
;

} // verus!
