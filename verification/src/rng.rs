//! The one randomness source of the library: the thread rng of the
//! `rand` crate, taken on trust. Nothing is promised of a drawn value;
//! every caller must cope with every outcome.

use vstd::prelude::*;

verus! {

/// Relies on rand::random: draws one value from the thread-local rng
/// through the `Standard` distribution. No clause constrains the
/// result: a random draw promises nothing.
pub assume_specification<T>[ rand::random::<T> ]() -> (r: T)
    where
        rand::distributions::Standard: rand::distributions::Distribution<T>,
;

} // verus!
