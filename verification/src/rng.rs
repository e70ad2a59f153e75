//! The one source of randomness: `rand::random`. Nothing can be promised of
//! a random value, so the specification has no `ensures`; every caller is
//! verified for every value that can come back.

use vstd::prelude::*;

verus! {

/// Relies on rand::random: draws a value from the thread-local generator.
pub assume_specification<T>[ rand::random::<T> ]() -> (r: T)
    where rand::distributions::Standard: rand::distributions::Distribution<T>,
;

} // verus!
