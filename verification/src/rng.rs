//! The machine's one source of nondeterminism: the byte the random-mask
//! instruction combines with its immediate.

use vstd::prelude::*;

verus! {

/// Relies on rand::random: draws a value from the thread-local generator.
/// The result depends on the generator's state, so nothing is promised of it;
/// the step contract states what holds of every byte that can come back.
pub assume_specification<T>[ rand::random::<T> ]() -> (r: T)
    where
        rand::distributions::Standard: rand::distributions::Distribution<T>,
;

} // verus!
