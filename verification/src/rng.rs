//! The crate's one source of randomness.

use vstd::prelude::*;
use crate::fx::FX_ONE;

verus! {

/// Relies on rand::random: a value of the type drawn from the thread-local
/// generator. Nothing is promised of the outcome.
pub assume_specification<T>[ rand::random::<T> ]() -> (r: T)
    where
        rand::distributions::Standard: rand::distributions::Distribution<T>,
;

/// A random fixed-point scalar in `[0, 1)`: a raw draw reduced modulo one.
pub fn random_fx() -> (r: i128)
    ensures
        0 <= r < FX_ONE,
{
    let raw: u32 = rand::random::<u32>();
    (raw % 65536u32) as i128
}

} // verus!
