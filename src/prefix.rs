//! Random prefix generation.

use vstd::prelude::*;

verus! {

/// Relies on rand::random, which draws from the thread-local generator
/// (`thread_rng().gen()`); nothing is promised of the value drawn.
pub assume_specification<T>[ rand::random::<T> ]() -> (r: T)
    where
        rand::distributions::Standard: rand::distributions::Distribution<T>,
;

/// Returns `size` bytes, each drawn independently from the thread-local
/// generator.
pub fn generate_prefix(size: usize) -> (r: Vec<u8>)
    ensures
        r@.len() == size,
{
    let mut iv: Vec<u8> = Vec::with_capacity(size);
    let mut i: usize = 0;
    while i < size
        invariant
            i <= size,
            iv@.len() == i,
        decreases size - i,
    {
        let b: u8 = rand::random::<u8>();
        iv.push(b);
        i = i + 1;
    }
    iv
}

} // verus!
