//! Keys drawn from the thread's random number generator.
//!
//! A `DrawnKey` can only be made by `generate_random_key`, which draws it:
//! holding one means holding a value that the generator returned, and the
//! key-getting routines state the keys they publish as such values.
use vstd::prelude::*;

verus! {

/// A key that the random number generator returned.
pub struct DrawnKey {
    value: u64,
}

impl View for DrawnKey {
    /// The key's value.
    type V = u64;

    closed spec fn view(&self) -> u64 {
        self.value
    }
}

impl DrawnKey {
    /// The key's value.
    pub fn value(&self) -> (v: u64)
        ensures
            v == self@,
    {
        self.value
    }
}

/// A random key, from `rand::random::<u64>()`, as a `DrawnKey`. Nothing is
/// claimed of its value: it comes from the thread's random number generator
/// and may be any `u64`, 0 included. (It panics if the generator cannot be
/// seeded by the operating system.)
#[verifier::external_body]
pub(crate) fn generate_random_key() -> DrawnKey {
    DrawnKey { value: rand::random::<u64>() }
}

} // verus!
