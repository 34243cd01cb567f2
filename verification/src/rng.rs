use vstd::prelude::*;

verus! {

/// Relies on rand::random::<u64>: a word from the thread-local generator.
/// Nothing is promised of the value; callers state what holds of every
/// outcome.
#[verifier::external_body]
pub fn random_u64() -> u64 {
    rand::random::<u64>()
}

} // verus!
