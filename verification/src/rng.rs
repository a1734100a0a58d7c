//! The machine's one source of nondeterminism: the byte that CXNN masks.

use vstd::prelude::*;

verus! {

/// Relies on rand::random: one byte from the host's thread-local
/// generator. A random value promises nothing, so no clause is stated;
/// `Chip::step` takes the byte as an argument and is verified for every
/// value of it.
#[verifier::external_body]
pub(crate) fn random_byte() -> u8 {
    rand::random()
}

} // verus!
