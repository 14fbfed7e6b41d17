use vstd::prelude::*;

verus! {

/// A 32-byte principal or token-account identifier, held as two 128-bit
/// halves so that identity is plain field equality.
#[derive(Clone, Copy, Debug, PartialEq, Eq, Structural)]
pub struct AccountId {
    pub hi: u128,
    pub lo: u128,
}

} // verus!
