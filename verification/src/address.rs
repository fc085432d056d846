//! Ledger addresses as plain values.

use vstd::prelude::*;

verus! {

/// The address of an account or of a contract: its kind and its 32-byte key,
/// read as two big-endian halves.
#[derive(Clone, Copy, Debug, PartialEq, Eq, Structural)]
pub enum Address {
    /// An account, by its Ed25519 public key.
    Account { high: u128, low: u128 },
    /// A contract, by its identifier.
    Contract { high: u128, low: u128 },
}

/// Whether `address` occurs in `list`.
pub fn list_contains(list: &Vec<Address>, address: &Address) -> (found: bool)
    ensures
        found == list@.contains(*address),
{
    for i in 0..list.len()
        invariant
            forall|j: int| 0 <= j < i ==> list@[j] != *address,
    {
        if list[i] == *address {
            return true;
        }
    }
    false
}

} // verus!
