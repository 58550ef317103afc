//! Account addresses.

use vstd::prelude::*;
use vstd::bytes::{
    lemma_auto_spec_u128_to_from_le_bytes, lemma_auto_spec_u32_to_from_le_bytes,
    spec_u128_from_le_bytes, spec_u128_to_le_bytes, spec_u32_from_le_bytes, spec_u32_to_le_bytes,
    u128_from_le_bytes, u128_to_le_bytes, u32_from_le_bytes, u32_to_le_bytes,
};
use vstd::slice::slice_subrange;

verus! {

/// A 160-bit account address, held as its upper 32 and its lower 128 bits.
///
/// Two addresses are the same account exactly when both words agree.
#[derive(Clone, Copy, Debug, PartialEq, Eq, Structural)]
pub struct Address {
    pub high: u32,
    pub low: u128,
}

impl Address {
    /// The pair of words under which collections keyed by address are stored.
    pub open spec fn spec_key(self) -> (u32, u128) {
        (self.high, self.low)
    }

    /// The address stored under a key; the inverse of [`Address::key`].
    pub open spec fn of_key(k: (u32, u128)) -> Address {
        Address { high: k.0, low: k.1 }
    }

    /// The twenty bytes of the address, lowest byte first: the sixteen of
    /// `low`, then the four of `high`.
    pub open spec fn spec_to_bytes(self) -> Seq<u8> {
        spec_u128_to_le_bytes(self.low) + spec_u32_to_le_bytes(self.high)
    }

    /// The address that twenty bytes, lowest first, stand for.
    pub open spec fn spec_from_bytes(bytes: Seq<u8>) -> Address {
        Address {
            high: spec_u32_from_le_bytes(bytes.subrange(16, 20)),
            low: spec_u128_from_le_bytes(bytes.subrange(0, 16)),
        }
    }

    /// The address with the given upper and lower bits.
    pub fn new(high: u32, low: u128) -> (a: Address)
        ensures
            a == (Address { high, low }),
    {
        Address { high, low }
    }

    /// The pair of words under which collections keyed by address are stored.
    #[verifier::when_used_as_spec(spec_key)]
    pub fn key(self) -> (k: (u32, u128))
        ensures
            k == self.spec_key(),
    {
        (self.high, self.low)
    }

    /// Reads an address from its twenty bytes; `None` for any other length.
    pub fn from_bytes(bytes: &[u8]) -> (address: Option<Address>)
        ensures
            address == if bytes@.len() == 20 {
                Some(Address::spec_from_bytes(bytes@))
            } else {
                None
            },
    {
        if bytes.len() != 20 {
            return None;
        }
        let low = u128_from_le_bytes(slice_subrange(bytes, 0, 16));
        let high = u32_from_le_bytes(slice_subrange(bytes, 16, 20));
        Some(Address { high, low })
    }

    /// Writes the address as its twenty bytes.
    pub fn to_bytes(self) -> (bytes: Vec<u8>)
        ensures
            bytes@ == self.spec_to_bytes(),
            bytes@.len() == 20,
    {
        let mut bytes = u128_to_le_bytes(self.low);
        let mut rest = u32_to_le_bytes(self.high);
        bytes.append(&mut rest);
        bytes
    }
}

/// Writing an address as bytes and reading the bytes gives the address back.
pub proof fn lemma_address_survives_bytes(a: Address)
    ensures
        a.spec_to_bytes().len() == 20,
        Address::spec_from_bytes(a.spec_to_bytes()) == a,
{
    lemma_auto_spec_u128_to_from_le_bytes();
    lemma_auto_spec_u32_to_from_le_bytes();
    let bytes = a.spec_to_bytes();
    assert(bytes.subrange(0, 16) =~= spec_u128_to_le_bytes(a.low));
    assert(bytes.subrange(16, 20) =~= spec_u32_to_le_bytes(a.high));
}

/// Reading twenty bytes as an address and writing the address gives the
/// bytes back: distinct byte strings are distinct addresses.
pub proof fn lemma_bytes_survive_address(bytes: Seq<u8>)
    requires
        bytes.len() == 20,
    ensures
        Address::spec_from_bytes(bytes).spec_to_bytes() == bytes,
{
    lemma_auto_spec_u128_to_from_le_bytes();
    lemma_auto_spec_u32_to_from_le_bytes();
    assert(bytes.subrange(0, 16) + bytes.subrange(16, 20) =~= bytes);
}

} // verus!
