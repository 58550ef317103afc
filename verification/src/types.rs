//! The small types the operations speak in: token records, refusals and
//! the facts reported on success.

use vstd::prelude::*;
use crate::address::Address;

verus! {

/// The largest identity a token can have. Identities run from 1 to
/// `MAX_SUPPLY`: neither 0 nor an identity above it is ever allocated.
pub const MAX_SUPPLY: u128 = 10_000;

/// Where a live token sits: the address that owns it and its position in
/// that owner's collection.
#[derive(Clone, Copy, Debug, PartialEq, Eq, Structural)]
pub struct OwnerInfo {
    pub address: Address,
    pub token_idx: u32,
}

impl OwnerInfo {
    /// The record of a token that `address` holds at position `token_idx`.
    pub fn new(address: Address, token_idx: u32) -> (info: OwnerInfo)
        ensures
            info == (OwnerInfo { address, token_idx }),
    {
        OwnerInfo { address, token_idx }
    }
}

/// Why an operation was refused. A refused operation changes nothing.
#[derive(Clone, Copy, Debug, PartialEq, Eq, Structural)]
pub enum NftError {
    /// No registry has been set up yet.
    NotInitialized,
    /// A registry has already been set up.
    AlreadyInitialized,
    /// The caller lacks the privilege the operation asks for.
    NotAuthorized,
    /// The identity names no live token (or the address no collection).
    UnknownToken,
    /// The identity was burned and can never be minted again.
    AlreadyBurned,
    /// The identity already names a live token.
    AlreadyMinted,
    /// The requested identity lies outside the range from 1 to `MAX_SUPPLY`.
    SupplyExceeded,
    /// No identity above the allocation cursor is free.
    SupplyExhausted,
    /// The stated sender is not the token's current owner.
    OwnerMismatch,
}

/// The fact a successful mutating operation reports, for a logging or
/// eventing layer to format and dispatch.
#[derive(Clone, Copy, Debug, PartialEq, Eq, Structural)]
pub enum NftEvent {
    /// The token `id` was minted to `owner`.
    NftTokenMinted { id: u128, owner: Address },
    /// The token `id` of `owner` was burned; `owner` has `balance` tokens left.
    NftTokenBurned { id: u128, owner: Address, balance: u32 },
    /// `spender` became the approved spender of the token `id` of `owner`.
    NftTokenApproved { id: u128, owner: Address, spender: Address },
    /// `caller` granted `operator` rights over all its tokens, or took them back.
    NftTokenApprovedForAll { caller: Address, operator: Address, approved: bool },
    /// The token `id` moved from `from` to `to`.
    NftTokenTransfered { id: u128, from: Address, to: Address },
}

} // verus!
