//! The registry as plain collections, for storage.

use vstd::prelude::*;
use std::collections::BTreeMap;
use std::collections::BTreeSet;
use crate::address::Address;
use crate::index_model::IndexState;
use crate::metadata::NFTMetadata;
use crate::registry_model::RegistryState;
use crate::types::OwnerInfo;

verus! {

/// The registry taken apart into plain collections, as it is written to and
/// read from storage. Collections keyed by address are stored under the
/// address's key. Nothing is promised of a value of this type: whether it
/// stands for a consistent registry is decided when it is put together
/// again.
pub struct ContractParts {
    pub metadata: NFTMetadata,
    pub current_token_id: u128,
    pub minted_total: u128,
    pub balance_of: BTreeMap<(u32, u128), Vec<u128>>,
    pub owner_of: BTreeMap<u128, OwnerInfo>,
    pub get_approved: BTreeMap<u128, Address>,
    pub is_approved_for_all: BTreeMap<((u32, u128), (u32, u128)), bool>,
    pub burned_nfts: BTreeSet<u128>,
}

/// The operator approvals that a stored map stands for: the entry of an
/// owner and an operator is the one stored under their two keys.
pub open spec fn operators_of(stored: Map<((u32, u128), (u32, u128)), bool>) -> Map<
    (Address, Address),
    bool,
> {
    Map::new(
        |p: (Address, Address)| stored.contains_key((p.0.key(), p.1.key())),
        |p: (Address, Address)| stored[(p.0.key(), p.1.key())],
    )
}

impl View for ContractParts {
    type V = RegistryState;

    open spec fn view(&self) -> RegistryState {
        RegistryState {
            index: IndexState::of_maps(self.balance_of@, self.owner_of@),
            approvals: self.get_approved@,
            operators: operators_of(self.is_approved_for_all@),
            burned: self.burned_nfts@,
            cursor: self.current_token_id,
            minted_total: self.minted_total,
        }
    }
}

} // verus!
