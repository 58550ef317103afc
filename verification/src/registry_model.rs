//! The mathematical model of the whole registry: its state, its invariant,
//! and what each operation reports and does.

use vstd::prelude::*;
use crate::address::Address;
use crate::index_model::IndexState;
use crate::types::{NftError, NftEvent, MAX_SUPPLY};

verus! {

/// The mathematical state of the registry: the ownership index, the
/// per-token approvals, the operator approvals, the burned identities, the
/// allocation cursor and the count of mints.
#[verifier::ext_equal]
pub struct RegistryState {
    pub index: IndexState,
    pub approvals: Map<u128, Address>,
    pub operators: Map<(Address, Address), bool>,
    pub burned: Set<u128>,
    pub cursor: u128,
    pub minted_total: u128,
}

/// One call of a mutating operation, with the caller made explicit.
pub enum Op {
    MintTo { to: Address },
    MintIdTo { to: Address, id: u128 },
    Burn { caller: Address, contract_owner: Address, id: u128 },
    Approve { caller: Address, spender: Address, id: u128 },
    SetApprovalForAll { caller: Address, operator: Address, approved: bool },
    TransferFrom { caller: Address, from: Address, to: Address, id: u128 },
}

impl RegistryState {
    /// The registry right after initialization.
    pub open spec fn empty() -> RegistryState {
        RegistryState {
            index: IndexState::empty(),
            approvals: Map::empty(),
            operators: Map::empty(),
            burned: Set::empty(),
            cursor: 0,
            minted_total: 0,
        }
    }

    /// What holds of every reachable registry: the ownership index is
    /// consistent, burned identities lie between 1 and `MAX_SUPPLY` and never
    /// live, only live tokens carry an approval, the cursor is at most
    /// `MAX_SUPPLY`, and `minted_total` counts the live and the burned
    /// identities together.
    pub open spec fn inv(self) -> bool {
        &&& self.index.inv()
        &&& self.burned.finite()
        &&& forall|id: u128| #[trigger]
            self.burned.contains(id) ==> 1 <= id <= MAX_SUPPLY && !self.index.is_live(id)
        &&& forall|id: u128| #[trigger] self.approvals.contains_key(id) ==> self.index.is_live(id)
        &&& self.cursor <= MAX_SUPPLY
        &&& self.minted_total == self.index.owners.dom().len() + self.burned.len()
    }

    /// The current owner of the live token `id`.
    pub open spec fn owner_of(self, id: u128) -> Address
        recommends
            self.index.is_live(id),
    {
        self.index.owners[id].address
    }

    /// Whether `owner` has granted `operator` blanket rights over its tokens.
    pub open spec fn is_operator(self, owner: Address, operator: Address) -> bool {
        self.operators.contains_key((owner, operator)) && self.operators[(owner, operator)]
    }

    /// Whether `spender` is the approved spender of the token `id`.
    pub open spec fn is_spender(self, spender: Address, id: u128) -> bool {
        self.approvals.contains_key(id) && self.approvals[id] == spender
    }

    /// Whether `caller` may set the approval of the live token `id`: its
    /// owner and the owner's operators may.
    pub open spec fn may_approve(self, caller: Address, id: u128) -> bool {
        caller == self.owner_of(id) || self.is_operator(self.owner_of(id), caller)
    }

    /// Whether `caller` may transfer the live token `id`: its owner, the
    /// owner's operators and the token's approved spender may.
    pub open spec fn is_authorized(self, caller: Address, id: u128) -> bool {
        ||| caller == self.owner_of(id)
        ||| self.is_operator(self.owner_of(id), caller)
        ||| self.is_spender(caller, id)
    }

    /// Whether `id` is the smallest identity above the cursor, and at most
    /// `MAX_SUPPLY`, that names no live token.
    pub open spec fn is_next_free(self, id: u128) -> bool {
        &&& self.cursor < id <= MAX_SUPPLY
        &&& !self.index.is_live(id)
        &&& forall|j: u128| self.cursor < j < id ==> #[trigger] self.index.is_live(j)
    }

    /// The smallest identity above the cursor that names no live token, if
    /// one at most `MAX_SUPPLY` exists.
    pub open spec fn next_free(self) -> Option<u128> {
        if exists|id: u128| self.is_next_free(id) {
            Some(choose|id: u128| self.is_next_free(id))
        } else {
            None
        }
    }

    /// The identity the next mint without an explicit identity gets: the
    /// next free one, unless none is left or it was burned.
    pub open spec fn allocate_next(self) -> Result<u128, NftError> {
        match self.next_free() {
            None => Err(NftError::SupplyExhausted),
            Some(id) => if self.burned.contains(id) {
                Err(NftError::AlreadyBurned)
            } else {
                Ok(id)
            },
        }
    }

    /// Whether the explicit identity `id` can be minted: not if it was
    /// burned, is live, or lies outside the range from 1 to `MAX_SUPPLY`,
    /// tested in this order. An identity outside the range, 0 as well as one
    /// above `MAX_SUPPLY`, is refused with `SupplyExceeded`.
    pub open spec fn allocate_specific(self, id: u128) -> Result<u128, NftError> {
        if self.burned.contains(id) {
            Err(NftError::AlreadyBurned)
        } else if self.index.is_live(id) {
            Err(NftError::AlreadyMinted)
        } else if id == 0 || id > MAX_SUPPLY {
            Err(NftError::SupplyExceeded)
        } else {
            Ok(id)
        }
    }

    /// The registry after `id` joined the end of the collection of `to`.
    pub open spec fn added(self, to: Address, id: u128) -> RegistryState {
        RegistryState { index: self.index.add(to, id), ..self }
    }

    /// The registry after `id` was given to `to` and counted as minted.
    pub open spec fn minted(self, to: Address, id: u128) -> RegistryState {
        RegistryState { minted_total: (self.minted_total + 1) as u128, ..self.added(to, id) }
    }

    /// The registry after the live token `id` left its owner's collection,
    /// together with its approval.
    pub open spec fn removed(self, id: u128) -> RegistryState {
        RegistryState {
            index: self.index.remove(id),
            approvals: self.approvals.remove(id),
            ..self
        }
    }

    /// What a mint without an explicit identity reports: the identity
    /// handed out, or why none was.
    pub open spec fn mint_to_outcome(self, to: Address) -> Result<NftEvent, NftError> {
        match self.allocate_next() {
            Ok(id) => Ok(NftEvent::NftTokenMinted { id, owner: to }),
            Err(e) => Err(e),
        }
    }

    /// The registry after a mint without an explicit identity: the token is
    /// `to`'s and the cursor stands at its identity.
    pub open spec fn mint_to(self, to: Address) -> RegistryState {
        match self.allocate_next() {
            Ok(id) => RegistryState { cursor: id, ..self.minted(to, id) },
            Err(_) => self,
        }
    }

    /// What a mint of the explicit identity `id` reports.
    pub open spec fn mint_id_to_outcome(self, to: Address, id: u128) -> Result<NftEvent, NftError> {
        match self.allocate_specific(id) {
            Ok(_) => Ok(NftEvent::NftTokenMinted { id, owner: to }),
            Err(e) => Err(e),
        }
    }

    /// The registry after a mint of the explicit identity `id`; the cursor
    /// stays where it was.
    pub open spec fn mint_id_to(self, to: Address, id: u128) -> RegistryState {
        match self.allocate_specific(id) {
            Ok(_) => self.minted(to, id),
            Err(_) => self,
        }
    }

    /// What a burn reports. Only the contract owner burns, and the check
    /// on the caller comes first. The event names the former owner and the
    /// number of tokens that owner has left.
    pub open spec fn burn_outcome(self, caller: Address, contract_owner: Address, id: u128) -> Result<
        NftEvent,
        NftError,
    > {
        if caller != contract_owner {
            Err(NftError::NotAuthorized)
        } else if !self.index.is_live(id) {
            Err(NftError::UnknownToken)
        } else {
            Ok(
                NftEvent::NftTokenBurned {
                    id,
                    owner: self.owner_of(id),
                    balance: (self.index.tokens_of(self.owner_of(id)).len() - 1) as u32,
                },
            )
        }
    }

    /// The registry after a burn: the token has left its owner's
    /// collection, its approval is gone, and its identity is burned.
    pub open spec fn burn(self, caller: Address, contract_owner: Address, id: u128) -> RegistryState {
        if self.burn_outcome(caller, contract_owner, id) is Ok {
            RegistryState { burned: self.burned.insert(id), ..self.removed(id) }
        } else {
            self
        }
    }

    /// What an approval reports: the token must be live, and the caller its
    /// owner or an operator of the owner.
    pub open spec fn approve_outcome(self, caller: Address, spender: Address, id: u128) -> Result<
        NftEvent,
        NftError,
    > {
        if !self.index.is_live(id) {
            Err(NftError::UnknownToken)
        } else if !self.may_approve(caller, id) {
            Err(NftError::NotAuthorized)
        } else {
            Ok(NftEvent::NftTokenApproved { id, owner: self.owner_of(id), spender })
        }
    }

    /// The registry after an approval: `spender` is the token's one
    /// approved spender, in place of any earlier one.
    pub open spec fn approve(self, caller: Address, spender: Address, id: u128) -> RegistryState {
        if self.approve_outcome(caller, spender, id) is Ok {
            RegistryState { approvals: self.approvals.insert(id, spender), ..self }
        } else {
            self
        }
    }

    /// The registry after `caller` granted `operator` blanket rights over
    /// its own tokens, or took them back. This call is never refused.
    pub open spec fn set_approval_for_all(
        self,
        caller: Address,
        operator: Address,
        approved: bool,
    ) -> RegistryState {
        RegistryState { operators: self.operators.insert((caller, operator), approved), ..self }
    }

    /// What a transfer reports: the token must be live, `from` its owner,
    /// and the caller authorized, tested in this order.
    pub open spec fn transfer_from_outcome(
        self,
        caller: Address,
        from: Address,
        to: Address,
        id: u128,
    ) -> Result<NftEvent, NftError> {
        if !self.index.is_live(id) {
            Err(NftError::UnknownToken)
        } else if from != self.owner_of(id) {
            Err(NftError::OwnerMismatch)
        } else if !self.is_authorized(caller, id) {
            Err(NftError::NotAuthorized)
        } else {
            Ok(NftEvent::NftTokenTransfered { id, from, to })
        }
    }

    /// The registry after a transfer: the token has left `from`'s
    /// collection as by a removal, its approval is gone, and it is the last
    /// element of `to`'s collection.
    pub open spec fn transfer_from(
        self,
        caller: Address,
        from: Address,
        to: Address,
        id: u128,
    ) -> RegistryState {
        if self.transfer_from_outcome(caller, from, to, id) is Ok {
            self.removed(id).added(to, id)
        } else {
            self
        }
    }

    /// What the call `op` reports.
    pub open spec fn outcome(self, op: Op) -> Result<NftEvent, NftError> {
        match op {
            Op::MintTo { to } => self.mint_to_outcome(to),
            Op::MintIdTo { to, id } => self.mint_id_to_outcome(to, id),
            Op::Burn { caller, contract_owner, id } => self.burn_outcome(caller, contract_owner, id),
            Op::Approve { caller, spender, id } => self.approve_outcome(caller, spender, id),
            Op::SetApprovalForAll { caller, operator, approved } => Ok(
                NftEvent::NftTokenApprovedForAll { caller, operator, approved },
            ),
            Op::TransferFrom { caller, from, to, id } => self.transfer_from_outcome(
                caller,
                from,
                to,
                id,
            ),
        }
    }

    /// The registry after the call `op`; a refused call changes nothing.
    pub open spec fn step(self, op: Op) -> RegistryState {
        match op {
            Op::MintTo { to } => self.mint_to(to),
            Op::MintIdTo { to, id } => self.mint_id_to(to, id),
            Op::Burn { caller, contract_owner, id } => self.burn(caller, contract_owner, id),
            Op::Approve { caller, spender, id } => self.approve(caller, spender, id),
            Op::SetApprovalForAll { caller, operator, approved } => self.set_approval_for_all(
                caller,
                operator,
                approved,
            ),
            Op::TransferFrom { caller, from, to, id } => self.transfer_from(caller, from, to, id),
        }
    }

    /// The registry after the calls `ops`, made in order.
    pub open spec fn run(self, ops: Seq<Op>) -> RegistryState
        decreases ops.len(),
    {
        if ops.len() == 0 {
            self
        } else {
            self.run(ops.drop_last()).step(ops.last())
        }
    }

    /// The next free identity is unique.
    pub proof fn lemma_next_free_unique(self, id: u128)
        requires
            self.is_next_free(id),
        ensures
            self.next_free() == Some(id),
    {
        let c = choose|c: u128| self.is_next_free(c);
        if c < id {
            assert(self.index.is_live(c));
        }
        if id < c {
            assert(self.index.is_live(id));
        }
    }

    /// Minting an identity that is neither live nor burned keeps the
    /// registry consistent, and the count of mints does not overflow.
    pub proof fn lemma_minted_inv(self, to: Address, id: u128)
        requires
            self.inv(),
            !self.index.is_live(id),
            !self.burned.contains(id),
            1 <= id <= MAX_SUPPLY,
        ensures
            self.minted(to, id).inv(),
            self.minted_total + 1 <= MAX_SUPPLY,
    {
        self.index.lemma_add_inv(to, id);
        let after = self.minted(to, id);
        after.index.lemma_dom_bound(self.burned);
        assert(after.index.owners.dom() =~= self.index.owners.dom().insert(id));
        assert forall|t: u128| #[trigger] after.approvals.contains_key(t) implies after.index.is_live(t) by {
            assert(self.index.is_live(t));
        }
    }

    /// Taking a live token out keeps the index and the approvals consistent.
    pub proof fn lemma_removed(self, id: u128)
        requires
            self.inv(),
            self.index.is_live(id),
        ensures
            self.removed(id).index.inv(),
            self.removed(id).index.owners.dom() == self.index.owners.dom().remove(id),
            forall|t: u128| #[trigger]
                self.removed(id).approvals.contains_key(t) ==> self.removed(id).index.is_live(t),
    {
        self.index.lemma_remove_inv(id);
        self.index.lemma_remove_dom(id);
        assert forall|t: u128| #[trigger]
            self.removed(id).approvals.contains_key(t) implies self.removed(id).index.is_live(t) by {
            assert(self.approvals.contains_key(t));
            assert(self.index.is_live(t));
        }
    }

    /// Every call keeps the registry consistent.
    pub proof fn lemma_step_inv(self, op: Op)
        requires
            self.inv(),
        ensures
            self.step(op).inv(),
    {
        match op {
            Op::MintTo { to } => {
                if let Ok(id) = self.allocate_next() {
                    assert(self.is_next_free(id));
                    self.lemma_minted_inv(to, id);
                }
            },
            Op::MintIdTo { to, id } => {
                if self.allocate_specific(id) is Ok {
                    self.lemma_minted_inv(to, id);
                }
            },
            Op::Burn { caller, contract_owner, id } => {
                if self.burn_outcome(caller, contract_owner, id) is Ok {
                    self.lemma_removed(id);
                }
            },
            Op::Approve { caller, spender, id } => {},
            Op::SetApprovalForAll { caller, operator, approved } => {},
            Op::TransferFrom { caller, from, to, id } => {
                if self.transfer_from_outcome(caller, from, to, id) is Ok {
                    self.lemma_removed(id);
                    let mid = self.removed(id);
                    mid.index.lemma_add_inv(to, id);
                    let after = self.transfer_from(caller, from, to, id);
                    assert(after.index.owners.dom() =~= self.index.owners.dom());
                    assert forall|t: u128| #[trigger] after.approvals.contains_key(t) implies after.index.is_live(t) by {
                        assert(mid.index.is_live(t));
                    }
                }
            },
        }
    }
}

} // verus!
