//! The registry in executable form, with the operations on it.

use vstd::prelude::*;
use vstd::seq_lib::seq_to_set_is_finite;
use vstd::std_specs::iter::IteratorSpec;
use vstd::std_specs::btree::{axiom_spec_btree_keys_iter, spec_btree_keys_iter};
use std::collections::BTreeMap;
use std::collections::BTreeSet;
use crate::address::Address;
use crate::metadata::NFTMetadata;
use crate::ownership::OwnershipIndex;
use crate::parts::{operators_of, ContractParts};
use crate::registry_model::{Op, RegistryState};
use crate::types::{NftError, NftEvent, OwnerInfo, MAX_SUPPLY};

verus! {

/// The registry: one aggregate value that an operation takes, changes and
/// hands back. The caller of an operation is passed in explicitly.
pub struct NftContract {
    metadata: NFTMetadata,
    current_token_id: u128,
    minted_total: u128,
    index: OwnershipIndex,
    get_approved: BTreeMap<u128, Address>,
    is_approved_for_all: BTreeMap<((u32, u128), (u32, u128)), bool>,
    burned_nfts: BTreeSet<u128>,
}

impl View for NftContract {
    type V = RegistryState;

    closed spec fn view(&self) -> RegistryState {
        RegistryState {
            index: self.index@,
            approvals: self.get_approved@,
            operators: operators_of(self.is_approved_for_all@),
            burned: self.burned_nfts@,
            cursor: self.current_token_id,
            minted_total: self.minted_total,
        }
    }
}

impl NftContract {
    /// The registry is in a consistent state.
    pub open spec fn wf(&self) -> bool {
        self@.inv()
    }

    /// The descriptive data the registry was set up with.
    pub closed spec fn spec_metadata(&self) -> &NFTMetadata {
        &self.metadata
    }

    /// Sets up an empty registry. Only the contract owner may do so, and
    /// only once: the check on the caller comes first.
    pub fn new(
        metadata: NFTMetadata,
        caller: Address,
        contract_owner: Address,
        initialized: bool,
    ) -> (created: Result<NftContract, NftError>)
        ensures
            match created {
                Ok(contract) => {
                    &&& caller == contract_owner
                    &&& !initialized
                    &&& contract.wf()
                    &&& contract@ == RegistryState::empty()
                    &&& *contract.metadata() == metadata
                },
                Err(e) => if caller != contract_owner {
                    e == NftError::NotAuthorized
                } else {
                    initialized && e == NftError::AlreadyInitialized
                },
            },
    {
        if caller != contract_owner {
            return Err(NftError::NotAuthorized);
        }
        if initialized {
            return Err(NftError::AlreadyInitialized);
        }
        let contract = NftContract {
            metadata,
            current_token_id: 0,
            minted_total: 0,
            index: OwnershipIndex::new(),
            get_approved: BTreeMap::new(),
            is_approved_for_all: BTreeMap::new(),
            burned_nfts: BTreeSet::new(),
        };
        assert(contract@ =~= RegistryState::empty());
        Ok(contract)
    }

    /// The registry that storage held, or `NotInitialized` where it held none.
    pub fn load(stored: Option<NftContract>) -> (loaded: Result<NftContract, NftError>)
        ensures
            loaded == match stored {
                Some(contract) => Ok::<NftContract, NftError>(contract),
                None => Err::<NftContract, NftError>(NftError::NotInitialized),
            },
    {
        match stored {
            Some(contract) => Ok(contract),
            None => Err(NftError::NotInitialized),
        }
    }

    /// Takes the registry apart for storage.
    pub fn into_parts(self) -> (parts: ContractParts)
        ensures
            parts@ == self@,
            parts.metadata == *self.metadata(),
    {
        let (balance_of, owner_of) = self.index.into_parts();
        let parts = ContractParts {
            metadata: self.metadata,
            current_token_id: self.current_token_id,
            minted_total: self.minted_total,
            balance_of,
            owner_of,
            get_approved: self.get_approved,
            is_approved_for_all: self.is_approved_for_all,
            burned_nfts: self.burned_nfts,
        };
        assert(parts@ =~= self@);
        parts
    }

    /// Whether every burned identity lies between 1 and `MAX_SUPPLY` and
    /// is not live.
    fn burned_all_valid(owner_of: &BTreeMap<u128, OwnerInfo>, burned: &BTreeSet<u128>) -> (ok: bool)
        ensures
            burned@.finite(),
            ok <==> forall|id: u128| #[trigger]
                burned@.contains(id) ==> 1 <= id <= MAX_SUPPLY && !owner_of@.contains_key(id),
    {
        let mut ok = true;
        let ghost entries = spec_btree_keys_iter(burned).remaining();
        proof {
            axiom_spec_btree_keys_iter(burned);
            seq_to_set_is_finite(entries.unref());
            assert forall|i: int| 0 <= i < entries.len() implies burned@.contains(
                *(#[trigger] entries[i]),
            ) by {
                assert(entries.unref()[i] == *entries[i]);
                assert(entries.unref().contains(*entries[i]));
            }
            assert forall|id: u128| #[trigger] burned@.contains(id) implies exists|i: int|
                0 <= i < entries.len() && *(#[trigger] entries[i]) == id by {
                assert(entries.unref().contains(id));
                let i = choose|i: int| 0 <= i < entries.unref().len() && entries.unref()[i] == id;
                assert(*entries[i] == id);
            }
        }
        for id in it: burned.iter()
            invariant
                it.seq() == entries,
                forall|i: int| 0 <= i < entries.len() ==> burned@.contains(*(#[trigger] entries[i])),
                forall|id: u128| #[trigger]
                    burned@.contains(id) ==> exists|i: int|
                        0 <= i < entries.len() && *(#[trigger] entries[i]) == id,
                ok <==> forall|i: int|
                    0 <= i < it.index() ==> 1 <= *(#[trigger] entries[i]) <= MAX_SUPPLY
                        && !owner_of@.contains_key(*entries[i]),
        {
            if *id == 0 || *id > MAX_SUPPLY || owner_of.contains_key(id) {
                ok = false;
            }
        }
        ok
    }

    /// Whether every approval belongs to a live token.
    fn approvals_all_live(
        owner_of: &BTreeMap<u128, OwnerInfo>,
        get_approved: &BTreeMap<u128, Address>,
    ) -> (ok: bool)
        ensures
            ok <==> forall|id: u128| #[trigger]
                get_approved@.contains_key(id) ==> owner_of@.contains_key(id),
    {
        let mut ok = true;
        for entry in it: get_approved.iter()
            invariant
                forall|i: int|
                    0 <= i < it.seq().len() ==> get_approved@.contains_key(
                        *(#[trigger] it.seq()[i]).0,
                    ),
                forall|id: u128| #[trigger]
                    get_approved@.contains_key(id) ==> it.seq().contains((&id, &get_approved@[id])),
                ok <==> forall|i: int|
                    0 <= i < it.index() ==> owner_of@.contains_key(*(#[trigger] it.seq()[i]).0),
        {
            if !owner_of.contains_key(entry.0) {
                ok = false;
            }
        }
        ok
    }

    /// Puts a registry together from its stored parts, if they stand for a
    /// consistent registry.
    pub fn from_parts(parts: ContractParts) -> (restored: Option<NftContract>)
        ensures
            restored is Some <==> parts@.inv(),
            restored matches Some(contract) ==> contract@ == parts@ && *contract.metadata()
                == parts.metadata,
    {
        let ghost state = parts@;
        let ContractParts {
            metadata,
            current_token_id,
            minted_total,
            balance_of,
            owner_of,
            get_approved,
            is_approved_for_all,
            burned_nfts,
        } = parts;
        if current_token_id > MAX_SUPPLY {
            return None;
        }
        if !Self::burned_all_valid(&owner_of, &burned_nfts) {
            proof {
                let id = choose|id: u128| #[trigger]
                    burned_nfts@.contains(id) && !(1 <= id <= MAX_SUPPLY && !owner_of@.contains_key(
                        id,
                    ));
                assert(state.burned.contains(id));
            }
            return None;
        }
        if !Self::approvals_all_live(&owner_of, &get_approved) {
            proof {
                let id = choose|id: u128| #[trigger]
                    get_approved@.contains_key(id) && !owner_of@.contains_key(id);
                assert(state.approvals.contains_key(id));
            }
            return None;
        }
        if minted_total != owner_of.len() as u128 + burned_nfts.len() as u128 {
            return None;
        }
        let index = match OwnershipIndex::from_parts(balance_of, owner_of) {
            Some(index) => index,
            None => {
                return None;
            },
        };
        let contract = NftContract {
            metadata,
            current_token_id,
            minted_total,
            index,
            get_approved,
            is_approved_for_all,
            burned_nfts,
        };
        assert(contract@ =~= state);
        Some(contract)
    }

    /// The descriptive data the registry was set up with.
    #[verifier::when_used_as_spec(spec_metadata)]
    pub fn metadata(&self) -> (metadata: &NFTMetadata)
        ensures
            metadata == self.spec_metadata(),
    {
        &self.metadata
    }

    /// How many tokens were ever minted, burned ones included.
    pub fn minted_total(&self) -> (total: u128)
        ensures
            total == self@.minted_total,
    {
        self.minted_total
    }

    /// Whether `owner` has granted `operator` blanket rights over its tokens.
    fn is_operator(&self, owner: Address, operator: Address) -> (granted: bool)
        ensures
            granted == self@.is_operator(owner, operator),
    {
        let key = (owner.key(), operator.key());
        let ghost pair = (owner, operator);
        assert(self@.operators.contains_key(pair) == self.is_approved_for_all@.contains_key(key));
        match self.is_approved_for_all.get(&key) {
            Some(approved) => *approved,
            None => false,
        }
    }

    /// Whether `caller` may transfer the token `id`: the owner, an operator
    /// of the owner and the token's approved spender may. Nobody may
    /// transfer a token that is not live.
    pub fn is_authorized(&self, caller: Address, id: u128) -> (authorized: bool)
        ensures
            authorized == (self@.index.is_live(id) && self@.is_authorized(caller, id)),
    {
        match self.index.info_of(id) {
            None => false,
            Some(info) => {
                let is_spender = match self.get_approved.get(&id) {
                    Some(spender) => *spender == caller,
                    None => false,
                };
                info.address == caller || self.is_operator(info.address, caller) || is_spender
            },
        }
    }

    /// The smallest identity above the cursor, and at most `MAX_SUPPLY`,
    /// that names no live token, if there is one. Whether it was burned is
    /// not looked at here.
    pub fn next_free(&self) -> (free: Option<u128>)
        ensures
            free == self@.next_free(),
    {
        if self.current_token_id >= MAX_SUPPLY {
            assert forall|c: u128| !self@.is_next_free(c) by {}
            return None;
        }
        let mut id: u128 = self.current_token_id + 1;
        while id <= MAX_SUPPLY && self.index.info_of(id).is_some()
            invariant
                self.current_token_id < id <= MAX_SUPPLY + 1,
                forall|j: u128| self.current_token_id < j < id ==> #[trigger] self@.index.is_live(j),
            decreases MAX_SUPPLY + 1 - id,
        {
            id += 1;
        }
        if id > MAX_SUPPLY {
            assert forall|c: u128| !self@.is_next_free(c) by {
                if self@.cursor < c <= MAX_SUPPLY {
                    assert(self@.index.is_live(c));
                }
            }
            None
        } else {
            proof {
                self@.lemma_next_free_unique(id);
            }
            Some(id)
        }
    }

    /// The identity the next mint without an explicit identity would get:
    /// the smallest one above the cursor that names no live token. Fails
    /// with `SupplyExhausted` where none at most `MAX_SUPPLY` is left, and
    /// with `AlreadyBurned` where that identity was burned.
    pub fn allocate_next(&self) -> (allocated: Result<u128, NftError>)
        ensures
            allocated == self@.allocate_next(),
    {
        match self.next_free() {
            None => Err(NftError::SupplyExhausted),
            Some(id) => if self.burned_nfts.contains(&id) {
                Err(NftError::AlreadyBurned)
            } else {
                Ok(id)
            },
        }
    }

    /// Whether the explicit identity `id` can be minted. Fails with
    /// `AlreadyBurned` where it was burned, else with `AlreadyMinted` where
    /// it is live, else with `SupplyExceeded` where it lies outside the
    /// range from 1 to `MAX_SUPPLY`: 0 is no identity.
    pub fn allocate_specific(&self, id: u128) -> (allocated: Result<u128, NftError>)
        ensures
            allocated == self@.allocate_specific(id),
    {
        if self.burned_nfts.contains(&id) {
            Err(NftError::AlreadyBurned)
        } else if self.index.info_of(id).is_some() {
            Err(NftError::AlreadyMinted)
        } else if id == 0 || id > MAX_SUPPLY {
            Err(NftError::SupplyExceeded)
        } else {
            Ok(id)
        }
    }

    /// Puts the unused identity `id` at the end of the collection of `to`
    /// and records its slot.
    fn internal_add_token_to(&mut self, to: Address, id: u128)
        requires
            old(self)@.index.inv(),
            !old(self)@.index.is_live(id),
            1 <= id <= MAX_SUPPLY,
        ensures
            final(self)@ == old(self)@.added(to, id),
            final(self).metadata() == old(self).metadata(),
    {
        self.index.add_token(to, id);
        assert(self@ =~= old(self)@.added(to, id));
    }

    /// The step both mints end in: gives `id` to `to` and counts the mint.
    fn record_mint(&mut self, to: Address, id: u128)
        requires
            old(self).wf(),
            old(self)@.allocate_specific(id) is Ok,
        ensures
            final(self)@ == old(self)@.minted(to, id),
            final(self)@.inv(),
            final(self).metadata() == old(self).metadata(),
    {
        proof {
            old(self)@.lemma_minted_inv(to, id);
        }
        self.internal_add_token_to(to, id);
        self.minted_total = self.minted_total + 1;
        assert(self@ =~= old(self)@.minted(to, id));
    }

    /// Mints the token with the explicit identity `id` to `to`; the cursor
    /// stays where it is. Refused, in this order, with `AlreadyBurned` where
    /// `id` was burned, `AlreadyMinted` where it is live, and
    /// `SupplyExceeded` where it is 0 or above `MAX_SUPPLY`.
    pub fn mint_id_to(&mut self, to: Address, id: u128) -> (minted: Result<NftEvent, NftError>)
        requires
            old(self).wf(),
        ensures
            final(self).wf(),
            final(self).metadata() == old(self).metadata(),
            minted == old(self)@.mint_id_to_outcome(to, id),
            final(self)@ == old(self)@.mint_id_to(to, id),
    {
        match self.allocate_specific(id) {
            Err(e) => Err(e),
            Ok(_) => {
                self.record_mint(to, id);
                Ok(NftEvent::NftTokenMinted { id, owner: to })
            },
        }
    }

    /// Mints the smallest identity above the cursor that names no live
    /// token to `to`, and moves the cursor to it. Refused with
    /// `SupplyExhausted` where no such identity is left, and with
    /// `AlreadyBurned` where that identity was burned.
    pub fn mint_to(&mut self, to: Address) -> (minted: Result<NftEvent, NftError>)
        requires
            old(self).wf(),
        ensures
            final(self).wf(),
            final(self).metadata() == old(self).metadata(),
            minted == old(self)@.mint_to_outcome(to),
            final(self)@ == old(self)@.mint_to(to),
    {
        match self.allocate_next() {
            Err(e) => Err(e),
            Ok(id) => {
                proof {
                    old(self)@.lemma_step_inv(Op::MintTo { to });
                }
                assert(old(self)@.is_next_free(id));
                self.record_mint(to, id);
                self.current_token_id = id;
                assert(self@ =~= old(self)@.mint_to(to));
                Ok(NftEvent::NftTokenMinted { id, owner: to })
            },
        }
    }

    /// Takes the live token `id` out of its owner's collection and deletes
    /// its approval. Returns the former owner and that owner's new balance.
    fn internal_remove_token(&mut self, id: u128) -> (removed: (Address, u32))
        requires
            old(self).wf(),
            old(self)@.index.is_live(id),
        ensures
            final(self)@ == old(self)@.removed(id),
            final(self).metadata() == old(self).metadata(),
            removed.0 == old(self)@.owner_of(id),
            removed.1 == (old(self)@.index.tokens_of(old(self)@.owner_of(id)).len() - 1) as u32,
    {
        let removed = self.index.remove_token(id);
        self.get_approved.remove(&id);
        assert(self@ =~= old(self)@.removed(id));
        removed.unwrap()
    }

    /// Burns the live token `id`: it leaves its owner's collection, loses
    /// its approval, and is never minted again. Only the contract owner may
    /// burn: another caller is refused with `NotAuthorized`, and after that
    /// check an identity that is not live with `UnknownToken`.
    pub fn burn(&mut self, caller: Address, contract_owner: Address, id: u128) -> (burned: Result<
        NftEvent,
        NftError,
    >)
        requires
            old(self).wf(),
        ensures
            final(self).wf(),
            final(self).metadata() == old(self).metadata(),
            burned == old(self)@.burn_outcome(caller, contract_owner, id),
            final(self)@ == old(self)@.burn(caller, contract_owner, id),
    {
        if caller != contract_owner {
            return Err(NftError::NotAuthorized);
        }
        if self.index.info_of(id).is_none() {
            return Err(NftError::UnknownToken);
        }
        proof {
            old(self)@.lemma_step_inv(Op::Burn { caller, contract_owner, id });
        }
        let (owner, balance) = self.internal_remove_token(id);
        self.burned_nfts.insert(id);
        assert(self@ =~= old(self)@.burn(caller, contract_owner, id));
        Ok(NftEvent::NftTokenBurned { id, owner, balance })
    }

    /// Makes `spender` the one approved spender of the live token `id`,
    /// in place of any earlier one. Refused with `UnknownToken` where `id`
    /// is not live, else with `NotAuthorized` unless the caller is the
    /// token's owner or an operator of the owner.
    pub fn approve(&mut self, caller: Address, spender: Address, id: u128) -> (approved: Result<
        NftEvent,
        NftError,
    >)
        requires
            old(self).wf(),
        ensures
            final(self).wf(),
            final(self).metadata() == old(self).metadata(),
            approved == old(self)@.approve_outcome(caller, spender, id),
            final(self)@ == old(self)@.approve(caller, spender, id),
    {
        let owner = match self.index.info_of(id) {
            Some(info) => info.address,
            None => {
                return Err(NftError::UnknownToken);
            },
        };
        if !(caller == owner || self.is_operator(owner, caller)) {
            return Err(NftError::NotAuthorized);
        }
        self.get_approved.insert(id, spender);
        assert(self@ =~= old(self)@.approve(caller, spender, id));
        Ok(NftEvent::NftTokenApproved { id, owner, spender })
    }

    /// Grants `operator` blanket rights over the caller's tokens, or takes
    /// them back. Anyone may do so for the own address.
    pub fn set_approval_for_all(&mut self, caller: Address, operator: Address, approved: bool) -> (event:
        NftEvent)
        requires
            old(self).wf(),
        ensures
            final(self).wf(),
            final(self).metadata() == old(self).metadata(),
            event == (NftEvent::NftTokenApprovedForAll { caller, operator, approved }),
            final(self)@ == old(self)@.set_approval_for_all(caller, operator, approved),
    {
        self.is_approved_for_all.insert((caller.key(), operator.key()), approved);
        assert(self@.operators =~= old(self)@.operators.insert((caller, operator), approved)) by {
            assert forall|p: (Address, Address)|
                self@.operators.contains_key(p) == old(self)@.operators.insert(
                    (caller, operator),
                    approved,
                ).contains_key(p) by {
                assert(((p.0.key(), p.1.key()) == (caller.key(), operator.key())) == (p == (
                    caller,
                    operator,
                )));
            }
        }
        assert(self@ =~= old(self)@.set_approval_for_all(caller, operator, approved));
        NftEvent::NftTokenApprovedForAll { caller, operator, approved }
    }

    /// Moves the live token `id` from `from` to `to`: a removal from the
    /// one collection, which takes the token's approval with it, and an
    /// addition to the other. Refused with `UnknownToken` where `id` is not
    /// live, else with `OwnerMismatch` where `from` is not its owner, else
    /// with `NotAuthorized` unless the caller is its owner, an operator of
    /// the owner or its approved spender.
    pub fn transfer_from(&mut self, caller: Address, from: Address, to: Address, id: u128) -> (moved:
        Result<NftEvent, NftError>)
        requires
            old(self).wf(),
        ensures
            final(self).wf(),
            final(self).metadata() == old(self).metadata(),
            moved == old(self)@.transfer_from_outcome(caller, from, to, id),
            final(self)@ == old(self)@.transfer_from(caller, from, to, id),
    {
        let owner = match self.index.info_of(id) {
            Some(info) => info.address,
            None => {
                return Err(NftError::UnknownToken);
            },
        };
        if from != owner {
            return Err(NftError::OwnerMismatch);
        }
        if !self.is_authorized(caller, id) {
            return Err(NftError::NotAuthorized);
        }
        proof {
            old(self)@.lemma_step_inv(Op::TransferFrom { caller, from, to, id });
            old(self)@.lemma_removed(id);
        }
        self.internal_remove_token(id);
        self.internal_add_token_to(to, id);
        assert(self@ =~= old(self)@.transfer_from(caller, from, to, id));
        Ok(NftEvent::NftTokenTransfered { id, from, to })
    }

    /// The owner and the position the reverse index records for the token
    /// `id`, if it is live.
    pub fn owner_info(&self, id: u128) -> (info: Option<OwnerInfo>)
        ensures
            info == if self@.index.is_live(id) {
                Some(self@.index.owners[id])
            } else {
                None
            },
    {
        self.index.info_of(id)
    }

    /// How many tokens `owner` holds; 0 where the address has no collection.
    pub fn balance_of(&self, owner: Address) -> (balance: u128)
        ensures
            balance == self@.index.tokens_of(owner).len(),
    {
        match self.index.collection_of(owner) {
            Some(tokens) => tokens.len() as u128,
            None => 0,
        }
    }

    /// The current owner of the token `id`; `UnknownToken` where it is not live.
    pub fn owner_of(&self, id: u128) -> (owner: Result<Address, NftError>)
        ensures
            owner == if self@.index.is_live(id) {
                Ok::<Address, NftError>(self@.owner_of(id))
            } else {
                Err::<Address, NftError>(NftError::UnknownToken)
            },
    {
        match self.index.info_of(id) {
            Some(info) => Ok(info.address),
            None => Err(NftError::UnknownToken),
        }
    }

    /// The identities `owner` holds, in the order of its collection;
    /// `UnknownToken` where the address never had a collection.
    pub fn owned_tokens(&self, owner: Address) -> (owned: Result<Vec<u128>, NftError>)
        ensures
            match owned {
                Ok(tokens) => self@.index.collections.contains_key(owner) && tokens@
                    == self@.index.collections[owner],
                Err(e) => !self@.index.collections.contains_key(owner) && e == NftError::UnknownToken,
            },
    {
        let issued_tokens = match self.index.collection_of(owner) {
            Some(tokens) => tokens,
            None => {
                return Err(NftError::UnknownToken);
            },
        };
        let mut result: Vec<u128> = Vec::with_capacity(issued_tokens.len());
        let mut idx: usize = 0;
        while idx < issued_tokens.len()
            invariant
                idx <= issued_tokens.len(),
                result@ == issued_tokens@.subrange(0, idx as int),
            decreases issued_tokens.len() - idx,
        {
            result.push(issued_tokens[idx]);
            idx += 1;
        }
        assert(result@ =~= issued_tokens@);
        Ok(result)
    }
}

} // verus!
