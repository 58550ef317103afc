//! The ownership index in executable form: the owner collections and the
//! reverse index behind one type.

use vstd::prelude::*;
use std::collections::BTreeMap;
use crate::address::Address;
use crate::index_model::IndexState;
use crate::types::{NftError, OwnerInfo, MAX_SUPPLY};

verus! {

/// The owner collections and the reverse index, kept as one component whose
/// only mutators are [`OwnershipIndex::add_token`] and
/// [`OwnershipIndex::remove_token`], so that the two can never disagree.
pub struct OwnershipIndex {
    balance_of: BTreeMap<(u32, u128), Vec<u128>>,
    owner_of: BTreeMap<u128, OwnerInfo>,
}

impl View for OwnershipIndex {
    type V = IndexState;

    closed spec fn view(&self) -> IndexState {
        IndexState::of_maps(self.balance_of@, self.owner_of@)
    }
}

/// Whether `id` lies between 1 and `MAX_SUPPLY` and its reverse index
/// entry `info` points at a slot of a stored collection that holds `id`.
pub open spec fn token_placed(
    balance_of: Map<(u32, u128), Vec<u128>>,
    id: u128,
    info: OwnerInfo,
) -> bool {
    &&& 1 <= id <= MAX_SUPPLY
    &&& balance_of.contains_key(info.address.key())
    &&& (info.token_idx as int) < balance_of[info.address.key()].len()
    &&& balance_of[info.address.key()][info.token_idx as int] == id
}

/// Whether slot `i` of the collection `tokens`, stored under `key`, holds
/// an identity that the reverse index records at exactly that slot.
pub open spec fn slot_recorded(
    owner_of: Map<u128, OwnerInfo>,
    key: (u32, u128),
    tokens: Seq<u128>,
    i: int,
) -> bool {
    &&& owner_of.contains_key(tokens[i])
    &&& owner_of[tokens[i]].address.key() == key
    &&& owner_of[tokens[i]].token_idx as int == i
}

impl OwnershipIndex {
    /// The two indexes agree with each other.
    pub open spec fn wf(&self) -> bool {
        self@.inv()
    }

    /// An index that holds no token and no collection.
    pub fn new() -> (index: OwnershipIndex)
        ensures
            index.wf(),
            index@ == IndexState::empty(),
    {
        let index = OwnershipIndex { balance_of: BTreeMap::new(), owner_of: BTreeMap::new() };
        assert(index@ =~= IndexState::empty());
        index
    }

    /// How many tokens are live.
    pub fn live_count(&self) -> (count: usize)
        ensures
            count == self@.owners.dom().len(),
    {
        self.owner_of.len()
    }

    /// Hands out the two maps the index is made of: the collections, each
    /// under the key of its address, and the reverse index.
    pub fn into_parts(self) -> (parts: (BTreeMap<(u32, u128), Vec<u128>>, BTreeMap<u128, OwnerInfo>))
        ensures
            IndexState::of_maps(parts.0@, parts.1@) == self@,
    {
        (self.balance_of, self.owner_of)
    }

    /// Whether every entry of the reverse index has an identity between 1
    /// and `MAX_SUPPLY` and points at a slot that holds it.
    fn all_tokens_placed(
        balance_of: &BTreeMap<(u32, u128), Vec<u128>>,
        owner_of: &BTreeMap<u128, OwnerInfo>,
    ) -> (ok: bool)
        ensures
            ok <==> forall|id: u128| #[trigger]
                owner_of@.contains_key(id) ==> token_placed(balance_of@, id, owner_of@[id]),
    {
        let mut ok = true;
        for entry in it: owner_of.iter()
            invariant
                forall|i: int|
                    0 <= i < it.seq().len() ==> owner_of@.contains_key(*(#[trigger] it.seq()[i]).0)
                        && owner_of@[*it.seq()[i].0] == *it.seq()[i].1,
                forall|id: u128| #[trigger]
                    owner_of@.contains_key(id) ==> it.seq().contains((&id, &owner_of@[id])),
                ok <==> forall|i: int|
                    0 <= i < it.index() ==> token_placed(
                        balance_of@,
                        *(#[trigger] it.seq()[i]).0,
                        *it.seq()[i].1,
                    ),
        {
            let id: u128 = *entry.0;
            let info = *entry.1;
            let placed = 1 <= id && id <= MAX_SUPPLY && match balance_of.get(&info.address.key()) {
                Some(tokens) => (info.token_idx as usize) < tokens.len() && tokens[info.token_idx as usize]
                    == id,
                None => false,
            };
            if !placed {
                ok = false;
            }
        }
        ok
    }

    /// Whether every slot of one collection is recorded in the reverse index.
    fn collection_recorded(
        owner_of: &BTreeMap<u128, OwnerInfo>,
        key: (u32, u128),
        tokens: &Vec<u128>,
    ) -> (ok: bool)
        ensures
            ok <==> forall|i: int| 0 <= i < tokens.len() ==> slot_recorded(owner_of@, key, tokens@, i),
    {
        let mut i: usize = 0;
        while i < tokens.len()
            invariant
                i <= tokens.len(),
                forall|j: int| 0 <= j < i ==> slot_recorded(owner_of@, key, tokens@, j),
            decreases tokens.len() - i,
        {
            let recorded = match owner_of.get(&tokens[i]) {
                Some(info) => info.address.high == key.0 && info.address.low == key.1 && info.token_idx as usize
                    == i,
                None => false,
            };
            if !recorded {
                assert(!slot_recorded(owner_of@, key, tokens@, i as int));
                return false;
            }
            i += 1;
        }
        true
    }

    /// Whether every slot of every collection is recorded in the reverse
    /// index.
    fn all_slots_recorded(
        balance_of: &BTreeMap<(u32, u128), Vec<u128>>,
        owner_of: &BTreeMap<u128, OwnerInfo>,
    ) -> (ok: bool)
        ensures
            ok <==> forall|key: (u32, u128), i: int|
                balance_of@.contains_key(key) && 0 <= i < balance_of@[key].len() ==> #[trigger] slot_recorded(
                    owner_of@,
                    key,
                    balance_of@[key]@,
                    i,
                ),
    {
        let mut ok = true;
        for entry in it: balance_of.iter()
            invariant
                forall|i: int|
                    0 <= i < it.seq().len() ==> balance_of@.contains_key(*(#[trigger] it.seq()[i]).0)
                        && balance_of@[*it.seq()[i].0] == *it.seq()[i].1,
                forall|key: (u32, u128)| #[trigger]
                    balance_of@.contains_key(key) ==> it.seq().contains((&key, &balance_of@[key])),
                ok <==> forall|n: int, i: int|
                    0 <= n < it.index() && 0 <= i < it.seq()[n].1.len() ==> #[trigger] slot_recorded(
                        owner_of@,
                        *it.seq()[n].0,
                        it.seq()[n].1@,
                        i,
                    ),
        {
            if !Self::collection_recorded(owner_of, *entry.0, entry.1) {
                ok = false;
            }
        }
        ok
    }

    /// Makes an index of two stored maps, if they agree with each other as
    /// the two faces of an index must.
    pub fn from_parts(
        balance_of: BTreeMap<(u32, u128), Vec<u128>>,
        owner_of: BTreeMap<u128, OwnerInfo>,
    ) -> (index: Option<OwnershipIndex>)
        ensures
            index is Some <==> IndexState::of_maps(balance_of@, owner_of@).inv(),
            index matches Some(made) ==> made@ == IndexState::of_maps(balance_of@, owner_of@),
    {
        let ghost state = IndexState::of_maps(balance_of@, owner_of@);
        if !Self::all_tokens_placed(&balance_of, &owner_of) {
            proof {
                let id = choose|id: u128| #[trigger]
                    owner_of@.contains_key(id) && !token_placed(balance_of@, id, owner_of@[id]);
                assert(state.owners.contains_key(id));
            }
            return None;
        }
        if !Self::all_slots_recorded(&balance_of, &owner_of) {
            proof {
                let (key, i) = choose|key: (u32, u128), i: int|
                    balance_of@.contains_key(key) && 0 <= i < balance_of@[key].len() && !#[trigger] slot_recorded(
                        owner_of@,
                        key,
                        balance_of@[key]@,
                        i,
                    );
                let a = Address::of_key(key);
                assert(a.key() == key);
                assert(state.collections.contains_key(a));
                if state.inv() {
                    assert(state.owners.contains_key(state.collections[a][i]));
                }
            }
            return None;
        }
        proof {
            assert forall|id: u128| #[trigger] state.owners.contains_key(id) implies {
                &&& 1 <= id <= MAX_SUPPLY
                &&& state.collections.contains_key(state.owners[id].address)
                &&& (state.owners[id].token_idx as int) < state.collections[state.owners[id].address].len()
                &&& state.collections[state.owners[id].address][state.owners[id].token_idx as int] == id
            } by {
                assert(token_placed(balance_of@, id, owner_of@[id]));
            }
            assert forall|a: Address, i: int|
                state.collections.contains_key(a) && 0 <= i < state.collections[a].len() implies {
                    &&& state.owners.contains_key(#[trigger] state.collections[a][i])
                    &&& state.owners[state.collections[a][i]].address == a
                    &&& state.owners[state.collections[a][i]].token_idx as int == i
                } by {
                assert(slot_recorded(owner_of@, a.key(), balance_of@[a.key()]@, i));
            }
        }
        Some(OwnershipIndex { balance_of, owner_of })
    }

    /// The owner and position recorded for `id`, if the token is live.
    pub fn info_of(&self, id: u128) -> (info: Option<OwnerInfo>)
        ensures
            info == if self@.is_live(id) {
                Some(self@.owners[id])
            } else {
                None
            },
    {
        match self.owner_of.get(&id) {
            Some(info) => Some(*info),
            None => None,
        }
    }

    /// The collection of `owner`, if the address has one.
    pub fn collection_of(&self, owner: Address) -> (tokens: Option<&Vec<u128>>)
        ensures
            match tokens {
                Some(v) => self@.collections.contains_key(owner) && v@ == self@.collections[owner],
                None => !self@.collections.contains_key(owner),
            },
    {
        let key = owner.key();
        self.balance_of.get(&key)
    }

    /// Appends `id` to the collection of `owner`, creating the collection
    /// where the address has none, and records the new slot for `id`. The
    /// identity must be unused and lie between 1 and `MAX_SUPPLY`.
    pub fn add_token(&mut self, owner: Address, id: u128)
        requires
            old(self).wf(),
            !old(self)@.is_live(id),
            1 <= id <= MAX_SUPPLY,
        ensures
            final(self).wf(),
            final(self)@ == old(self)@.add(owner, id),
    {
        proof {
            old(self)@.lemma_add_inv(owner, id);
        }
        let key = owner.key();
        let mut tokens = match self.balance_of.remove(&key) {
            Some(v) => v,
            None => Vec::new(),
        };
        assert(tokens@ == old(self)@.tokens_of(owner));
        tokens.push(id);
        let last_idx: u32 = (tokens.len() - 1) as u32;
        self.balance_of.insert(key, tokens);
        self.owner_of.insert(id, OwnerInfo::new(owner, last_idx));
        assert(self@ =~= old(self)@.add(owner, id));
    }

    /// Takes `id` out of its owner's collection without shifting the
    /// elements behind it: the last element of the collection moves into
    /// the freed slot and its recorded position is corrected. Returns the
    /// former owner and the number of tokens that owner has left; fails
    /// with `UnknownToken`, changing nothing, where `id` is not live.
    pub fn remove_token(&mut self, id: u128) -> (removed: Result<(Address, u32), NftError>)
        requires
            old(self).wf(),
        ensures
            final(self).wf(),
            old(self)@.is_live(id) ==> {
                &&& final(self)@ == old(self)@.remove(id)
                &&& removed == Ok::<(Address, u32), NftError>(
                    (
                        old(self)@.owners[id].address,
                        (old(self)@.tokens_of(old(self)@.owners[id].address).len() - 1) as u32,
                    ),
                )
            },
            !old(self)@.is_live(id) ==> {
                &&& final(self)@ == old(self)@
                &&& removed == Err::<(Address, u32), NftError>(NftError::UnknownToken)
            },
    {
        let info = match self.owner_of.get(&id) {
            Some(info) => *info,
            None => {
                return Err(NftError::UnknownToken);
            },
        };
        proof {
            old(self)@.lemma_remove_inv(id);
            old(self)@.lemma_collection_distinct(info.address);
        }
        let key = info.address.key();
        let mut tokens = match self.balance_of.remove(&key) {
            Some(v) => v,
            None => Vec::new(),
        };
        assert(tokens@ == old(self)@.collections[info.address]);
        let pos: usize = info.token_idx as usize;
        let is_last = pos == tokens.len() - 1;
        tokens.swap_remove(pos);
        if !is_last {
            let moved = tokens[pos];
            self.owner_of.insert(moved, info);
        }
        self.owner_of.remove(&id);
        let balance: u32 = tokens.len() as u32;
        self.balance_of.insert(key, tokens);
        assert(self@ =~= old(self)@.remove(id));
        Ok((info.address, balance))
    }
}

} // verus!
