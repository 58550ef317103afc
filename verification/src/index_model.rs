//! The mathematical model of the ownership index: its state, the
//! invariant that ties the two indexes together, and what adding and
//! removing a token do to it.

use vstd::prelude::*;
use vstd::set_lib::*;
use vstd::relations::injective_on;
use crate::address::Address;
use crate::types::{OwnerInfo, MAX_SUPPLY};

verus! {

/// The mathematical state of the ownership index: the reverse index from
/// live identities to their owner and position, and the collection of
/// identities each address holds.
#[verifier::ext_equal]
pub struct IndexState {
    pub owners: Map<u128, OwnerInfo>,
    pub collections: Map<Address, Seq<u128>>,
}

impl IndexState {
    /// The index that holds no token and no collection.
    pub open spec fn empty() -> IndexState {
        IndexState { owners: Map::empty(), collections: Map::empty() }
    }

    /// The index that two stored maps stand for: the reverse index as it
    /// is, and each collection under the address whose key it is stored at.
    pub open spec fn of_maps(
        balance_of: Map<(u32, u128), Vec<u128>>,
        owner_of: Map<u128, OwnerInfo>,
    ) -> IndexState {
        IndexState {
            owners: owner_of,
            collections: Map::new(
                |a: Address| balance_of.contains_key(a.key()),
                |a: Address| balance_of[a.key()]@,
            ),
        }
    }

    /// Whether `id` names a live token.
    pub open spec fn is_live(self, id: u128) -> bool {
        self.owners.contains_key(id)
    }

    /// The identities `owner` holds, in collection order; empty where the
    /// address has no collection.
    pub open spec fn tokens_of(self, owner: Address) -> Seq<u128> {
        if self.collections.contains_key(owner) {
            self.collections[owner]
        } else {
            Seq::empty()
        }
    }

    /// The two indexes agree: every live identity lies between 1 and
    /// `MAX_SUPPLY` and sits in its owner's collection at the recorded
    /// position, and every slot of every collection holds a live identity
    /// recorded at that slot.
    pub open spec fn inv(self) -> bool {
        &&& self.owners.dom().finite()
        &&& forall|id: u128| #[trigger]
            self.owners.contains_key(id) ==> {
                &&& 1 <= id <= MAX_SUPPLY
                &&& self.collections.contains_key(self.owners[id].address)
                &&& (self.owners[id].token_idx as int) < self.collections[self.owners[id].address].len()
                &&& self.collections[self.owners[id].address][self.owners[id].token_idx as int] == id
            }
        &&& forall|a: Address, i: int|
            self.collections.contains_key(a) && 0 <= i < self.collections[a].len() ==> {
                &&& self.owners.contains_key(#[trigger] self.collections[a][i])
                &&& self.owners[self.collections[a][i]].address == a
                &&& self.owners[self.collections[a][i]].token_idx as int == i
            }
    }

    /// Appends `id` to `owner`'s collection, creating the collection if the
    /// address has none, and records the new slot in the reverse index.
    pub open spec fn add(self, owner: Address, id: u128) -> IndexState {
        let tokens = self.tokens_of(owner);
        IndexState {
            owners: self.owners.insert(
                id,
                OwnerInfo { address: owner, token_idx: tokens.len() as u32 },
            ),
            collections: self.collections.insert(owner, tokens.push(id)),
        }
    }

    /// Takes the live identity `id` out of its owner's collection. The last
    /// element of that collection moves into the freed slot, and its
    /// recorded position follows it; nothing else moves.
    pub open spec fn remove(self, id: u128) -> IndexState
        recommends
            self.is_live(id),
    {
        let info = self.owners[id];
        let tokens = self.collections[info.address];
        let pos = info.token_idx as int;
        let last = tokens.last();
        IndexState {
            owners: if pos == tokens.len() - 1 {
                self.owners.remove(id)
            } else {
                self.owners.insert(last, info).remove(id)
            },
            collections: self.collections.insert(
                info.address,
                tokens.update(pos, last).drop_last(),
            ),
        }
    }
}

/// A sequence of distinct identities, each between 1 and `bound`, has at
/// most `bound` elements.
pub proof fn lemma_distinct_bounded_len(s: Seq<u128>, bound: u128)
    requires
        s.no_duplicates(),
        forall|i: int| 0 <= i < s.len() ==> 1 <= #[trigger] s[i] && s[i] <= bound,
    ensures
        s.len() <= bound,
{
    lemma_bounded_set_len(s.to_set(), bound);
    s.unique_seq_to_set();
}

/// A finite set of identities, each between 1 and `bound`, has at most
/// `bound` elements.
pub proof fn lemma_bounded_set_len(ids: Set<u128>, bound: u128)
    requires
        ids.finite(),
        forall|id: u128| ids.contains(id) ==> 1 <= id <= bound,
    ensures
        ids.len() <= bound,
{
    let f = |id: u128| id as int;
    let image = ids.map(f);
    assert(injective_on(f, ids));
    lemma_map_size(ids, image, f);
    lemma_int_range(1, bound + 1);
    assert(image.subset_of(set_int_range(1, bound + 1)));
    lemma_len_subset(image, set_int_range(1, bound + 1));
}

impl IndexState {
    /// In a consistent index no collection holds an identity twice.
    pub proof fn lemma_collection_distinct(self, owner: Address)
        requires
            self.inv(),
        ensures
            self.tokens_of(owner).no_duplicates(),
            self.tokens_of(owner).len() <= MAX_SUPPLY,
            forall|i: int| 0 <= i < self.tokens_of(owner).len() ==> self.is_live(#[trigger] self.tokens_of(owner)[i]),
    {
        let c = self.tokens_of(owner);
        assert forall|i: int, j: int| 0 <= i < c.len() && 0 <= j < c.len() && i != j implies c[i] != c[j] by {
            if c[i] == c[j] {
                assert(self.owners[c[i]].token_idx as int == i);
                assert(self.owners[c[j]].token_idx as int == j);
            }
        }
        assert forall|i: int| 0 <= i < c.len() implies 1 <= #[trigger] c[i] && c[i] <= MAX_SUPPLY by {
            assert(self.owners.contains_key(c[i]));
        }
        lemma_distinct_bounded_len(c, MAX_SUPPLY);
    }

    /// Adding an unused identity keeps the index consistent.
    pub proof fn lemma_add_inv(self, owner: Address, id: u128)
        requires
            self.inv(),
            !self.is_live(id),
            1 <= id <= MAX_SUPPLY,
        ensures
            self.add(owner, id).inv(),
            self.tokens_of(owner).len() < MAX_SUPPLY,
    {
        let c = self.tokens_of(owner);
        let after = self.add(owner, id);
        self.lemma_collection_distinct(owner);
        let c2 = c.push(id);
        assert(c2.no_duplicates()) by {
            assert forall|i: int, j: int| 0 <= i < c2.len() && 0 <= j < c2.len() && i != j implies c2[i] != c2[j] by {
                if i < c.len() {
                    assert(self.is_live(c[i]));
                }
                if j < c.len() {
                    assert(self.is_live(c[j]));
                }
            }
        }
        assert forall|i: int| 0 <= i < c2.len() implies 1 <= #[trigger] c2[i] && c2[i] <= MAX_SUPPLY by {
            if i < c.len() {
                assert(self.is_live(c[i]));
            }
        }
        lemma_distinct_bounded_len(c2, MAX_SUPPLY);
        assert forall|t: u128| #[trigger] after.owners.contains_key(t) implies {
            &&& 1 <= t <= MAX_SUPPLY
            &&& after.collections.contains_key(after.owners[t].address)
            &&& (after.owners[t].token_idx as int) < after.collections[after.owners[t].address].len()
            &&& after.collections[after.owners[t].address][after.owners[t].token_idx as int] == t
        } by {
            if t != id {
                assert(self.owners.contains_key(t));
            }
        }
        assert forall|a: Address, i: int|
            after.collections.contains_key(a) && 0 <= i < after.collections[a].len() implies {
                &&& after.owners.contains_key(#[trigger] after.collections[a][i])
                &&& after.owners[after.collections[a][i]].address == a
                &&& after.owners[after.collections[a][i]].token_idx as int == i
            } by {
            if a == owner {
                if i < c.len() {
                    assert(self.is_live(c[i]));
                    assert(after.collections[a][i] == c[i]);
                }
            } else {
                assert(self.owners.contains_key(self.collections[a][i]));
            }
        }
    }

    /// Removing a live identity takes exactly that identity out of the set
    /// of live ones.
    pub proof fn lemma_remove_dom(self, id: u128)
        requires
            self.inv(),
            self.is_live(id),
        ensures
            self.remove(id).owners.dom() == self.owners.dom().remove(id),
    {
        let c = self.collections[self.owners[id].address];
        assert(self.owners.contains_key(c[c.len() - 1]));
        assert(self.remove(id).owners.dom() =~= self.owners.dom().remove(id));
    }

    /// The live identities, together with any set of other identities
    /// between 1 and `MAX_SUPPLY`, number at most `MAX_SUPPLY`.
    pub proof fn lemma_dom_bound(self, others: Set<u128>)
        requires
            self.inv(),
            others.finite(),
            forall|id: u128| others.contains(id) ==> 1 <= id <= MAX_SUPPLY && !self.is_live(id),
        ensures
            self.owners.dom().len() + others.len() <= MAX_SUPPLY,
    {
        let live = self.owners.dom();
        assert(live.disjoint(others));
        lemma_set_disjoint_lens(live, others);
        assert forall|id: u128| (live + others).contains(id) implies 1 <= id <= MAX_SUPPLY by {
            if live.contains(id) {
                assert(self.owners.contains_key(id));
            }
        }
        lemma_bounded_set_len(live + others, MAX_SUPPLY);
    }

    /// Removing a live identity keeps the index consistent.
    pub proof fn lemma_remove_inv(self, id: u128)
        requires
            self.inv(),
            self.is_live(id),
        ensures
            self.remove(id).inv(),
            !self.remove(id).is_live(id),
    {
        let info = self.owners[id];
        let owner = info.address;
        let c = self.collections[owner];
        let pos = info.token_idx as int;
        let last = c.last();
        let after = self.remove(id);
        let c2 = c.update(pos, last).drop_last();
        self.lemma_collection_distinct(owner);
        assert(c == self.tokens_of(owner));
        assert(self.is_live(last)) by {
            assert(self.owners.contains_key(c[c.len() - 1]));
        }
        assert(self.owners[last].token_idx as int == c.len() - 1) by {
            assert(self.owners.contains_key(c[c.len() - 1]));
        }
        assert forall|t: u128| #[trigger] after.owners.contains_key(t) implies {
            &&& 1 <= t <= MAX_SUPPLY
            &&& after.collections.contains_key(after.owners[t].address)
            &&& (after.owners[t].token_idx as int) < after.collections[after.owners[t].address].len()
            &&& after.collections[after.owners[t].address][after.owners[t].token_idx as int] == t
        } by {
            assert(self.owners.contains_key(t));
            if t != last && self.owners[t].address == owner {
                let p = self.owners[t].token_idx as int;
                assert(c[p] == t);
                assert(p != c.len() - 1);
                assert(p != pos);
            }
        }
        assert forall|a: Address, i: int|
            after.collections.contains_key(a) && 0 <= i < after.collections[a].len() implies {
                &&& after.owners.contains_key(#[trigger] after.collections[a][i])
                &&& after.owners[after.collections[a][i]].address == a
                &&& after.owners[after.collections[a][i]].token_idx as int == i
            } by {
            if a == owner {
                if i == pos {
                    assert(c2[i] == last);
                } else {
                    assert(c2[i] == c[i]);
                    assert(self.owners.contains_key(c[i]));
                }
            } else {
                assert(self.owners.contains_key(self.collections[a][i]));
            }
        }
    }
}

} // verus!
