//! What holds of the registry over whole histories of calls, proved from
//! the model the operations are specified by.

use vstd::prelude::*;
use crate::address::Address;
use crate::index_model::IndexState;
use crate::registry_model::{Op, RegistryState};
use crate::types::{NftError, NftEvent, MAX_SUPPLY};

verus! {

/// Whatever calls are made on a consistent registry, in whatever order, the
/// registry stays consistent.
pub proof fn lemma_run_inv(s: RegistryState, ops: Seq<Op>)
    requires
        s.inv(),
    ensures
        s.run(ops).inv(),
    decreases ops.len(),
{
    if ops.len() > 0 {
        lemma_run_inv(s, ops.drop_last());
        s.run(ops.drop_last()).lemma_step_inv(ops.last());
    }
}

/// In a consistent index every live identity sits in its owner's
/// collection at the recorded position, and in no other slot of any
/// collection.
pub proof fn lemma_live_token_in_exactly_one_slot(s: IndexState, id: u128)
    requires
        s.inv(),
        s.is_live(id),
    ensures
        s.collections.contains_key(s.owners[id].address),
        0 <= s.owners[id].token_idx < s.collections[s.owners[id].address].len(),
        s.collections[s.owners[id].address][s.owners[id].token_idx as int] == id,
        forall|a: Address, i: int|
            s.collections.contains_key(a) && 0 <= i < s.collections[a].len()
                && #[trigger] s.collections[a][i] == id ==> a == s.owners[id].address && i
                == s.owners[id].token_idx,
{
}

/// After any sequence of calls on a fresh registry, every live identity
/// appears in exactly one owner's collection, at the position the reverse
/// index records for it.
pub proof fn lemma_reachable_index_consistent(ops: Seq<Op>, id: u128)
    requires
        RegistryState::empty().run(ops).index.is_live(id),
    ensures
        ({
            let s = RegistryState::empty().run(ops).index;
            &&& s.inv()
            &&& s.collections.contains_key(s.owners[id].address)
            &&& s.collections[s.owners[id].address][s.owners[id].token_idx as int] == id
            &&& forall|a: Address, i: int|
                s.collections.contains_key(a) && 0 <= i < s.collections[a].len()
                    && #[trigger] s.collections[a][i] == id ==> a == s.owners[id].address && i
                    == s.owners[id].token_idx
        }),
{
    assert(RegistryState::empty().inv());
    lemma_run_inv(RegistryState::empty(), ops);
    lemma_live_token_in_exactly_one_slot(RegistryState::empty().run(ops).index, id);
}

/// Adding a token lengthens its new owner's collection by exactly that
/// token at the end, makes exactly one new entry in the reverse index, and
/// disturbs no other collection and no other entry.
pub proof fn lemma_add_disturbs_nothing(s: IndexState, owner: Address, id: u128)
    requires
        s.inv(),
        !s.is_live(id),
        1 <= id <= MAX_SUPPLY,
    ensures
        s.add(owner, id).tokens_of(owner) == s.tokens_of(owner).push(id),
        s.add(owner, id).owners.dom() == s.owners.dom().insert(id),
        s.add(owner, id).owners[id].address == owner,
        s.add(owner, id).owners[id].token_idx == s.tokens_of(owner).len(),
        forall|t: u128| s.is_live(t) ==> #[trigger] s.add(owner, id).owners[t] == s.owners[t],
        forall|a: Address|
            a != owner ==> s.add(owner, id).collections.contains_key(a) == s.collections.contains_key(
                a,
            ) && #[trigger] s.add(owner, id).tokens_of(a) == s.tokens_of(a),
{
    s.lemma_add_inv(owner, id);
}

/// A refused call leaves the registry exactly as it was.
pub proof fn lemma_refused_call_changes_nothing(s: RegistryState, op: Op)
    requires
        s.outcome(op) is Err,
    ensures
        s.step(op) == s,
{
}

/// Removing a token leaves every other address's collection as it was, takes
/// exactly that token out of its owner's set of tokens, and changes the
/// recorded position of at most one other token: the one that was last in
/// the owner's collection, which then sits exactly in the freed slot.
pub proof fn lemma_remove_disturbs_at_most_one(s: IndexState, id: u128)
    requires
        s.inv(),
        s.is_live(id),
    ensures
        ({
            let owner = s.owners[id].address;
            let last = s.collections[owner].last();
            let after = s.remove(id);
            &&& forall|a: Address|
                a != owner ==> after.collections.contains_key(a) == s.collections.contains_key(a)
                    && #[trigger] after.tokens_of(a) == s.tokens_of(a)
            &&& after.tokens_of(owner).to_set() == s.tokens_of(owner).to_set().remove(id)
            &&& after.tokens_of(owner).len() == s.tokens_of(owner).len() - 1
            &&& forall|t: u128|
                s.is_live(t) && t != id ==> #[trigger] after.is_live(t) && after.owners[t].address
                    == s.owners[t].address
            &&& forall|t: u128|
                s.is_live(t) && t != id && t != last ==> #[trigger] after.owners[t] == s.owners[t]
            &&& last != id ==> after.owners[last] == s.owners[id]
        }),
{
    let owner = s.owners[id].address;
    let c = s.collections[owner];
    let pos = s.owners[id].token_idx as int;
    let last = c.last();
    let after = s.remove(id);
    let c2 = after.tokens_of(owner);
    s.lemma_collection_distinct(owner);
    assert(s.owners.contains_key(c[c.len() - 1]));
    assert forall|a: Address| a != owner implies after.collections.contains_key(a)
        == s.collections.contains_key(a) && #[trigger] after.tokens_of(a) == s.tokens_of(a) by {}
    assert forall|t: u128| c2.to_set().contains(t) == c.to_set().remove(id).contains(t) by {
        if c2.to_set().contains(t) {
            let i = choose|i: int| 0 <= i < c2.len() && c2[i] == t;
            if i == pos {
                assert(c[c.len() - 1] == t);
            } else {
                assert(c[i] == t);
            }
        }
        if c.to_set().remove(id).contains(t) {
            let i = choose|i: int| 0 <= i < c.len() && c[i] == t;
            if i == c.len() - 1 {
                assert(c2[pos] == t);
            } else {
                assert(c2[i] == t);
            }
        }
    }
    assert(c2.to_set() =~= c.to_set().remove(id));
}

/// Adding an identity to a collection and removing it again restores the
/// length of that collection and leaves the identity without an entry in
/// the reverse index, whatever the index and the identity.
pub proof fn lemma_add_then_remove(s: IndexState, owner: Address, id: u128)
    ensures
        s.add(owner, id).remove(id).tokens_of(owner).len() == s.tokens_of(owner).len(),
        !s.add(owner, id).remove(id).is_live(id),
{
    let added = s.add(owner, id);
    assert(added.collections[owner] == s.tokens_of(owner).push(id));
}

/// Adding an unused identity to a collection of a consistent index and
/// removing it again gives the index back: the reverse index is what it
/// was, the owner's collection holds the sequence it held (the empty one
/// where the address had no collection), and every other collection is
/// untouched. The index stays consistent.
pub proof fn lemma_add_then_remove_restores_index(s: IndexState, owner: Address, id: u128)
    requires
        s.inv(),
        !s.is_live(id),
    ensures
        ({
            let back = s.add(owner, id).remove(id);
            &&& back.owners == s.owners
            &&& !back.is_live(id)
            &&& forall|t: u128| t != id ==> back.is_live(t) == s.is_live(t) && #[trigger] back.owners[t]
                == s.owners[t]
            &&& back.collections == s.collections.insert(owner, s.tokens_of(owner))
            &&& back.collections[owner] == s.tokens_of(owner)
            &&& forall|a: Address| #[trigger] back.tokens_of(a) == s.tokens_of(a)
            &&& forall|a: Address|
                a != owner ==> #[trigger] back.collections.contains_key(a) == s.collections.contains_key(
                    a,
                )
            &&& back.inv()
        }),
{
    s.lemma_collection_distinct(owner);
    let added = s.add(owner, id);
    let back = added.remove(id);
    let c = s.tokens_of(owner);
    assert(added.collections[owner] == c.push(id));
    assert(added.owners[id].token_idx as int == c.len());
    assert(back.owners =~= s.owners);
    assert(back.collections[owner] =~= c);
    assert(back.collections =~= s.collections.insert(owner, c));
    assert forall|a: Address| #[trigger] back.tokens_of(a) == s.tokens_of(a) by {}
    assert forall|a: Address, i: int|
        back.collections.contains_key(a) && 0 <= i < back.collections[a].len() implies {
            &&& back.owners.contains_key(#[trigger] back.collections[a][i])
            &&& back.owners[back.collections[a][i]].address == a
            &&& back.owners[back.collections[a][i]].token_idx as int == i
        } by {
        assert(s.is_live(s.tokens_of(a)[i]));
        if a != owner {
            assert(s.owners.contains_key(s.collections[a][i]));
        } else if s.collections.contains_key(a) {
            assert(s.owners.contains_key(s.collections[a][i]));
        }
    }
}

/// On a consistent registry, giving an unused identity to an owner and
/// taking it out again restores the owner's balance and collection, leaves
/// the identity without an entry in the reverse index, and changes nothing
/// else: not another collection, not another token's entry, no approval,
/// no grant, not the burned identities, the cursor or the count of mints.
pub proof fn lemma_added_then_removed(s: RegistryState, owner: Address, id: u128)
    requires
        s.inv(),
        !s.index.is_live(id),
    ensures
        ({
            let back = s.added(owner, id).removed(id);
            &&& back.index.tokens_of(owner).len() == s.index.tokens_of(owner).len()
            &&& !back.index.is_live(id)
            &&& back == RegistryState {
                index: IndexState {
                    owners: s.index.owners,
                    collections: s.index.collections.insert(owner, s.index.tokens_of(owner)),
                },
                ..s
            }
            &&& forall|a: Address| #[trigger] back.index.tokens_of(a) == s.index.tokens_of(a)
            &&& back.inv()
        }),
{
    lemma_add_then_remove_restores_index(s.index, owner, id);
    let back = s.added(owner, id).removed(id);
    assert(back.approvals =~= s.approvals) by {
        if s.approvals.contains_key(id) {
            assert(s.index.is_live(id));
        }
    }
    assert(back.index =~= IndexState {
        owners: s.index.owners,
        collections: s.index.collections.insert(owner, s.index.tokens_of(owner)),
    });
}

/// Operator approvals belong to the address that gave them: no mint, burn,
/// approval or transfer changes any of them.
pub proof fn lemma_only_grants_change_operators(s: RegistryState, op: Op)
    requires
        !(op is SetApprovalForAll),
    ensures
        s.step(op).operators == s.operators,
{
}

/// No call takes an identity out of the burned set, and none makes a
/// burned identity live.
pub proof fn lemma_step_keeps_burned(s: RegistryState, op: Op, id: u128)
    requires
        s.inv(),
        s.burned.contains(id),
    ensures
        s.step(op).burned.contains(id),
{
}

/// An identity, once burned, stays burned through every later call: it is
/// never the result of `allocate_next`, `allocate_specific` refuses it with
/// `AlreadyBurned`, and it is never live again.
pub proof fn lemma_burned_never_allocated(s: RegistryState, ops: Seq<Op>, id: u128)
    requires
        s.inv(),
        s.burned.contains(id),
    ensures
        s.run(ops).burned.contains(id),
        !s.run(ops).index.is_live(id),
        s.run(ops).allocate_next() != Ok::<u128, NftError>(id),
        s.run(ops).allocate_specific(id) == Err::<u128, NftError>(NftError::AlreadyBurned),
    decreases ops.len(),
{
    lemma_run_inv(s, ops);
    if ops.len() > 0 {
        lemma_burned_never_allocated(s, ops.drop_last(), id);
        lemma_run_inv(s, ops.drop_last());
        lemma_step_keeps_burned(s.run(ops.drop_last()), ops.last(), id);
    }
}

/// Live and burned identities together never number more than
/// `MAX_SUPPLY`, and `minted_total` is their number.
pub proof fn lemma_supply_bound(s: RegistryState)
    requires
        s.inv(),
    ensures
        s.minted_total == s.index.owners.dom().len() + s.burned.len(),
        s.minted_total <= MAX_SUPPLY,
{
    s.index.lemma_dom_bound(s.burned);
}

/// After any sequence of calls on a fresh registry, every identity that is
/// live or burned lies between 1 and `MAX_SUPPLY`, at most `MAX_SUPPLY`
/// identities were ever minted, and a mint of the identity 0 is refused
/// with `SupplyExceeded`.
pub proof fn lemma_identities_stay_in_range(ops: Seq<Op>, to: Address, id: u128)
    ensures
        ({
            let s = RegistryState::empty().run(ops);
            &&& s.index.is_live(id) || s.burned.contains(id) ==> 1 <= id <= MAX_SUPPLY
            &&& !s.index.is_live(0)
            &&& !s.burned.contains(0)
            &&& s.minted_total <= MAX_SUPPLY
            &&& s.mint_id_to_outcome(to, 0) == Err::<NftEvent, NftError>(NftError::SupplyExceeded)
            &&& s.mint_id_to(to, 0) == s
        }),
{
    let s = RegistryState::empty().run(ops);
    assert(RegistryState::empty().inv());
    lemma_run_inv(RegistryState::empty(), ops);
    lemma_supply_bound(s);
    if s.index.is_live(id) {
        assert(s.index.owners.contains_key(id));
    }
    if s.index.is_live(0) {
        assert(s.index.owners.contains_key(0));
    }
}

/// How many of the calls `ops`, made in order on `s`, were mints without an
/// explicit identity that succeeded.
pub open spec fn granted_mints(s: RegistryState, ops: Seq<Op>) -> nat
    decreases ops.len(),
{
    if ops.len() == 0 {
        0
    } else {
        let earlier = granted_mints(s, ops.drop_last());
        if ops.last() is MintTo && s.run(ops.drop_last()).outcome(ops.last()) is Ok {
            earlier + 1
        } else {
            earlier
        }
    }
}

/// Every successful mint without an explicit identity moves the cursor up,
/// and no call moves it down or above `MAX_SUPPLY`.
pub proof fn lemma_cursor_counts_mints(s: RegistryState, ops: Seq<Op>)
    requires
        s.inv(),
    ensures
        s.cursor + granted_mints(s, ops) <= s.run(ops).cursor <= MAX_SUPPLY,
    decreases ops.len(),
{
    lemma_run_inv(s, ops);
    if ops.len() > 0 {
        lemma_cursor_counts_mints(s, ops.drop_last());
        lemma_run_inv(s, ops.drop_last());
        let before = s.run(ops.drop_last());
        if let Op::MintTo { to } = ops.last() {
            if let Ok(id) = before.allocate_next() {
                assert(before.is_next_free(id));
            }
        }
    }
}

/// On a fresh registry at most `MAX_SUPPLY` mints without an explicit
/// identity succeed, whatever other calls and however many burns come in
/// between; once that many have succeeded, the next one is refused with
/// `SupplyExhausted`.
pub proof fn lemma_mint_refused_after_max_supply(ops: Seq<Op>, to: Address)
    ensures
        granted_mints(RegistryState::empty(), ops) <= MAX_SUPPLY,
        granted_mints(RegistryState::empty(), ops) == MAX_SUPPLY ==> RegistryState::empty().run(
            ops,
        ).mint_to_outcome(to) == Err::<NftEvent, NftError>(NftError::SupplyExhausted),
{
    let s = RegistryState::empty();
    assert(s.inv());
    lemma_cursor_counts_mints(s, ops);
    let last = s.run(ops);
    if granted_mints(s, ops) == MAX_SUPPLY {
        assert(last.cursor == MAX_SUPPLY);
        assert forall|c: u128| !last.is_next_free(c) by {}
    }
}

/// Whether none of the calls mints an explicit identity.
pub open spec fn mints_by_cursor_only(ops: Seq<Op>) -> bool {
    forall|i: int| 0 <= i < ops.len() ==> !(#[trigger] ops[i] is MintIdTo)
}

/// Whether every live and every burned identity lies between 1 and the
/// cursor.
pub open spec fn allocated_up_to_cursor(s: RegistryState) -> bool {
    &&& forall|id: u128| #[trigger] s.index.is_live(id) ==> 1 <= id <= s.cursor
    &&& forall|id: u128| #[trigger] s.burned.contains(id) ==> 1 <= id <= s.cursor
}

/// While every allocated identity lies at or below the cursor, the next
/// mint gets the identity right above the cursor, until the cursor has
/// reached `MAX_SUPPLY`; from then on it is refused with `SupplyExhausted`.
pub proof fn lemma_mint_takes_next_identity(s: RegistryState, to: Address)
    requires
        s.inv(),
        allocated_up_to_cursor(s),
    ensures
        s.cursor < MAX_SUPPLY ==> s.mint_to_outcome(to) == Ok::<NftEvent, NftError>(
            NftEvent::NftTokenMinted { id: (s.cursor + 1) as u128, owner: to },
        ),
        s.cursor == MAX_SUPPLY ==> s.mint_to_outcome(to) == Err::<NftEvent, NftError>(
            NftError::SupplyExhausted,
        ),
{
    if s.cursor < MAX_SUPPLY {
        let id: u128 = (s.cursor + 1) as u128;
        assert(s.is_next_free(id));
        s.lemma_next_free_unique(id);
    } else {
        assert forall|c: u128| !s.is_next_free(c) by {}
    }
}

/// A call other than a mint of an explicit identity keeps every allocated
/// identity at or below the cursor.
pub proof fn lemma_step_keeps_allocated_up_to_cursor(s: RegistryState, op: Op)
    requires
        s.inv(),
        allocated_up_to_cursor(s),
        !(op is MintIdTo),
    ensures
        allocated_up_to_cursor(s.step(op)),
{
    let after = s.step(op);
    match op {
        Op::MintTo { to } => {
            lemma_mint_takes_next_identity(s, to);
            if s.cursor < MAX_SUPPLY {
                let id: u128 = (s.cursor + 1) as u128;
                assert forall|t: u128| #[trigger] after.index.is_live(t) implies 1 <= t <= after.cursor by {
                    if t != id {
                        assert(s.index.is_live(t));
                    }
                }
            }
        },
        Op::MintIdTo { to, id } => {},
        Op::Burn { caller, contract_owner, id } => {
            if s.burn_outcome(caller, contract_owner, id) is Ok {
                s.index.lemma_remove_dom(id);
                assert forall|t: u128| #[trigger] after.index.is_live(t) implies 1 <= t <= after.cursor by {
                    assert(s.index.owners.dom().remove(id).contains(t));
                    assert(s.index.is_live(t));
                }
                assert forall|t: u128| #[trigger] after.burned.contains(t) implies 1 <= t <= after.cursor by {
                    if t == id {
                        assert(s.index.is_live(t));
                    }
                }
            }
        },
        Op::Approve { caller, spender, id } => {},
        Op::SetApprovalForAll { caller, operator, approved } => {},
        Op::TransferFrom { caller, from, to, id } => {
            if s.transfer_from_outcome(caller, from, to, id) is Ok {
                s.index.lemma_remove_dom(id);
                assert forall|t: u128| #[trigger] after.index.is_live(t) implies 1 <= t <= after.cursor by {
                    if t != id {
                        assert(s.index.owners.dom().remove(id).contains(t));
                    }
                    assert(s.index.is_live(t));
                }
            }
        },
    }
}

/// On a fresh registry on which no explicit identity is ever minted, the
/// mints hand out 1, 2, 3 and so on, one after the other, whatever burns,
/// transfers and approvals come in between: every mint succeeds until
/// `MAX_SUPPLY` have, the one after those is refused with `SupplyExhausted`,
/// and live and burned identities together never number more than
/// `MAX_SUPPLY`.
pub proof fn lemma_mints_until_max_supply(ops: Seq<Op>, to: Address)
    requires
        mints_by_cursor_only(ops),
    ensures
        ({
            let s = RegistryState::empty().run(ops);
            &&& s.inv()
            &&& allocated_up_to_cursor(s)
            &&& s.cursor == granted_mints(RegistryState::empty(), ops)
            &&& s.minted_total <= MAX_SUPPLY
            &&& s.cursor < MAX_SUPPLY ==> s.mint_to_outcome(to) == Ok::<NftEvent, NftError>(
                NftEvent::NftTokenMinted { id: (s.cursor + 1) as u128, owner: to },
            )
            &&& s.cursor == MAX_SUPPLY ==> s.mint_to_outcome(to) == Err::<NftEvent, NftError>(
                NftError::SupplyExhausted,
            )
        }),
    decreases ops.len(),
{
    let fresh = RegistryState::empty();
    assert(fresh.inv());
    lemma_run_inv(fresh, ops);
    if ops.len() > 0 {
        let earlier = ops.drop_last();
        assert(mints_by_cursor_only(earlier)) by {
            assert forall|i: int| 0 <= i < earlier.len() implies !(#[trigger] earlier[i] is MintIdTo) by {
                assert(earlier[i] == ops[i]);
            }
        }
        lemma_mints_until_max_supply(earlier, to);
        let before = fresh.run(earlier);
        assert(!(ops.last() is MintIdTo)) by {
            assert(ops.last() == ops[ops.len() - 1]);
        }
        lemma_step_keeps_allocated_up_to_cursor(before, ops.last());
        if let Op::MintTo { to: receiver } = ops.last() {
            lemma_mint_takes_next_identity(before, receiver);
        }
    }
    let s = fresh.run(ops);
    lemma_mint_takes_next_identity(s, to);
    lemma_supply_bound(s);
}

} // verus!
