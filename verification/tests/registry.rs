use nft_registry::{Address, NFTMetadata, NftContract, NftError, NftEvent, OwnerInfo, MAX_SUPPLY};

fn addr(n: u128) -> Address {
    Address::new(0, n)
}

const ADMIN: u128 = 1000;

fn metadata() -> NFTMetadata {
    NFTMetadata {
        name: "Collection".to_string(),
        decimals: 0,
        symbol: "COL".to_string(),
        icon: None,
        uri: "https://example.org/".to_string(),
    }
}

fn fresh() -> NftContract {
    match NftContract::new(metadata(), addr(ADMIN), addr(ADMIN), false) {
        Ok(contract) => contract,
        Err(e) => panic!("no registry: {:?}", e),
    }
}

fn minted_id(outcome: Result<NftEvent, NftError>) -> u128 {
    match outcome {
        Ok(NftEvent::NftTokenMinted { id, .. }) => id,
        other => panic!("not minted: {:?}", other),
    }
}

#[test]
fn new_registry_is_empty() {
    let contract = fresh();
    assert_eq!(contract.minted_total(), 0);
    assert_eq!(contract.balance_of(addr(1)), 0);
    assert_eq!(contract.owner_of(1), Err(NftError::UnknownToken));
    assert_eq!(contract.metadata(), &metadata());
}

#[test]
fn new_refuses_other_callers() {
    assert!(matches!(
        NftContract::new(metadata(), addr(1), addr(ADMIN), false),
        Err(NftError::NotAuthorized)
    ));
    // the caller is checked before the state
    assert!(matches!(
        NftContract::new(metadata(), addr(1), addr(ADMIN), true),
        Err(NftError::NotAuthorized)
    ));
}

#[test]
fn new_refuses_second_initialization() {
    assert!(matches!(
        NftContract::new(metadata(), addr(ADMIN), addr(ADMIN), true),
        Err(NftError::AlreadyInitialized)
    ));
}

#[test]
fn load_without_state_is_not_initialized() {
    assert!(matches!(NftContract::load(None), Err(NftError::NotInitialized)));
    let loaded = NftContract::load(Some(fresh()));
    assert!(loaded.is_ok());
}

#[test]
fn mint_hands_out_consecutive_ids() {
    let mut contract = fresh();
    assert_eq!(
        contract.mint_to(addr(1)),
        Ok(NftEvent::NftTokenMinted { id: 1, owner: addr(1) })
    );
    assert_eq!(minted_id(contract.mint_to(addr(2))), 2);
    assert_eq!(minted_id(contract.mint_to(addr(1))), 3);
    assert_eq!(contract.minted_total(), 3);
    assert_eq!(contract.owned_tokens(addr(1)), Ok(vec![1, 3]));
    assert_eq!(contract.owned_tokens(addr(2)), Ok(vec![2]));
    assert_eq!(contract.balance_of(addr(1)), 2);
    assert_eq!(contract.owner_of(2), Ok(addr(2)));
}

#[test]
fn mint_skips_ids_minted_explicitly() {
    let mut contract = fresh();
    assert_eq!(minted_id(contract.mint_id_to(addr(1), 1)), 1);
    assert_eq!(minted_id(contract.mint_id_to(addr(1), 2)), 2);
    assert_eq!(contract.allocate_next(), Ok(3));
    assert_eq!(minted_id(contract.mint_to(addr(2))), 3);
    assert_eq!(contract.minted_total(), 3);
}

#[test]
fn mint_with_id_checks_in_order() {
    let mut contract = fresh();
    assert_eq!(minted_id(contract.mint_id_to(addr(1), 7)), 7);
    assert_eq!(contract.mint_id_to(addr(2), 7), Err(NftError::AlreadyMinted));
    assert_eq!(contract.mint_id_to(addr(2), MAX_SUPPLY + 1), Err(NftError::SupplyExceeded));
    assert_eq!(contract.allocate_specific(MAX_SUPPLY + 1), Err(NftError::SupplyExceeded));
    assert!(contract.burn(addr(ADMIN), addr(ADMIN), 7).is_ok());
    assert_eq!(contract.mint_id_to(addr(2), 7), Err(NftError::AlreadyBurned));
    assert_eq!(contract.allocate_specific(7), Err(NftError::AlreadyBurned));
    // nothing but the one mint was counted
    assert_eq!(contract.minted_total(), 1);
    assert_eq!(contract.owner_of(7), Err(NftError::UnknownToken));
}

#[test]
fn mint_with_id_accepts_the_bounds() {
    let mut contract = fresh();
    assert_eq!(minted_id(contract.mint_id_to(addr(1), MAX_SUPPLY)), MAX_SUPPLY);
    assert_eq!(minted_id(contract.mint_id_to(addr(1), 1)), 1);
    assert_eq!(contract.owned_tokens(addr(1)), Ok(vec![MAX_SUPPLY, 1]));
    // the cursor does not follow explicit identities, and passes the live 1
    assert_eq!(minted_id(contract.mint_to(addr(1))), 2);
}

#[test]
fn identity_zero_is_refused() {
    let mut contract = fresh();
    assert_eq!(contract.allocate_specific(0), Err(NftError::SupplyExceeded));
    assert_eq!(contract.mint_id_to(addr(1), 0), Err(NftError::SupplyExceeded));
    assert_eq!(contract.minted_total(), 0);
    assert_eq!(contract.owner_of(0), Err(NftError::UnknownToken));
    assert_eq!(contract.owner_info(0), None);
    assert_eq!(contract.balance_of(addr(1)), 0);
    assert_eq!(contract.owned_tokens(addr(1)), Err(NftError::UnknownToken));
    assert_eq!(contract.burn(addr(ADMIN), addr(ADMIN), 0), Err(NftError::UnknownToken));
    // the first plain mint still gets 1
    assert_eq!(contract.next_free(), Some(1));
    assert_eq!(minted_id(contract.mint_to(addr(1))), 1);
    assert_eq!(contract.mint_id_to(addr(1), 0), Err(NftError::SupplyExceeded));
    assert_eq!(contract.minted_total(), 1);
}

#[test]
fn next_free_skips_live_identities_only() {
    let mut contract = fresh();
    assert_eq!(contract.next_free(), Some(1));
    assert_eq!(minted_id(contract.mint_id_to(addr(1), 1)), 1);
    assert_eq!(minted_id(contract.mint_id_to(addr(1), 2)), 2);
    assert_eq!(minted_id(contract.mint_id_to(addr(1), 3)), 3);
    assert_eq!(contract.next_free(), Some(4));
    assert!(contract.burn(addr(ADMIN), addr(ADMIN), 2).is_ok());
    // a burned identity is free in the index, and refused by the allocation
    assert_eq!(contract.next_free(), Some(2));
    assert_eq!(contract.allocate_next(), Err(NftError::AlreadyBurned));
    assert!(contract.burn(addr(ADMIN), addr(ADMIN), 1).is_ok());
    assert_eq!(contract.next_free(), Some(1));
}

#[test]
fn burn_swaps_last_into_freed_slot() {
    let mut contract = fresh();
    let a = addr(1);
    for expected in 1u128..=3 {
        assert_eq!(minted_id(contract.mint_to(a)), expected);
    }
    assert_eq!(contract.owned_tokens(a), Ok(vec![1, 2, 3]));
    assert_eq!(contract.owner_info(1), Some(OwnerInfo::new(a, 0)));
    assert_eq!(contract.owner_info(2), Some(OwnerInfo::new(a, 1)));
    assert_eq!(contract.owner_info(3), Some(OwnerInfo::new(a, 2)));
    assert_eq!(
        contract.burn(addr(ADMIN), addr(ADMIN), 2),
        Ok(NftEvent::NftTokenBurned { id: 2, owner: a, balance: 2 })
    );
    assert_eq!(contract.owned_tokens(a), Ok(vec![1, 3]));
    assert_eq!(contract.owner_info(1), Some(OwnerInfo::new(a, 0)));
    assert_eq!(contract.owner_info(3), Some(OwnerInfo::new(a, 1)));
    assert_eq!(contract.owner_info(2), None);
    assert_eq!(contract.balance_of(a), 2);
    assert_eq!(contract.minted_total(), 3);
}

#[test]
fn burn_is_for_the_contract_owner_only() {
    let mut contract = fresh();
    assert_eq!(minted_id(contract.mint_to(addr(1))), 1);
    // not even the token's owner may burn
    assert_eq!(contract.burn(addr(1), addr(ADMIN), 1), Err(NftError::NotAuthorized));
    // the caller is checked before the token
    assert_eq!(contract.burn(addr(1), addr(ADMIN), 99), Err(NftError::NotAuthorized));
    assert_eq!(contract.burn(addr(ADMIN), addr(ADMIN), 99), Err(NftError::UnknownToken));
    assert_eq!(contract.owner_of(1), Ok(addr(1)));
    assert_eq!(contract.balance_of(addr(1)), 1);
}

#[test]
fn burned_id_is_never_minted_again() {
    let mut contract = fresh();
    assert_eq!(minted_id(contract.mint_id_to(addr(1), 3)), 3);
    assert!(contract.burn(addr(ADMIN), addr(ADMIN), 3).is_ok());
    assert_eq!(minted_id(contract.mint_to(addr(1))), 1);
    assert_eq!(minted_id(contract.mint_to(addr(1))), 2);
    // the next free identity is the burned one: the mint is refused and nothing changes
    assert_eq!(contract.allocate_next(), Err(NftError::AlreadyBurned));
    assert_eq!(contract.mint_to(addr(1)), Err(NftError::AlreadyBurned));
    assert_eq!(contract.mint_to(addr(2)), Err(NftError::AlreadyBurned));
    assert_eq!(contract.mint_id_to(addr(1), 3), Err(NftError::AlreadyBurned));
    assert_eq!(contract.minted_total(), 3);
    assert_eq!(contract.owned_tokens(addr(1)), Ok(vec![1, 2]));
    assert_eq!(contract.owner_of(3), Err(NftError::UnknownToken));
}

#[test]
fn approved_spender_transfers() {
    let mut contract = fresh();
    let (a, b, c) = (addr(1), addr(2), addr(3));
    assert_eq!(minted_id(contract.mint_to(a)), 1);
    assert_eq!(
        contract.approve(a, b, 1),
        Ok(NftEvent::NftTokenApproved { id: 1, owner: a, spender: b })
    );
    assert!(contract.is_authorized(b, 1));
    assert_eq!(
        contract.transfer_from(b, a, c, 1),
        Ok(NftEvent::NftTokenTransfered { id: 1, from: a, to: c })
    );
    assert_eq!(contract.owner_of(1), Ok(c));
    assert_eq!(contract.owned_tokens(c), Ok(vec![1]));
    assert_eq!(contract.owned_tokens(a), Ok(vec![]));
    assert_eq!(contract.balance_of(a), 0);
    assert_eq!(contract.owner_info(1), Some(OwnerInfo::new(c, 0)));
}

#[test]
fn approval_does_not_outlive_a_transfer() {
    let mut contract = fresh();
    let (a, b, c) = (addr(1), addr(2), addr(3));
    assert_eq!(minted_id(contract.mint_to(a)), 1);
    assert!(contract.approve(a, b, 1).is_ok());
    assert!(contract.transfer_from(a, a, c, 1).is_ok());
    assert!(!contract.is_authorized(b, 1));
    assert_eq!(contract.transfer_from(b, c, a, 1), Err(NftError::NotAuthorized));
    assert_eq!(contract.owner_of(1), Ok(c));
}

#[test]
fn operator_transfers_without_token_approval() {
    let mut contract = fresh();
    let (a, x, d) = (addr(1), addr(7), addr(4));
    for _ in 0..5 {
        assert!(contract.mint_to(a).is_ok());
    }
    assert_eq!(
        contract.set_approval_for_all(a, x, true),
        NftEvent::NftTokenApprovedForAll { caller: a, operator: x, approved: true }
    );
    assert_eq!(
        contract.transfer_from(x, a, d, 5),
        Ok(NftEvent::NftTokenTransfered { id: 5, from: a, to: d })
    );
    assert_eq!(contract.owner_of(5), Ok(d));
    assert_eq!(contract.owned_tokens(a), Ok(vec![1, 2, 3, 4]));
    assert_eq!(contract.owned_tokens(d), Ok(vec![5]));
    // the grant covers only the tokens of the one who gave it
    assert_eq!(contract.transfer_from(x, d, a, 5), Err(NftError::NotAuthorized));
}

#[test]
fn operator_grant_can_be_taken_back() {
    let mut contract = fresh();
    let (a, x) = (addr(1), addr(7));
    assert!(contract.mint_to(a).is_ok());
    contract.set_approval_for_all(a, x, true);
    assert!(contract.is_authorized(x, 1));
    contract.set_approval_for_all(a, x, false);
    assert!(!contract.is_authorized(x, 1));
    assert_eq!(contract.transfer_from(x, a, x, 1), Err(NftError::NotAuthorized));
    assert_eq!(contract.owner_of(1), Ok(a));
}

#[test]
fn transfer_with_wrong_sender_changes_nothing() {
    let mut contract = fresh();
    let (a, b, c) = (addr(1), addr(2), addr(3));
    assert!(contract.mint_to(a).is_ok());
    assert!(contract.mint_to(b).is_ok());
    assert!(contract.approve(a, c, 1).is_ok());
    assert_eq!(contract.transfer_from(a, b, c, 1), Err(NftError::OwnerMismatch));
    // the sender is checked before the caller's rights
    assert_eq!(contract.transfer_from(c, b, c, 1), Err(NftError::OwnerMismatch));
    assert_eq!(contract.owner_of(1), Ok(a));
    assert_eq!(contract.owner_of(2), Ok(b));
    assert_eq!(contract.owned_tokens(a), Ok(vec![1]));
    assert_eq!(contract.owned_tokens(b), Ok(vec![2]));
    assert_eq!(contract.owned_tokens(c), Err(NftError::UnknownToken));
    assert_eq!(contract.balance_of(c), 0);
    assert_eq!(contract.minted_total(), 2);
    assert!(contract.is_authorized(c, 1));
    assert_eq!(contract.owner_info(1), Some(OwnerInfo::new(a, 0)));
}

#[test]
fn transfer_refusals() {
    let mut contract = fresh();
    let (a, b) = (addr(1), addr(2));
    assert!(contract.mint_to(a).is_ok());
    assert_eq!(contract.transfer_from(a, a, b, 9), Err(NftError::UnknownToken));
    assert_eq!(contract.transfer_from(b, a, b, 1), Err(NftError::NotAuthorized));
    assert!(!contract.is_authorized(b, 1));
    assert!(!contract.is_authorized(a, 9));
    assert_eq!(contract.owner_of(1), Ok(a));
}

#[test]
fn transfer_to_self_moves_token_to_the_end() {
    let mut contract = fresh();
    let a = addr(1);
    for _ in 0..3 {
        assert!(contract.mint_to(a).is_ok());
    }
    assert!(contract.transfer_from(a, a, a, 1).is_ok());
    assert_eq!(contract.owned_tokens(a), Ok(vec![3, 2, 1]));
    assert_eq!(contract.owner_info(1), Some(OwnerInfo::new(a, 2)));
    assert_eq!(contract.owner_info(3), Some(OwnerInfo::new(a, 0)));
}

#[test]
fn approve_refusals_and_overwrite() {
    let mut contract = fresh();
    let (a, b, c, x) = (addr(1), addr(2), addr(3), addr(7));
    assert!(contract.mint_to(a).is_ok());
    assert_eq!(contract.approve(a, b, 9), Err(NftError::UnknownToken));
    assert_eq!(contract.approve(b, b, 1), Err(NftError::NotAuthorized));
    assert!(contract.approve(a, b, 1).is_ok());
    // a spender may not pass its approval on
    assert_eq!(contract.approve(b, c, 1), Err(NftError::NotAuthorized));
    // a new approval replaces the old one
    assert!(contract.approve(a, c, 1).is_ok());
    assert!(!contract.is_authorized(b, 1));
    assert!(contract.is_authorized(c, 1));
    // an operator may approve
    contract.set_approval_for_all(a, x, true);
    assert_eq!(
        contract.approve(x, b, 1),
        Ok(NftEvent::NftTokenApproved { id: 1, owner: a, spender: b })
    );
    assert!(contract.is_authorized(b, 1));
}

#[test]
fn burn_deletes_the_approval() {
    let mut contract = fresh();
    let (a, b) = (addr(1), addr(2));
    assert!(contract.mint_to(a).is_ok());
    assert!(contract.approve(a, b, 1).is_ok());
    assert!(contract.burn(addr(ADMIN), addr(ADMIN), 1).is_ok());
    assert!(!contract.is_authorized(b, 1));
    assert!(!contract.is_authorized(a, 1));
    assert_eq!(contract.transfer_from(b, a, b, 1), Err(NftError::UnknownToken));
}

#[test]
fn owned_tokens_tells_no_collection_from_empty() {
    let mut contract = fresh();
    let (a, b) = (addr(1), addr(2));
    assert_eq!(contract.owned_tokens(a), Err(NftError::UnknownToken));
    assert!(contract.mint_to(a).is_ok());
    assert!(contract.transfer_from(a, a, b, 1).is_ok());
    assert_eq!(contract.owned_tokens(a), Ok(vec![]));
    assert_eq!(contract.balance_of(a), 0);
    assert_eq!(contract.owned_tokens(b), Ok(vec![1]));
}

#[test]
fn mint_is_exhausted_after_max_supply() {
    let mut contract = fresh();
    let a = addr(1);
    for expected in 1..=MAX_SUPPLY {
        assert_eq!(minted_id(contract.mint_to(a)), expected);
        if expected % 1000 == 0 {
            assert!(contract.burn(addr(ADMIN), addr(ADMIN), expected).is_ok());
        }
    }
    assert_eq!(contract.minted_total(), MAX_SUPPLY);
    assert_eq!(contract.balance_of(a), MAX_SUPPLY - 10);
    assert_eq!(contract.next_free(), None);
    assert_eq!(contract.allocate_next(), Err(NftError::SupplyExhausted));
    assert_eq!(contract.mint_to(a), Err(NftError::SupplyExhausted));
    assert_eq!(contract.mint_to(addr(2)), Err(NftError::SupplyExhausted));
    assert_eq!(contract.minted_total(), MAX_SUPPLY);
}

#[test]
fn indexes_agree_after_mixed_operations() {
    let mut contract = fresh();
    let owners = [addr(1), addr(2), addr(3)];
    for i in 0..60usize {
        assert!(contract.mint_to(owners[i % 3]).is_ok());
    }
    for id in [5u128, 17, 33, 60, 1] {
        assert!(contract.burn(addr(ADMIN), addr(ADMIN), id).is_ok());
    }
    for id in [2u128, 8, 20, 44] {
        let from = contract.owner_of(id).unwrap();
        let to = owners[(id as usize) % 3];
        assert!(contract.transfer_from(from, from, to, id).is_ok());
    }
    let mut live = 0u128;
    for owner in owners {
        let held = contract.owned_tokens(owner).unwrap();
        assert_eq!(held.len() as u128, contract.balance_of(owner));
        for (i, id) in held.iter().enumerate() {
            assert_eq!(contract.owner_info(*id), Some(OwnerInfo::new(owner, i as u32)));
            live += 1;
        }
    }
    assert_eq!(live, 55);
    assert_eq!(contract.minted_total(), 60);
}

/// A small generator of repeatable pseudo-random numbers.
struct Dice(u64);

impl Dice {
    fn roll(&mut self, sides: u64) -> u64 {
        self.0 = self.0.wrapping_mul(6364136223846793005).wrapping_add(1442695040888963407);
        (self.0 >> 33) % sides
    }
}

fn assert_indexes_agree(contract: &NftContract, owners: &[Address], ids: u128) {
    let mut live = 0u128;
    for owner in owners {
        let held = contract.owned_tokens(*owner).unwrap_or_default();
        assert_eq!(held.len() as u128, contract.balance_of(*owner));
        for (i, id) in held.iter().enumerate() {
            assert_eq!(contract.owner_info(*id), Some(OwnerInfo::new(*owner, i as u32)));
            assert_eq!(contract.owner_of(*id), Ok(*owner));
        }
        live += held.len() as u128;
    }
    let mut recorded = 0u128;
    for id in 0..=ids {
        if contract.owner_info(id).is_some() {
            recorded += 1;
        }
    }
    assert_eq!(live, recorded);
}

#[test]
fn indexes_agree_after_every_operation() {
    let mut contract = fresh();
    let owners = [addr(1), addr(2), addr(3), addr(4)];
    let mut dice = Dice(7);
    let mut minted = 0u128;
    let mut burned = 0u128;
    for _ in 0..600 {
        let id = 1 + dice.roll(80) as u128;
        let who = owners[dice.roll(4) as usize];
        match dice.roll(3) {
            0 => {
                if contract.mint_to(who).is_ok() {
                    minted += 1;
                }
            }
            1 => {
                if let Ok(from) = contract.owner_of(id) {
                    assert!(contract.transfer_from(from, from, who, id).is_ok());
                } else {
                    assert_eq!(
                        contract.transfer_from(who, who, who, id),
                        Err(NftError::UnknownToken)
                    );
                }
            }
            _ => {
                let was_live = contract.owner_of(id).is_ok();
                assert_eq!(contract.burn(addr(ADMIN), addr(ADMIN), id).is_ok(), was_live);
                if was_live {
                    burned += 1;
                    assert_eq!(contract.mint_id_to(who, id), Err(NftError::AlreadyBurned));
                }
            }
        }
        assert_indexes_agree(&contract, &owners, 700);
        assert_eq!(contract.minted_total(), minted);
        let live: u128 = owners.iter().map(|o| contract.balance_of(*o)).sum();
        assert_eq!(live + burned, minted);
    }
    assert!(minted > 100);
    assert!(burned > 10);
}

#[test]
fn no_more_than_max_supply_identities_are_ever_minted() {
    let mut contract = fresh();
    let a = addr(1);
    assert_eq!(contract.mint_id_to(a, 0), Err(NftError::SupplyExceeded));
    for expected in 1..=MAX_SUPPLY {
        assert_eq!(minted_id(contract.mint_to(a)), expected);
    }
    assert_eq!(contract.minted_total(), MAX_SUPPLY);
    assert_eq!(contract.balance_of(a), MAX_SUPPLY);
    assert_eq!(contract.next_free(), None);
    assert_eq!(contract.mint_to(a), Err(NftError::SupplyExhausted));
    assert_eq!(contract.mint_id_to(a, 0), Err(NftError::SupplyExceeded));
    assert_eq!(contract.mint_id_to(a, MAX_SUPPLY + 1), Err(NftError::SupplyExceeded));
    assert_eq!(contract.mint_id_to(a, MAX_SUPPLY), Err(NftError::AlreadyMinted));
    assert_eq!(contract.minted_total(), MAX_SUPPLY);
    assert_eq!(
        contract.owner_info(MAX_SUPPLY),
        Some(OwnerInfo::new(a, (MAX_SUPPLY - 1) as u32))
    );
}

#[test]
fn explicit_identity_below_the_cursor_can_still_be_minted() {
    let mut contract = fresh();
    let a = addr(1);
    assert_eq!(minted_id(contract.mint_id_to(a, 1)), 1);
    // the cursor passes the live identity 1
    assert_eq!(minted_id(contract.mint_to(a)), 2);
    assert!(contract.burn(addr(ADMIN), addr(ADMIN), 2).is_ok());
    // identities at or below the cursor are never looked at again by a plain mint
    assert_eq!(minted_id(contract.mint_to(a)), 3);
    assert_eq!(contract.mint_id_to(a, 2), Err(NftError::AlreadyBurned));
    assert_eq!(contract.owned_tokens(a), Ok(vec![1, 3]));
    assert_eq!(contract.minted_total(), 3);
}
