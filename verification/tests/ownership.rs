use nft_registry::{Address, NftError, OwnerInfo, OwnershipIndex};

fn addr(n: u128) -> Address {
    Address::new(0, n)
}

fn tokens(index: &OwnershipIndex, owner: Address) -> Vec<u128> {
    index.collection_of(owner).cloned().unwrap_or_default()
}

#[test]
fn address_key_is_both_words() {
    let a = Address::new(7, 9);
    assert_eq!(a.key(), (7, 9));
    assert_eq!(a, Address { high: 7, low: 9 });
    assert_ne!(Address::new(1, 0), Address::new(0, 1));
}

#[test]
fn address_bytes_are_lowest_first() {
    let a = Address::new(0x0403_0201, 0x100f_0e0d_0c0b_0a09_0807_0605_0403_0201);
    let bytes = a.to_bytes();
    assert_eq!(
        bytes,
        vec![1, 2, 3, 4, 5, 6, 7, 8, 9, 10, 11, 12, 13, 14, 15, 16, 1, 2, 3, 4]
    );
    assert_eq!(Address::from_bytes(&bytes), Some(a));
    assert_eq!(Address::new(0, 1).to_bytes()[0], 1);
    assert_eq!(Address::new(1, 0).to_bytes()[16], 1);
}

#[test]
fn address_from_bytes_wants_twenty() {
    assert_eq!(Address::from_bytes(&[0u8; 19]), None);
    assert_eq!(Address::from_bytes(&[0u8; 21]), None);
    assert_eq!(Address::from_bytes(&[]), None);
    assert_eq!(Address::from_bytes(&[0u8; 20]), Some(Address::new(0, 0)));
    assert_eq!(Address::from_bytes(&[0xff; 20]), Some(Address::new(u32::MAX, u128::MAX)));
    let mut bytes = [0u8; 20];
    bytes[19] = 0x80;
    assert_eq!(Address::from_bytes(&bytes), Some(Address::new(0x8000_0000, 0)));
    assert_eq!(Address::new(0x8000_0000, 0).to_bytes(), bytes.to_vec());
}

#[test]
fn owner_info_new_keeps_fields() {
    let info = OwnerInfo::new(addr(3), 4);
    assert_eq!(info.address, addr(3));
    assert_eq!(info.token_idx, 4);
}

#[test]
fn new_index_is_empty() {
    let index = OwnershipIndex::new();
    assert_eq!(index.info_of(1), None);
    assert!(index.collection_of(addr(1)).is_none());
}

#[test]
fn add_appends_and_records_position() {
    let mut index = OwnershipIndex::new();
    index.add_token(addr(1), 10);
    index.add_token(addr(1), 20);
    index.add_token(addr(2), 30);
    assert_eq!(tokens(&index, addr(1)), vec![10, 20]);
    assert_eq!(tokens(&index, addr(2)), vec![30]);
    assert_eq!(index.info_of(10), Some(OwnerInfo::new(addr(1), 0)));
    assert_eq!(index.info_of(20), Some(OwnerInfo::new(addr(1), 1)));
    assert_eq!(index.info_of(30), Some(OwnerInfo::new(addr(2), 0)));
}

#[test]
fn remove_tail_only_truncates() {
    let mut index = OwnershipIndex::new();
    index.add_token(addr(1), 1);
    index.add_token(addr(1), 2);
    index.add_token(addr(1), 3);
    assert_eq!(index.remove_token(3), Ok((addr(1), 2)));
    assert_eq!(tokens(&index, addr(1)), vec![1, 2]);
    assert_eq!(index.info_of(1), Some(OwnerInfo::new(addr(1), 0)));
    assert_eq!(index.info_of(2), Some(OwnerInfo::new(addr(1), 1)));
    assert_eq!(index.info_of(3), None);
}

#[test]
fn remove_interior_moves_last_into_slot() {
    let mut index = OwnershipIndex::new();
    for id in [1u128, 2, 3, 4] {
        index.add_token(addr(1), id);
    }
    index.add_token(addr(2), 9);
    assert_eq!(index.remove_token(2), Ok((addr(1), 3)));
    assert_eq!(tokens(&index, addr(1)), vec![1, 4, 3]);
    assert_eq!(index.info_of(1), Some(OwnerInfo::new(addr(1), 0)));
    assert_eq!(index.info_of(4), Some(OwnerInfo::new(addr(1), 1)));
    assert_eq!(index.info_of(3), Some(OwnerInfo::new(addr(1), 2)));
    assert_eq!(index.info_of(2), None);
    // the other owner is untouched
    assert_eq!(tokens(&index, addr(2)), vec![9]);
    assert_eq!(index.info_of(9), Some(OwnerInfo::new(addr(2), 0)));
}

#[test]
fn remove_first_of_many() {
    let mut index = OwnershipIndex::new();
    for id in [5u128, 6, 7] {
        index.add_token(addr(1), id);
    }
    assert_eq!(index.remove_token(5), Ok((addr(1), 2)));
    assert_eq!(tokens(&index, addr(1)), vec![7, 6]);
    assert_eq!(index.info_of(7), Some(OwnerInfo::new(addr(1), 0)));
    assert_eq!(index.info_of(6), Some(OwnerInfo::new(addr(1), 1)));
}

#[test]
fn remove_only_token_leaves_empty_collection() {
    let mut index = OwnershipIndex::new();
    index.add_token(addr(1), 1);
    assert_eq!(index.remove_token(1), Ok((addr(1), 0)));
    assert_eq!(index.collection_of(addr(1)), Some(&Vec::new()));
    assert_eq!(index.info_of(1), None);
}

#[test]
fn remove_unknown_token_changes_nothing() {
    let mut index = OwnershipIndex::new();
    index.add_token(addr(1), 1);
    assert_eq!(index.remove_token(2), Err(NftError::UnknownToken));
    assert_eq!(tokens(&index, addr(1)), vec![1]);
    assert_eq!(index.info_of(1), Some(OwnerInfo::new(addr(1), 0)));
}

#[test]
fn add_then_remove_round_trip() {
    let mut index = OwnershipIndex::new();
    index.add_token(addr(1), 1);
    index.add_token(addr(1), 2);
    let before = tokens(&index, addr(1));
    index.add_token(addr(1), 3);
    assert_eq!(index.remove_token(3), Ok((addr(1), 2)));
    assert_eq!(tokens(&index, addr(1)), before);
    assert_eq!(tokens(&index, addr(1)).len(), 2);
    assert_eq!(index.info_of(3), None);
}

#[test]
fn add_then_remove_round_trip_for_new_owner() {
    let mut index = OwnershipIndex::new();
    index.add_token(addr(7), 42);
    assert_eq!(index.remove_token(42), Ok((addr(7), 0)));
    assert_eq!(tokens(&index, addr(7)).len(), 0);
    assert_eq!(index.info_of(42), None);
}

#[test]
fn addresses_differing_in_high_word_have_own_collections() {
    let mut index = OwnershipIndex::new();
    index.add_token(Address::new(0, 5), 1);
    index.add_token(Address::new(1, 5), 2);
    assert_eq!(tokens(&index, Address::new(0, 5)), vec![1]);
    assert_eq!(tokens(&index, Address::new(1, 5)), vec![2]);
}

#[test]
fn every_live_token_sits_at_its_recorded_slot() {
    let mut index = OwnershipIndex::new();
    for id in 1u128..=30 {
        index.add_token(addr(id % 3), id);
    }
    for id in [4u128, 9, 30, 29, 15, 16] {
        assert!(index.remove_token(id).is_ok());
    }
    let mut seen = 0;
    for owner in 0u128..3 {
        let held = tokens(&index, addr(owner));
        for (i, id) in held.iter().enumerate() {
            assert_eq!(index.info_of(*id), Some(OwnerInfo::new(addr(owner), i as u32)));
            seen += 1;
        }
    }
    assert_eq!(seen, 24);
    for id in 1u128..=30 {
        let live = ![4u128, 9, 30, 29, 15, 16].contains(&id);
        assert_eq!(index.info_of(id).is_some(), live);
    }
}
