use pallet_utxo::ledger::spend_and_create;
use pallet_utxo::primitives::{bytes32_eq, bytes32_to_vec};
use pallet_utxo::{AccountId32, TransactionInput, Utxo, UtxoStore, H256};

fn account(byte: u8) -> AccountId32 {
    AccountId32::new([byte; 32])
}

fn digest(byte: u8) -> H256 {
    H256([byte; 32])
}

#[test]
fn new_store_is_empty() {
    let store = UtxoStore::new();
    assert_eq!(store.len(), 0);
    assert_eq!(store.get(&H256::zero()), None);
    assert_eq!(UtxoStore::default().len(), 0);
}

#[test]
fn insert_then_get() {
    let mut store = UtxoStore::new();
    store.insert(digest(1), Utxo::new(10, account(1)));
    store.insert(digest(2), Utxo::new(20, account(2)));
    assert_eq!(store.len(), 2);
    assert_eq!(store.get(&digest(1)), Some(Utxo::new(10, account(1))));
    assert_eq!(store.get(&digest(2)), Some(Utxo::new(20, account(2))));
    assert_eq!(store.get(&digest(3)), None);
}

#[test]
fn insert_replaces_what_was_stored() {
    let mut store = UtxoStore::new();
    store.insert(digest(1), Utxo::new(10, account(1)));
    store.insert(digest(2), Utxo::new(20, account(2)));
    store.insert(digest(1), Utxo::new(30, account(3)));
    assert_eq!(store.len(), 2);
    assert_eq!(store.get(&digest(1)), Some(Utxo::new(30, account(3))));
    assert_eq!(store.get(&digest(2)), Some(Utxo::new(20, account(2))));
}

#[test]
fn remove_deletes_only_the_entry_named() {
    let mut store = UtxoStore::new();
    store.insert(digest(1), Utxo::new(10, account(1)));
    store.insert(digest(2), Utxo::new(20, account(2)));
    store.insert(digest(3), Utxo::new(30, account(3)));
    store.remove(&digest(2));
    assert_eq!(store.len(), 2);
    assert_eq!(store.get(&digest(1)), Some(Utxo::new(10, account(1))));
    assert_eq!(store.get(&digest(2)), None);
    assert_eq!(store.get(&digest(3)), Some(Utxo::new(30, account(3))));
}

#[test]
fn remove_of_an_absent_entry_changes_nothing() {
    let mut store = UtxoStore::new();
    store.insert(digest(1), Utxo::new(10, account(1)));
    store.remove(&digest(2));
    store.remove(&digest(2));
    assert_eq!(store.len(), 1);
    assert_eq!(store.get(&digest(1)), Some(Utxo::new(10, account(1))));
}

#[test]
fn store_tells_digests_apart_by_every_byte() {
    let mut store = UtxoStore::new();
    store.insert(digest(7), Utxo::new(1, account(1)));
    for position in 0..32 {
        let mut changed = [7u8; 32];
        changed[position] = 8;
        assert_eq!(store.get(&H256(changed)), None);
        store.insert(H256(changed), Utxo::new(position as u64 + 2, account(2)));
    }
    assert_eq!(store.len(), 33);
    assert_eq!(store.get(&digest(7)), Some(Utxo::new(1, account(1))));
    for position in 0..32 {
        let mut changed = [7u8; 32];
        changed[position] = 8;
        assert_eq!(store.get(&H256(changed)), Some(Utxo::new(position as u64 + 2, account(2))));
        store.remove(&H256(changed));
    }
    assert_eq!(store.len(), 1);
}

#[test]
fn clone_is_independent() {
    let mut store = UtxoStore::new();
    store.insert(digest(1), Utxo::new(10, account(1)));
    let copy = store.clone();
    store.remove(&digest(1));
    store.insert(digest(2), Utxo::new(20, account(2)));
    assert_eq!(copy.len(), 1);
    assert_eq!(copy.get(&digest(1)), Some(Utxo::new(10, account(1))));
    assert_eq!(copy.get(&digest(2)), None);
}

#[test]
fn spend_and_create_on_given_identifiers() {
    let mut store = UtxoStore::new();
    store.insert(digest(1), Utxo::new(10, account(1)));
    store.insert(digest(2), Utxo::new(20, account(2)));
    let spent = vec![TransactionInput::new(digest(1)), TransactionInput::new(digest(7))];
    let created = vec![(digest(3), Utxo::new(4, account(3))), (digest(4), Utxo::new(6, account(4)))];
    spend_and_create(&mut store, &spent, &created);
    assert_eq!(store.len(), 3);
    assert_eq!(store.get(&digest(1)), None);
    assert_eq!(store.get(&digest(2)), Some(Utxo::new(20, account(2))));
    assert_eq!(store.get(&digest(3)), Some(Utxo::new(4, account(3))));
    assert_eq!(store.get(&digest(4)), Some(Utxo::new(6, account(4))));
}

#[test]
fn created_output_stays_where_it_shares_an_identifier_with_an_input() {
    let mut store = UtxoStore::new();
    store.insert(digest(1), Utxo::new(10, account(1)));
    let spent = vec![TransactionInput::new(digest(1))];
    let created = vec![(digest(1), Utxo::new(4, account(3)))];
    spend_and_create(&mut store, &spent, &created);
    assert_eq!(store.get(&digest(1)), Some(Utxo::new(4, account(3))));
}

#[test]
fn later_output_stays_where_two_share_an_identifier() {
    let mut store = UtxoStore::new();
    let created = vec![(digest(1), Utxo::new(4, account(3))), (digest(1), Utxo::new(5, account(4)))];
    spend_and_create(&mut store, &vec![], &created);
    assert_eq!(store.len(), 1);
    assert_eq!(store.get(&digest(1)), Some(Utxo::new(5, account(4))));
}

#[test]
fn byte_arrays_compare_by_content() {
    let a = [1u8; 32];
    let mut b = [1u8; 32];
    assert!(bytes32_eq(&a, &b));
    b[0] = 2;
    assert!(!bytes32_eq(&a, &b));
    b[0] = 1;
    b[31] = 0;
    assert!(!bytes32_eq(&a, &b));
    assert_eq!(bytes32_to_vec(&b), b.to_vec());
    assert_eq!(account(1), AccountId32::new([1u8; 32]));
    assert_ne!(account(1), account(2));
}
