use pallet_utxo::validity::{
    check_transaction, has_duplicate_input, has_duplicate_key, has_duplicate_owner, tags_of,
    LONGEVITY, PRIORITY,
};
use pallet_utxo::{
    validate_tx, AccountId32, Error, Transaction, TransactionInput, Utxo, UtxoStore,
    ValidTransaction, H256,
};

fn account(byte: u8) -> AccountId32 {
    AccountId32::new([byte; 32])
}

fn digest(byte: u8) -> H256 {
    H256([byte; 32])
}

fn input(byte: u8) -> TransactionInput {
    TransactionInput::new(digest(byte))
}

/// A store in which account 1 owns the digests 1 and 2 and account 2 owns the digest 3.
fn store() -> UtxoStore {
    let mut store = UtxoStore::new();
    store.insert(digest(1), Utxo::new(100, account(1)));
    store.insert(digest(2), Utxo::new(200, account(1)));
    store.insert(digest(3), Utxo::new(300, account(2)));
    store
}

#[test]
fn empty_inputs_are_invalid() {
    let tx = Transaction { inputs: vec![], outputs: vec![Utxo::new(1, account(2))] };
    assert_eq!(validate_tx(&tx, account(1), &store()), Err(Error::InvalidTransaction));
}

#[test]
fn empty_outputs_are_invalid() {
    let tx = Transaction { inputs: vec![input(1)], outputs: vec![] };
    assert_eq!(validate_tx(&tx, account(1), &store()), Err(Error::InvalidTransaction));
}

#[test]
fn empty_transaction_is_invalid() {
    let tx = Transaction { inputs: vec![], outputs: vec![] };
    assert_eq!(validate_tx(&tx, account(1), &UtxoStore::new()), Err(Error::InvalidTransaction));
}

#[test]
fn duplicated_input_is_rejected() {
    let tx = Transaction {
        inputs: vec![input(1), input(2), input(1)],
        outputs: vec![Utxo::new(1, account(2))],
    };
    assert!(has_duplicate_input(&tx));
    assert_eq!(validate_tx(&tx, account(1), &store()), Err(Error::DuplicatedTransaction));
}

#[test]
fn duplicated_owner_is_rejected_even_with_different_values() {
    let tx = Transaction {
        inputs: vec![input(1)],
        outputs: vec![Utxo::new(1, account(2)), Utxo::new(2, account(3)), Utxo::new(3, account(2))],
    };
    assert!(!has_duplicate_input(&tx));
    assert!(has_duplicate_owner(&tx));
    assert_eq!(validate_tx(&tx, account(1), &store()), Err(Error::DuplicatedTransaction));
}

#[test]
fn distinct_inputs_and_owners_are_not_duplicated() {
    let tx = Transaction {
        inputs: vec![input(1), input(2), input(3)],
        outputs: vec![Utxo::new(1, account(2)), Utxo::new(1, account(3))],
    };
    assert!(!has_duplicate_input(&tx));
    assert!(!has_duplicate_owner(&tx));
    let none = Transaction { inputs: vec![], outputs: vec![] };
    assert!(!has_duplicate_input(&none));
    assert!(!has_duplicate_owner(&none));
}

#[test]
fn duplicate_keys_are_found_anywhere_in_the_list() {
    assert!(!has_duplicate_key(&vec![]));
    assert!(!has_duplicate_key(&vec![(0, 0)]));
    assert!(!has_duplicate_key(&vec![(0, 1), (1, 0), (1, 1), (0, 0)]));
    assert!(has_duplicate_key(&vec![(0, 1), (1, 0), (0, 1)]));
    assert!(has_duplicate_key(&vec![(7, 7), (7, 7)]));
    assert!(has_duplicate_key(&vec![(1, 2), (3, 4), (5, 6), (u128::MAX, 0), (3, 4)]));
}

#[test]
fn many_inputs_are_checked_for_duplicates() {
    let mut tx = Transaction { inputs: vec![], outputs: vec![Utxo::new(1, account(2))] };
    for high in 0..20u8 {
        for low in 0..50u8 {
            let mut bytes = [0u8; 32];
            bytes[0] = low;
            bytes[31] = high;
            tx.inputs.push(TransactionInput::new(H256(bytes)));
        }
    }
    assert_eq!(tx.inputs.len(), 1000);
    assert!(!has_duplicate_input(&tx));
    let again = tx.inputs[123];
    tx.inputs.push(again);
    assert!(has_duplicate_input(&tx));
}

#[test]
fn digests_that_differ_in_one_byte_are_not_duplicates() {
    let mut other = [7u8; 32];
    other[31] = 8;
    let tx = Transaction {
        inputs: vec![input(7), TransactionInput::new(H256(other))],
        outputs: vec![Utxo::new(1, account(2))],
    };
    assert!(!has_duplicate_input(&tx));
    assert_ne!(digest(7), H256(other));
    assert_eq!(digest(7), H256([7u8; 32]));
    for position in 0..32 {
        let mut changed = [7u8; 32];
        changed[position] = 6;
        let tx = Transaction {
            inputs: vec![input(7), TransactionInput::new(H256(changed))],
            outputs: vec![Utxo::new(1, account(2)), Utxo::new(1, AccountId32::new(changed))],
        };
        assert!(!has_duplicate_input(&tx));
        assert!(!has_duplicate_owner(&tx));
    }
}

#[test]
fn foreign_input_is_invalid() {
    let tx = Transaction { inputs: vec![input(1), input(3)], outputs: vec![Utxo::new(1, account(2))] };
    assert_eq!(validate_tx(&tx, account(1), &store()), Err(Error::InvalidTransaction));
    assert_eq!(validate_tx(&tx, account(2), &store()), Err(Error::InvalidTransaction));
}

#[test]
fn zero_output_is_rejected() {
    let tx = Transaction {
        inputs: vec![input(1)],
        outputs: vec![Utxo::new(1, account(2)), Utxo::new(0, account(3))],
    };
    assert_eq!(validate_tx(&tx, account(1), &store()), Err(Error::OutputValueIsZero));
}

#[test]
fn duplication_is_found_before_ownership_and_values() {
    let tx = Transaction {
        inputs: vec![input(3), input(3)],
        outputs: vec![Utxo::new(0, account(2))],
    };
    assert_eq!(validate_tx(&tx, account(1), &store()), Err(Error::DuplicatedTransaction));
}

#[test]
fn ownership_is_checked_before_values() {
    let tx = Transaction { inputs: vec![input(3)], outputs: vec![Utxo::new(0, account(2))] };
    assert_eq!(validate_tx(&tx, account(1), &store()), Err(Error::InvalidTransaction));
}

#[test]
fn missing_inputs_are_named_in_order() {
    let tx = Transaction {
        inputs: vec![input(9), input(1), input(8), input(2)],
        outputs: vec![Utxo::new(5, account(2))],
    };
    assert_eq!(check_transaction(&tx, account(1), &store()), Ok(vec![digest(9), digest(8)]));
    let validity = validate_tx(&tx, account(1), &store()).unwrap();
    assert_eq!(validity.requires, vec![vec![9u8; 32], vec![8u8; 32]]);
    assert_eq!(
        validity.provides,
        vec![tx.hash_input_utxo(0).0.to_vec()]
    );
}

#[test]
fn missing_input_does_not_hide_a_foreign_one() {
    let tx = Transaction { inputs: vec![input(9), input(3)], outputs: vec![Utxo::new(5, account(2))] };
    assert_eq!(check_transaction(&tx, account(1), &store()), Err(Error::InvalidTransaction));
}

#[test]
fn admitted_transaction_gets_the_fixed_policy() {
    let tx = Transaction {
        inputs: vec![input(1), input(2)],
        outputs: vec![Utxo::new(250, account(2)), Utxo::new(50, account(1))],
    };
    let validity = validate_tx(&tx, account(1), &store()).unwrap();
    assert_eq!(
        validity,
        ValidTransaction {
            priority: 1,
            requires: vec![],
            provides: vec![tx.hash_input_utxo(0).0.to_vec(), tx.hash_input_utxo(1).0.to_vec()],
            longevity: 10,
            propagate: true,
        }
    );
    assert_eq!(PRIORITY, 1);
    assert_eq!(LONGEVITY, 10);
}

#[test]
fn validation_does_not_enforce_conservation_of_value() {
    let tx = Transaction { inputs: vec![input(1)], outputs: vec![Utxo::new(u64::MAX, account(2))] };
    assert!(validate_tx(&tx, account(1), &store()).is_ok());
}

#[test]
fn descriptor_is_built_from_the_digests_given() {
    let valid = ValidTransaction::new(&vec![digest(4)], &vec![digest(5), digest(6)]);
    assert_eq!(valid.requires, vec![vec![4u8; 32]]);
    assert_eq!(valid.provides, vec![vec![5u8; 32], vec![6u8; 32]]);
    assert_eq!(valid.priority, 1);
    assert_eq!(valid.longevity, 10);
    assert!(valid.propagate);
    assert_eq!(tags_of(&vec![]), Vec::<Vec<u8>>::new());
}

#[test]
fn descriptor_converts_into_the_runtime_type() {
    let tx = Transaction { inputs: vec![input(9)], outputs: vec![Utxo::new(5, account(2))] };
    let validity = validate_tx(&tx, account(1), &store()).unwrap();
    let runtime = sp_runtime::transaction_validity::ValidTransaction {
        priority: validity.priority,
        requires: validity.requires.clone(),
        provides: validity.provides.clone(),
        longevity: validity.longevity,
        propagate: validity.propagate,
    };
    assert_eq!(runtime.requires, vec![sp_core::H256::repeat_byte(9).as_fixed_bytes().to_vec()]);
    assert_eq!(runtime.priority, 1);
    assert_eq!(runtime.longevity, 10);
}
