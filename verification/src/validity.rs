//! Admission of a proposed transaction: the checks it must pass, in order,
//! and the descriptor that an admitted transaction gets.

use crate::encoding::{halves, halves_of, lemma_halves_are_injective};
use crate::primitives::{AccountId32, H256};
use crate::store::UtxoStore;
use crate::transaction::{digest_views, Transaction, TransactionView, Utxo};
use std::collections::BTreeMap;
use vstd::prelude::*;
use vstd::std_specs::btree::group_btree_axioms;

verus! {

/// Why a transaction is not carried out.
#[derive(Clone, Copy, Debug, PartialEq, Eq, Structural)]
pub enum Error {
    /// The same input, or the same output owner, appears twice.
    DuplicatedTransaction,
    /// A list is empty, or an input that exists belongs to someone else.
    InvalidTransaction,
    /// An output asks for the value zero.
    OutputValueIsZero,
    /// The transaction is well formed, but an input it spends is not in the
    /// store yet.
    InputsNotSatisfied,
    /// Kept for the authentication that precedes validation.
    SignatureFailure,
}

/// The priority that every admitted transaction gets.
pub const PRIORITY: u64 = 1;

/// The number of blocks for which an admission stays valid.
pub const LONGEVITY: u64 = 10;

/// The descriptor of an admitted transaction: a scheduling hint that names
/// the identifiers it still waits for and those it will create.
#[derive(Clone, Debug, PartialEq, Eq)]
pub struct ValidTransaction {
    pub priority: u64,
    /// The identifiers of the inputs that are not in the store yet.
    pub requires: Vec<Vec<u8>>,
    /// The identifiers of the outputs that the transaction creates.
    pub provides: Vec<Vec<u8>>,
    pub longevity: u64,
    /// Whether the transaction may be relayed while it is pending.
    pub propagate: bool,
}

/// A descriptor as a mathematical value.
pub struct ValidTransactionView {
    pub priority: u64,
    pub requires: Seq<Seq<u8>>,
    pub provides: Seq<Seq<u8>>,
    pub longevity: u64,
    pub propagate: bool,
}

/// The byte strings that a list of tags holds.
pub open spec fn tag_views(tags: Seq<Vec<u8>>) -> Seq<Seq<u8>> {
    tags.map_values(|tag: Vec<u8>| tag@)
}

impl View for ValidTransaction {
    type V = ValidTransactionView;

    open spec fn view(&self) -> ValidTransactionView {
        ValidTransactionView {
            priority: self.priority,
            requires: tag_views(self.requires@),
            provides: tag_views(self.provides@),
            longevity: self.longevity,
            propagate: self.propagate,
        }
    }
}

/// The descriptor of a transaction that waits for the identifiers `missing`
/// and creates the identifiers `created`: the fixed priority and longevity,
/// and leave to relay it.
pub open spec fn descriptor(missing: Seq<Seq<u8>>, created: Seq<Seq<u8>>) -> ValidTransactionView {
    ValidTransactionView {
        priority: PRIORITY,
        requires: missing,
        provides: created,
        longevity: LONGEVITY,
        propagate: true,
    }
}

/// Whether some input refers to an output that is in the store and belongs
/// to another principal than `from`.
pub open spec fn has_foreign_input(
    transaction: TransactionView,
    from: AccountId32,
    store: Map<Seq<u8>, Utxo>,
) -> bool {
    exists|j: int|
        0 <= j < transaction.inputs.len() && store.contains_key(
            (#[trigger] transaction.inputs[j]).utxo_id@,
        ) && store[transaction.inputs[j].utxo_id@].owner != from
}

/// Whether some output asks for the value zero.
pub open spec fn has_zero_output(transaction: TransactionView) -> bool {
    exists|i: int|
        0 <= i < transaction.outputs.len() && (#[trigger] transaction.outputs[i]).value == 0
}

/// The identifiers of the inputs that are not in the store, in the order of
/// the inputs.
pub open spec fn missing_inputs(transaction: TransactionView, store: Map<Seq<u8>, Utxo>) -> Seq<
    Seq<u8>,
> {
    transaction.input_ids().filter(|id: Seq<u8>| !store.contains_key(id))
}

/// The reason for which a transaction submitted by `from` is rejected against
/// `store`, if it is. The checks run in this order, and the first that fails
/// decides: a list is empty; an identifier is spent twice or a principal is
/// paid twice; an input that exists belongs to someone else; an output has
/// the value zero. An input that does not exist is no reason.
pub open spec fn rejection(
    transaction: TransactionView,
    from: AccountId32,
    store: Map<Seq<u8>, Utxo>,
) -> Option<Error> {
    if transaction.inputs.len() == 0 || transaction.outputs.len() == 0 {
        Some(Error::InvalidTransaction)
    } else if !transaction.input_ids().no_duplicates()
        || !transaction.output_owners().no_duplicates() {
        Some(Error::DuplicatedTransaction)
    } else if has_foreign_input(transaction, from, store) {
        Some(Error::InvalidTransaction)
    } else if has_zero_output(transaction) {
        Some(Error::OutputValueIsZero)
    } else {
        None
    }
}

/// Whether some pair of numbers occurs twice in the list: all of them are
/// put into an ordered map, which then holds fewer entries than the list has
/// items exactly if some item came twice.
pub fn has_duplicate_key(keys: &Vec<(u128, u128)>) -> (duplicated: bool)
    ensures
        duplicated == !keys@.no_duplicates(),
{
    broadcast use group_btree_axioms;

    let n: usize = keys.len();
    let mut seen: BTreeMap<(u128, u128), ()> = BTreeMap::new();
    let mut i: usize = 0;
    while i < n
        invariant
            i <= n,
            n == keys@.len(),
            seen@.dom() == keys@.take(i as int).to_set(),
        decreases n - i,
    {
        seen.insert(keys[i], ());
        proof {
            assert(keys@.take(i + 1) =~= keys@.take(i as int).push(keys@[i as int]));
            keys@.take(i as int).lemma_push_to_set_commute(keys@[i as int]);
        }
        i += 1;
    }
    proof {
        assert(keys@.take(n as int) =~= keys@);
        if keys@.no_duplicates() {
            keys@.unique_seq_to_set();
        }
        if keys@.to_set().len() == keys@.len() {
            keys@.lemma_no_dup_set_cardinality();
        }
    }
    seen.len() != n
}

/// Whether two inputs of the transaction refer to the same identifier.
pub fn has_duplicate_input(transaction: &Transaction) -> (duplicated: bool)
    ensures
        duplicated == !transaction@.input_ids().no_duplicates(),
{
    let n: usize = transaction.inputs.len();
    let ghost ids = transaction@.input_ids();
    let mut keys: Vec<(u128, u128)> = Vec::new();
    let mut i: usize = 0;
    while i < n
        invariant
            i <= n,
            n == transaction.inputs.len(),
            ids == transaction@.input_ids(),
            keys@.len() == i,
            forall|k: int| 0 <= k < i ==> keys@[k] == halves(#[trigger] ids[k]),
        decreases n - i,
    {
        keys.push(halves_of(&transaction.inputs[i].utxo_id.0));
        i += 1;
    }
    proof {
        if ids.no_duplicates() {
            assert forall|a: int, b: int| 0 <= a < n && 0 <= b < n && a != b implies keys@[a]
                != keys@[b] by {
                H256::lemma_view(transaction.inputs[a].utxo_id, transaction.inputs[b].utxo_id);
                if halves(ids[a]) == halves(ids[b]) {
                    lemma_halves_are_injective(ids[a], ids[b]);
                }
            }
        }
    }
    has_duplicate_key(&keys)
}

/// Whether two outputs of the transaction have the same owner.
pub fn has_duplicate_owner(transaction: &Transaction) -> (duplicated: bool)
    ensures
        duplicated == !transaction@.output_owners().no_duplicates(),
{
    let n: usize = transaction.outputs.len();
    let ghost owners = transaction@.output_owners();
    let mut keys: Vec<(u128, u128)> = Vec::new();
    let mut i: usize = 0;
    while i < n
        invariant
            i <= n,
            n == transaction.outputs.len(),
            owners == transaction@.output_owners(),
            keys@.len() == i,
            forall|k: int| 0 <= k < i ==> keys@[k] == halves((#[trigger] owners[k])@),
        decreases n - i,
    {
        keys.push(halves_of(&transaction.outputs[i].owner.0));
        i += 1;
    }
    proof {
        if owners.no_duplicates() {
            assert forall|a: int, b: int| 0 <= a < n && 0 <= b < n && a != b implies keys@[a]
                != keys@[b] by {
                AccountId32::lemma_view(owners[a], owners[b]);
                if halves(owners[a]@) == halves(owners[b]@) {
                    lemma_halves_are_injective(owners[a]@, owners[b]@);
                }
            }
        }
    }
    has_duplicate_key(&keys)
}

/// Runs the checks of admission on a transaction submitted by `from`. The
/// store is only read. An accepted transaction comes with the identifiers of
/// its inputs that the store does not hold, in the order of the inputs.
pub fn check_transaction(transaction: &Transaction, from: AccountId32, store: &UtxoStore) -> (checked:
    Result<Vec<H256>, Error>)
    ensures
        match checked {
            Ok(missing) => rejection(transaction@, from, store@) is None && digest_views(missing@)
                == missing_inputs(transaction@, store@),
            Err(error) => rejection(transaction@, from, store@) == Some(error),
        },
{
    if transaction.inputs.len() == 0 || transaction.outputs.len() == 0 {
        return Err(Error::InvalidTransaction);
    }
    if has_duplicate_input(transaction) || has_duplicate_owner(transaction) {
        return Err(Error::DuplicatedTransaction);
    }
    let ghost ids = transaction@.input_ids();
    let ghost absent = |id: Seq<u8>| !store@.contains_key(id);
    let n_inputs: usize = transaction.inputs.len();
    let mut missing: Vec<H256> = Vec::new();
    let mut j: usize = 0;
    while j < n_inputs
        invariant
            j <= n_inputs,
            n_inputs == transaction.inputs.len(),
            ids == transaction@.input_ids(),
            absent == |id: Seq<u8>| !store@.contains_key(id),
            transaction@.outputs.len() != 0,
            transaction@.input_ids().no_duplicates(),
            transaction@.output_owners().no_duplicates(),
            forall|k: int|
                0 <= k < j && store@.contains_key((#[trigger] transaction@.inputs[k]).utxo_id@)
                    ==> store@[transaction@.inputs[k].utxo_id@].owner == from,
            digest_views(missing@) == ids.take(j as int).filter(absent),
        decreases n_inputs - j,
    {
        let id = transaction.inputs[j].utxo_id;
        proof {
            assert(ids.take(j + 1) =~= ids.take(j as int).push(id@));
            ids.take(j as int).lemma_filter_push(id@, absent);
        }
        match store.get(&id) {
            Some(utxo) => {
                if from != utxo.owner {
                    return Err(Error::InvalidTransaction);
                }
            },
            None => {
                missing.push(id);
            },
        }
        j += 1;
    }
    assert(ids.take(n_inputs as int) =~= ids);
    let n_outputs: usize = transaction.outputs.len();
    let mut i: usize = 0;
    while i < n_outputs
        invariant
            i <= n_outputs,
            n_outputs == transaction.outputs.len(),
            rejection(transaction@, from, store@) == if has_zero_output(transaction@) {
                Some(Error::OutputValueIsZero)
            } else {
                None
            },
            forall|k: int| 0 <= k < i ==> (#[trigger] transaction@.outputs[k]).value != 0,
        decreases n_outputs - i,
    {
        if transaction.outputs[i].value == 0 {
            return Err(Error::OutputValueIsZero);
        }
        i += 1;
    }
    Ok(missing)
}

/// The digests of a list as dependency tags.
pub fn tags_of(digests: &Vec<H256>) -> (tags: Vec<Vec<u8>>)
    ensures
        tag_views(tags@) == digest_views(digests@),
{
    let n: usize = digests.len();
    let mut tags: Vec<Vec<u8>> = Vec::new();
    let mut i: usize = 0;
    while i < n
        invariant
            i <= n,
            n == digests.len(),
            tags@.len() == i,
            forall|k: int| 0 <= k < i ==> (#[trigger] tags@[k])@ == digests@[k]@,
        decreases n - i,
    {
        tags.push(digests[i].to_vec());
        i += 1;
    }
    tags
}

impl ValidTransaction {
    /// The descriptor of a transaction that waits for the identifiers
    /// `missing` and creates the identifiers `created`.
    pub fn new(missing: &Vec<H256>, created: &Vec<H256>) -> (valid: ValidTransaction)
        ensures
            valid@ == descriptor(digest_views(missing@), digest_views(created@)),
    {
        ValidTransaction {
            priority: PRIORITY,
            requires: tags_of(missing),
            provides: tags_of(created),
            longevity: LONGEVITY,
            propagate: true,
        }
    }
}

/// Decides whether a transaction submitted by `from` may be carried out
/// against `store`, which is only read. A transaction that passes every check
/// is admitted even where some input is not in the store yet: its descriptor
/// names those inputs, and it must not be applied before they exist. Only a
/// transaction that passes the checks is hashed, so only such a one has to be
/// hashable.
pub fn validate_tx(transaction: &Transaction, from: AccountId32, store: &UtxoStore) -> (validity:
    Result<ValidTransaction, Error>)
    requires
        rejection(transaction@, from, store@) is None ==> transaction@.hashable(),
    ensures
        match validity {
            Ok(valid) => rejection(transaction@, from, store@) is None && valid@ == descriptor(
                missing_inputs(transaction@, store@),
                transaction@.output_ids(),
            ),
            Err(error) => rejection(transaction@, from, store@) == Some(error),
        },
{
    match check_transaction(transaction, from, store) {
        Ok(missing) => {
            let created = transaction.output_ids();
            Ok(ValidTransaction::new(&missing, &created))
        },
        Err(error) => Err(error),
    }
}

} // verus!
