//! What holds of the ledger for every store and every transaction.

use crate::ledger::{applied, refusal, with_created, without_spent};
use crate::primitives::{AccountId32, H256};
use crate::transaction::{TransactionView, Utxo};
use crate::validity::{missing_inputs, rejection, Error};
use vstd::prelude::*;

verus! {

/// What no output of `created` comes with keeps the output that it had.
pub proof fn lemma_with_created_elsewhere(
    store: Map<Seq<u8>, Utxo>,
    created: Seq<(Seq<u8>, Utxo)>,
    id: Seq<u8>,
)
    requires
        forall|i: int| 0 <= i < created.len() ==> (#[trigger] created[i]).0 != id,
    ensures
        with_created(store, created).contains_key(id) == store.contains_key(id),
        with_created(store, created)[id] == store[id],
    decreases created.len(),
{
    if created.len() > 0 {
        let rest = created.drop_last();
        lemma_with_created_elsewhere(store, rest, id);
    }
}

/// Under an identifier that an output of `created` comes with, the store
/// holds the last such output.
pub proof fn lemma_with_created_last(
    store: Map<Seq<u8>, Utxo>,
    created: Seq<(Seq<u8>, Utxo)>,
    position: int,
)
    requires
        0 <= position < created.len(),
        forall|k: int|
            position < k < created.len() ==> (#[trigger] created[k]).0 != created[position].0,
    ensures
        with_created(store, created).contains_key(created[position].0),
        with_created(store, created)[created[position].0] == created[position].1,
    decreases created.len(),
{
    let rest = created.drop_last();
    if position < created.len() - 1 {
        lemma_with_created_last(store, rest, position);
    }
}

/// Deriving an identifier is deterministic: two digests derived from the
/// same transaction and the same index are the same digest.
pub proof fn lemma_derivation_is_deterministic(
    transaction: TransactionView,
    index: u64,
    first: H256,
    second: H256,
)
    requires
        first@ == transaction.derived_id(index),
        second@ == transaction.derived_id(index),
    ensures
        first == second,
{
    H256::lemma_view(first, second);
}

/// No double spend: once a transaction has been applied, an identifier that
/// one of its inputs refers to is absent from the store. It is stated of the
/// inputs that none of the transaction's own outputs is stored under.
pub proof fn lemma_no_double_spend(
    store: Map<Seq<u8>, Utxo>,
    transaction: TransactionView,
    position: int,
)
    requires
        0 <= position < transaction.inputs.len(),
        !transaction.output_ids().contains(transaction.inputs[position].utxo_id@),
    ensures
        !applied(store, transaction).contains_key(transaction.inputs[position].utxo_id@),
{
    let id = transaction.inputs[position].utxo_id@;
    let created = transaction.created();
    assert(transaction.input_ids()[position] == id);
    assert forall|i: int| 0 <= i < created.len() implies (#[trigger] created[i]).0 != id by {
        assert(transaction.output_ids()[i] == created[i].0);
    }
    lemma_with_created_elsewhere(without_spent(store, transaction.input_ids()), created, id);
}

/// A transfer spends only what its submitter owns: where a transfer is not
/// refused, every one of its inputs refers to an output that is in the store
/// and belongs to the submitter.
pub proof fn lemma_transfer_spends_own_outputs(
    store: Map<Seq<u8>, Utxo>,
    transaction: TransactionView,
    who: AccountId32,
    position: int,
)
    requires
        refusal(transaction, who, store) is None,
        0 <= position < transaction.inputs.len(),
    ensures
        store.contains_key(transaction.inputs[position].utxo_id@),
        store[transaction.inputs[position].utxo_id@].owner == who,
{
    let ids = transaction.input_ids();
    let absent = |id: Seq<u8>| !store.contains_key(id);
    if !store.contains_key(ids[position]) {
        ids.lemma_filter_contains(absent, position);
    }
}

/// A transfer cannot be repeated: once a transaction that was not refused
/// has been applied, the same transaction is refused, because its inputs are
/// gone. It is stated of the transactions none of whose inputs refers to one
/// of their own outputs.
pub proof fn lemma_transfer_cannot_be_repeated(
    store: Map<Seq<u8>, Utxo>,
    transaction: TransactionView,
    who: AccountId32,
)
    requires
        refusal(transaction, who, store) is None,
        forall|j: int|
            0 <= j < transaction.inputs.len() ==> !transaction.output_ids().contains(
                (#[trigger] transaction.inputs[j]).utxo_id@,
            ),
    ensures
        refusal(transaction, who, applied(store, transaction)) == Some(Error::InputsNotSatisfied),
{
    let after = applied(store, transaction);
    assert forall|j: int| 0 <= j < transaction.inputs.len() implies !after.contains_key(
        (#[trigger] transaction.inputs[j]).utxo_id@,
    ) by {
        lemma_no_double_spend(store, transaction, j);
    }
    let ids = transaction.input_ids();
    let absent = |id: Seq<u8>| !after.contains_key(id);
    ids.lemma_filter_contains(absent, 0);
}

/// Every output is stored: once a transaction has been applied, the
/// identifier of each of its outputs is in the store, with that output. It is
/// stated of the transactions in which outputs that share an identifier are
/// equal.
pub proof fn lemma_outputs_are_stored(
    store: Map<Seq<u8>, Utxo>,
    transaction: TransactionView,
    position: int,
)
    requires
        0 <= position < transaction.outputs.len(),
        forall|a: int, b: int|
            0 <= a < transaction.outputs.len() && 0 <= b < transaction.outputs.len()
                && #[trigger] transaction.output_id(a) == #[trigger] transaction.output_id(b)
                ==> transaction.outputs[a] == transaction.outputs[b],
    ensures
        applied(store, transaction).contains_key(transaction.output_id(position)),
        applied(store, transaction)[transaction.output_id(position)]
            == transaction.outputs[position],
{
    let created = transaction.created();
    let id = transaction.output_id(position);
    let last = last_with_id(created, id, created.len() as int);
    lemma_last_with_id(created, id, created.len() as int, position);
    lemma_with_created_last(without_spent(store, transaction.input_ids()), created, last);
}

/// The last position below `bound` at which `created` holds an output for
/// `id`; -1 if there is none.
spec fn last_with_id(created: Seq<(Seq<u8>, Utxo)>, id: Seq<u8>, bound: int) -> int
    decreases bound,
{
    if bound <= 0 {
        -1
    } else if created[bound - 1].0 == id {
        bound - 1
    } else {
        last_with_id(created, id, bound - 1)
    }
}

/// Where some position below `bound` holds an output for `id`, the last one
/// does, and none after it.
proof fn lemma_last_with_id(
    created: Seq<(Seq<u8>, Utxo)>,
    id: Seq<u8>,
    bound: int,
    witness: int,
)
    requires
        0 <= witness < bound <= created.len(),
        created[witness].0 == id,
    ensures
        witness <= last_with_id(created, id, bound) < bound,
        created[last_with_id(created, id, bound)].0 == id,
        forall|k: int|
            last_with_id(created, id, bound) < k < bound ==> (#[trigger] created[k]).0 != id,
    decreases bound,
{
    if created[bound - 1].0 != id {
        lemma_last_with_id(created, id, bound - 1, witness);
    }
}

/// Nothing else changes: an identifier that no input of the transaction
/// refers to and none of its outputs is stored under holds after the
/// transaction what it held before.
pub proof fn lemma_other_entries_are_unaltered(
    store: Map<Seq<u8>, Utxo>,
    transaction: TransactionView,
    id: Seq<u8>,
)
    requires
        !transaction.input_ids().contains(id),
        !transaction.output_ids().contains(id),
    ensures
        applied(store, transaction).contains_key(id) == store.contains_key(id),
        store.contains_key(id) ==> applied(store, transaction)[id] == store[id],
{
    let created = transaction.created();
    assert forall|i: int| 0 <= i < created.len() implies (#[trigger] created[i]).0 != id by {
        assert(transaction.output_ids()[i] == created[i].0);
    }
    lemma_with_created_elsewhere(without_spent(store, transaction.input_ids()), created, id);
}

/// Two tests that agree on every item of a sequence keep the same items.
proof fn lemma_filter_agrees<A>(items: Seq<A>, first: spec_fn(A) -> bool, second: spec_fn(A) -> bool)
    requires
        forall|i: int| 0 <= i < items.len() ==> first(#[trigger] items[i]) == second(items[i]),
    ensures
        items.filter(first) == items.filter(second),
    decreases items.len(),
{
    reveal(Seq::filter);
    if items.len() > 0 {
        let rest = items.drop_last();
        lemma_filter_agrees(rest, first, second);
    }
}

/// Validation looks up nothing but the inputs: against two stores that hold
/// the same under every identifier that the transaction's inputs refer to, it
/// comes to the same verdict and names the same missing inputs.
pub proof fn lemma_validation_reads_only_the_inputs(
    transaction: TransactionView,
    from: AccountId32,
    first: Map<Seq<u8>, Utxo>,
    second: Map<Seq<u8>, Utxo>,
)
    requires
        forall|j: int|
            0 <= j < transaction.inputs.len() ==> {
                let id = (#[trigger] transaction.inputs[j]).utxo_id@;
                first.contains_key(id) == second.contains_key(id) && (first.contains_key(id)
                    ==> first[id] == second[id])
            },
    ensures
        rejection(transaction, from, first) == rejection(transaction, from, second),
        missing_inputs(transaction, first) == missing_inputs(transaction, second),
        refusal(transaction, from, first) == refusal(transaction, from, second),
{
    let ids = transaction.input_ids();
    lemma_filter_agrees(
        ids,
        |id: Seq<u8>| !first.contains_key(id),
        |id: Seq<u8>| !second.contains_key(id),
    );
}

/// A transaction that spends one identifier twice is rejected as duplicated,
/// whatever the store holds and whoever submits it. It is stated of the
/// transactions that have an output.
pub proof fn lemma_duplicated_input_is_rejected(
    store: Map<Seq<u8>, Utxo>,
    transaction: TransactionView,
    from: AccountId32,
    first: int,
    second: int,
)
    requires
        0 <= first < second < transaction.inputs.len(),
        transaction.inputs[first].utxo_id@ == transaction.inputs[second].utxo_id@,
        transaction.outputs.len() > 0,
    ensures
        rejection(transaction, from, store) == Some(Error::DuplicatedTransaction),
        refusal(transaction, from, store) == Some(Error::DuplicatedTransaction),
{
    let ids = transaction.input_ids();
    assert(ids[first] == ids[second]);
}

} // verus!
