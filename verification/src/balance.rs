//! The total value in the store, and how a transaction changes it.

use crate::laws::lemma_with_created_elsewhere;
use crate::ledger::{applied, with_created, without_spent};
use crate::transaction::{TransactionView, Utxo};
use vstd::prelude::*;
use vstd::set::fold::{is_fun_commutative, lemma_fold_empty, lemma_fold_insert};
use vstd::set_lib::lemma_map_size;

verus! {

/// The sum of the values of all outputs in a finite store.
pub open spec fn total_value(store: Map<Seq<u8>, Utxo>) -> int {
    store.kv_pairs().fold(0int, |sum: int, entry: (Seq<u8>, Utxo)| sum + entry.1.value)
}

/// The sum of the values that the store holds under the identifiers `ids`.
pub open spec fn spent_value(store: Map<Seq<u8>, Utxo>, ids: Seq<Seq<u8>>) -> int
    decreases ids.len(),
{
    if ids.len() == 0 {
        0
    } else {
        spent_value(store, ids.drop_last()) + if store.contains_key(ids.last()) {
            store[ids.last()].value as int
        } else {
            0
        }
    }
}

/// The sum of the values of a list of outputs.
pub open spec fn created_value(outputs: Seq<Utxo>) -> int
    decreases outputs.len(),
{
    if outputs.len() == 0 {
        0
    } else {
        created_value(outputs.drop_last()) + outputs.last().value
    }
}

/// A finite store has finitely many entries, and the order in which their
/// values are added up does not matter.
proof fn lemma_entries_are_finite(store: Map<Seq<u8>, Utxo>)
    requires
        store.dom().finite(),
    ensures
        store.kv_pairs().finite(),
        is_fun_commutative(|sum: int, entry: (Seq<u8>, Utxo)| sum + entry.1.value),
{
    let entry_of = |id: Seq<u8>| (id, store[id]);
    assert(store.dom().map(entry_of) =~= store.kv_pairs());
    lemma_map_size(store.dom(), store.kv_pairs(), entry_of);
}

/// The empty store holds no value.
pub proof fn lemma_total_value_of_nothing()
    ensures
        total_value(Map::empty()) == 0,
{
    assert(Map::<Seq<u8>, Utxo>::empty().kv_pairs() =~= Set::empty());
    lemma_fold_empty(0int, |sum: int, entry: (Seq<u8>, Utxo)| sum + entry.1.value);
}

/// An output stored under a new identifier adds its value to the total.
pub proof fn lemma_total_value_after_insert(store: Map<Seq<u8>, Utxo>, id: Seq<u8>, utxo: Utxo)
    requires
        store.dom().finite(),
        !store.contains_key(id),
    ensures
        total_value(store.insert(id, utxo)) == total_value(store) + utxo.value,
{
    lemma_entries_are_finite(store);
    assert(store.insert(id, utxo).kv_pairs() =~= store.kv_pairs().insert((id, utxo)));
    lemma_fold_insert(
        store.kv_pairs(),
        0int,
        |sum: int, entry: (Seq<u8>, Utxo)| sum + entry.1.value,
        (id, utxo),
    );
}

/// An output that is deleted takes its value from the total.
pub proof fn lemma_total_value_after_remove(store: Map<Seq<u8>, Utxo>, id: Seq<u8>)
    requires
        store.dom().finite(),
        store.contains_key(id),
    ensures
        total_value(store.remove(id)) == total_value(store) - store[id].value,
{
    let rest = store.remove(id);
    lemma_entries_are_finite(rest);
    assert(store.kv_pairs() =~= rest.kv_pairs().insert((id, store[id])));
    lemma_fold_insert(
        rest.kv_pairs(),
        0int,
        |sum: int, entry: (Seq<u8>, Utxo)| sum + entry.1.value,
        (id, store[id]),
    );
}

/// Deleting what distinct identifiers refer to takes from the total the
/// values that the store held under them.
proof fn lemma_total_value_without_spent(store: Map<Seq<u8>, Utxo>, ids: Seq<Seq<u8>>)
    requires
        store.dom().finite(),
        ids.no_duplicates(),
    ensures
        without_spent(store, ids).dom().finite(),
        total_value(without_spent(store, ids)) == total_value(store) - spent_value(store, ids),
    decreases ids.len(),
{
    if ids.len() == 0 {
        assert(without_spent(store, ids) =~= store);
    } else {
        let rest = ids.drop_last();
        let last = ids.last();
        lemma_total_value_without_spent(store, rest);
        let before = without_spent(store, rest);
        assert(ids =~= rest.push(last));
        rest.lemma_push_to_set_commute(last);
        assert(without_spent(store, ids) =~= before.remove(last));
        if store.contains_key(last) {
            lemma_total_value_after_remove(before, last);
        } else {
            assert(before.remove(last) =~= before);
        }
    }
}

/// Storing outputs under identifiers that are new and distinct adds their
/// values to the total.
proof fn lemma_total_value_with_created(store: Map<Seq<u8>, Utxo>, created: Seq<(Seq<u8>, Utxo)>)
    requires
        store.dom().finite(),
        forall|i: int| 0 <= i < created.len() ==> !store.contains_key((#[trigger] created[i]).0),
        forall|i: int, j: int|
            0 <= i < j < created.len() ==> (#[trigger] created[i]).0 != (#[trigger] created[j]).0,
    ensures
        with_created(store, created).dom().finite(),
        total_value(with_created(store, created)) == total_value(store) + created_value(
            created.map_values(|entry: (Seq<u8>, Utxo)| entry.1),
        ),
    decreases created.len(),
{
    let values = created.map_values(|entry: (Seq<u8>, Utxo)| entry.1);
    if created.len() > 0 {
        let rest = created.drop_last();
        let last = created.last();
        lemma_total_value_with_created(store, rest);
        lemma_with_created_elsewhere(store, rest, last.0);
        lemma_total_value_after_insert(with_created(store, rest), last.0, last.1);
        assert(values.drop_last() =~= rest.map_values(|entry: (Seq<u8>, Utxo)| entry.1));
    }
}

/// The balance of a transaction: where its inputs are distinct and its
/// outputs get identifiers that are distinct and not in use, applying it
/// changes the total value in the store by the value that it creates less the
/// value that it spends. Nothing makes the two equal.
pub proof fn lemma_value_balance(store: Map<Seq<u8>, Utxo>, transaction: TransactionView)
    requires
        store.dom().finite(),
        transaction.input_ids().no_duplicates(),
        transaction.output_ids().no_duplicates(),
        forall|i: int|
            0 <= i < transaction.outputs.len() ==> !without_spent(
                store,
                transaction.input_ids(),
            ).contains_key(#[trigger] transaction.output_id(i)),
    ensures
        applied(store, transaction).dom().finite(),
        total_value(applied(store, transaction)) == total_value(store) - spent_value(
            store,
            transaction.input_ids(),
        ) + created_value(transaction.outputs),
{
    let base = without_spent(store, transaction.input_ids());
    let created = transaction.created();
    lemma_total_value_without_spent(store, transaction.input_ids());
    assert forall|i: int, j: int| 0 <= i < j < created.len() implies (#[trigger] created[i]).0 != (
    #[trigger] created[j]).0 by {
        assert(transaction.output_ids()[i] == created[i].0);
        assert(transaction.output_ids()[j] == created[j].0);
    }
    lemma_total_value_with_created(base, created);
    assert(created.map_values(|entry: (Seq<u8>, Utxo)| entry.1) =~= transaction.outputs);
}

} // verus!
