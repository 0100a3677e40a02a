//! The encoding of a transaction is canonical: it tells any two transactions
//! apart.

use crate::encoding::{
    compact_len, le_bytes, lemma_byte_ranges, lemma_compact_len_is_prefix_free,
    lemma_le_bytes_len, lemma_le_bytes_value,
};
use crate::primitives::{AccountId32, H256};
use crate::transaction::{TransactionView, Utxo};
use vstd::prelude::*;

verus! {

/// Where two byte strings each begin with as many pieces of one size, and
/// the strings are equal, the pieces are equal one by one, and so is what
/// follows them.
proof fn lemma_pieces_are_told_apart(
    first: Seq<Seq<u8>>,
    after_first: Seq<u8>,
    second: Seq<Seq<u8>>,
    after_second: Seq<u8>,
    size: nat,
)
    requires
        first.len() == second.len(),
        forall|i: int| 0 <= i < first.len() ==> (#[trigger] first[i]).len() == size,
        forall|i: int| 0 <= i < second.len() ==> (#[trigger] second[i]).len() == size,
        first.flatten() + after_first == second.flatten() + after_second,
    ensures
        first == second,
        after_first == after_second,
    decreases first.len(),
{
    if first.len() > 0 {
        let left = first.flatten() + after_first;
        let right = second.flatten() + after_second;
        let rest_first = first.drop_first().flatten() + after_first;
        let rest_second = second.drop_first().flatten() + after_second;
        assert(first[0] =~= left.subrange(0, size as int));
        assert(second[0] =~= right.subrange(0, size as int));
        assert(rest_first =~= left.subrange(size as int, left.len() as int));
        assert(rest_second =~= right.subrange(size as int, right.len() as int));
        lemma_pieces_are_told_apart(
            first.drop_first(),
            after_first,
            second.drop_first(),
            after_second,
            size,
        );
        assert forall|i: int| 0 <= i < first.len() implies first[i] == second[i] by {
            if i > 0 {
                assert(first[i] == first.drop_first()[i - 1]);
                assert(second[i] == second.drop_first()[i - 1]);
            }
        }
    }
}

/// The encoding is canonical: two transactions with the same encoding have
/// the same inputs and the same outputs, in the same order.
pub proof fn lemma_encoding_is_injective(first: TransactionView, second: TransactionView)
    requires
        first.encodable(),
        second.encodable(),
        first.encoding() == second.encoding(),
    ensures
        first == second,
{
    let first_ids = first.input_ids();
    let second_ids = second.input_ids();
    let first_outs = first.outputs.map_values(|output: Utxo| output.encoding());
    let second_outs = second.outputs.map_values(|output: Utxo| output.encoding());
    let first_tail = compact_len(first.outputs.len() as u32) + first_outs.flatten();
    let second_tail = compact_len(second.outputs.len() as u32) + second_outs.flatten();
    assert(first.encoding() =~= compact_len(first.inputs.len() as u32) + (first_ids.flatten()
        + first_tail));
    assert(second.encoding() =~= compact_len(second.inputs.len() as u32) + (second_ids.flatten()
        + second_tail));
    lemma_compact_len_is_prefix_free(
        first.inputs.len() as u32,
        first_ids.flatten() + first_tail,
        second.inputs.len() as u32,
        second_ids.flatten() + second_tail,
    );
    assert forall|i: int| 0 <= i < first_ids.len() implies (#[trigger] first_ids[i]).len()
        == 32 by {
        H256::lemma_view(first.inputs[i].utxo_id, first.inputs[i].utxo_id);
    }
    assert forall|i: int| 0 <= i < second_ids.len() implies (#[trigger] second_ids[i]).len()
        == 32 by {
        H256::lemma_view(second.inputs[i].utxo_id, second.inputs[i].utxo_id);
    }
    lemma_pieces_are_told_apart(first_ids, first_tail, second_ids, second_tail, 32);
    lemma_compact_len_is_prefix_free(
        first.outputs.len() as u32,
        first_outs.flatten(),
        second.outputs.len() as u32,
        second_outs.flatten(),
    );
    assert forall|i: int| 0 <= i < first_outs.len() implies (#[trigger] first_outs[i]).len()
        == 40 by {
        lemma_le_bytes_len(first.outputs[i].value as nat, 8);
        AccountId32::lemma_view(first.outputs[i].owner, first.outputs[i].owner);
    }
    assert forall|i: int| 0 <= i < second_outs.len() implies (#[trigger] second_outs[i]).len()
        == 40 by {
        lemma_le_bytes_len(second.outputs[i].value as nat, 8);
        AccountId32::lemma_view(second.outputs[i].owner, second.outputs[i].owner);
    }
    lemma_pieces_are_told_apart(
        first_outs,
        Seq::<u8>::empty(),
        second_outs,
        Seq::<u8>::empty(),
        40,
    );
    assert forall|i: int| 0 <= i < first.inputs.len() implies first.inputs[i]
        == second.inputs[i] by {
        assert(first_ids[i] == second_ids[i]);
        H256::lemma_view(first.inputs[i].utxo_id, second.inputs[i].utxo_id);
    }
    assert(first.inputs =~= second.inputs);
    assert forall|i: int| 0 <= i < first.outputs.len() implies first.outputs[i]
        == second.outputs[i] by {
        assert(first_outs[i] == first.outputs[i].encoding());
        assert(second_outs[i] == second.outputs[i].encoding());
        lemma_output_encoding_is_injective(first.outputs[i], second.outputs[i]);
    }
    assert(first.outputs =~= second.outputs);
}

/// Two outputs with the same encoding are the same output.
pub proof fn lemma_output_encoding_is_injective(first: Utxo, second: Utxo)
    requires
        first.encoding() == second.encoding(),
    ensures
        first == second,
{
    let bytes = first.encoding();
    lemma_le_bytes_len(first.value as nat, 8);
    lemma_le_bytes_len(second.value as nat, 8);
    assert(le_bytes(first.value as nat, 8) =~= bytes.subrange(0, 8));
    assert(le_bytes(second.value as nat, 8) =~= bytes.subrange(0, 8));
    assert(first.owner@ =~= bytes.subrange(8, bytes.len() as int));
    assert(second.owner@ =~= bytes.subrange(8, bytes.len() as int));
    lemma_byte_ranges();
    lemma_le_bytes_value(first.value as nat, 8);
    lemma_le_bytes_value(second.value as nat, 8);
    AccountId32::lemma_view(first.owner, second.owner);
}

} // verus!
