//! The transaction data model, its canonical byte encoding, and the
//! identifiers derived from it.

use crate::encoding::{
    compact_len, compact_width, le_bytes, lemma_compact_len_width, lemma_le_bytes_len,
    lemma_pieces_len, push_compact_len, push_le_bytes,
};
use crate::hashing::{blake2_256_hash_of, hash_of_indexed};
use crate::primitives::{AccountId32, H256};
use vstd::prelude::*;

verus! {

/// The number of bytes that the length prefix of a list of `n` items takes.
fn compact_width_of(n: u32) -> (width: u64)
    ensures
        width == compact_width(n),
{
    if n < 0x40 {
        1
    } else if n < 0x4000 {
        2
    } else if n < 0x4000_0000 {
        4
    } else {
        5
    }
}

/// Appends the 32 bytes of `bytes` to `dest`.
fn push_bytes32(dest: &mut Vec<u8>, bytes: &[u8; 32])
    ensures
        final(dest)@ == old(dest)@ + bytes@,
{
    let mut i: usize = 0;
    while i < 32
        invariant
            i <= 32,
            dest@ == old(dest)@ + bytes@.take(i as int),
        decreases 32 - i,
    {
        dest.push(bytes[i]);
        i += 1;
    }
}

/// An unspent output: a value and the principal that may spend it.
#[derive(Clone, Copy, Debug, PartialEq, Eq)]
pub struct Utxo {
    pub value: u64,
    /// The owner of the output.
    pub owner: AccountId32,
}

impl Utxo {
    /// The output of `value` owned by `owner`.
    pub fn new(value: u64, owner: AccountId32) -> (utxo: Utxo)
        ensures
            utxo == (Utxo { value, owner }),
    {
        Utxo { value, owner }
    }

    /// The encoding of an output: the eight little-endian bytes of its
    /// value, then the 32 bytes of its owner.
    pub open spec fn encoding(self) -> Seq<u8> {
        le_bytes(self.value as nat, 8) + self.owner@
    }
}

/// A reference to an existing output that a transaction spends.
#[derive(Clone, Copy, Debug, PartialEq, Eq)]
pub struct TransactionInput {
    /// The identifier of the output to be spent.
    pub utxo_id: H256,
}

impl TransactionInput {
    /// The input that spends the output stored under `utxo_id`.
    pub fn new(utxo_id: H256) -> (input: TransactionInput)
        ensures
            input == (TransactionInput { utxo_id }),
    {
        TransactionInput { utxo_id }
    }
}

/// A transfer: the outputs it spends and the outputs it creates, both in
/// order.
#[derive(Debug, PartialEq, Eq)]
pub struct Transaction {
    pub inputs: Vec<TransactionInput>,
    pub outputs: Vec<Utxo>,
}

/// A transaction as a mathematical value.
pub struct TransactionView {
    pub inputs: Seq<TransactionInput>,
    pub outputs: Seq<Utxo>,
}

impl View for Transaction {
    type V = TransactionView;

    open spec fn view(&self) -> TransactionView {
        TransactionView { inputs: self.inputs@, outputs: self.outputs@ }
    }
}

impl Clone for Transaction {
    /// A transaction with the same inputs and outputs.
    fn clone(&self) -> (copy: Transaction)
        ensures
            copy@ == self@,
    {
        let mut inputs: Vec<TransactionInput> = Vec::new();
        let mut i: usize = 0;
        while i < self.inputs.len()
            invariant
                i <= self.inputs.len(),
                inputs@ == self.inputs@.take(i as int),
            decreases self.inputs.len() - i,
        {
            inputs.push(self.inputs[i]);
            assert(self.inputs@.take(i + 1) =~= self.inputs@.take(i as int).push(
                self.inputs@[i as int],
            ));
            i += 1;
        }
        assert(self.inputs@.take(self.inputs.len() as int) =~= self.inputs@);
        let mut outputs: Vec<Utxo> = Vec::new();
        let mut j: usize = 0;
        while j < self.outputs.len()
            invariant
                j <= self.outputs.len(),
                outputs@ == self.outputs@.take(j as int),
            decreases self.outputs.len() - j,
        {
            outputs.push(self.outputs[j]);
            assert(self.outputs@.take(j + 1) =~= self.outputs@.take(j as int).push(
                self.outputs@[j as int],
            ));
            j += 1;
        }
        assert(self.outputs@.take(self.outputs.len() as int) =~= self.outputs@);
        Transaction { inputs, outputs }
    }
}

/// The index that the output at position `position` is hashed with: the
/// position itself, held at the largest 64-bit value once it is reached.
pub open spec fn output_index(position: int) -> u64 {
    if position >= u64::MAX {
        u64::MAX
    } else if position < 0 {
        0
    } else {
        position as u64
    }
}

impl TransactionView {
    /// The identifiers that the inputs refer to, in order.
    pub open spec fn input_ids(self) -> Seq<Seq<u8>> {
        input_views(self.inputs)
    }

    /// The owners of the outputs, in order.
    pub open spec fn output_owners(self) -> Seq<AccountId32> {
        self.outputs.map_values(|output: Utxo| output.owner)
    }

    /// Whether the transaction has a canonical encoding: the length of each
    /// list must fit the 32-bit length prefix.
    pub open spec fn encodable(self) -> bool {
        self.inputs.len() <= u32::MAX && self.outputs.len() <= u32::MAX
    }

    /// The canonical encoding: the number of inputs, the identifier of each
    /// input, the number of outputs, the encoding of each output.
    pub open spec fn encoding(self) -> Seq<u8> {
        compact_len(self.inputs.len() as u32) + self.input_ids().flatten() + compact_len(
            self.outputs.len() as u32,
        ) + self.outputs.map_values(|output: Utxo| output.encoding()).flatten()
    }

    /// The length of the canonical encoding: the two length prefixes, 32
    /// bytes for each input and 40 for each output.
    pub open spec fn encoded_len(self) -> nat {
        compact_width(self.inputs.len() as u32) + 32 * self.inputs.len() + compact_width(
            self.outputs.len() as u32,
        ) + 40 * self.outputs.len()
    }

    /// Whether identifiers can be derived from the transaction: it must have
    /// a canonical encoding, and the encoding, which is hashed as a list of
    /// bytes, must itself fit the 32-bit length prefix.
    pub open spec fn hashable(self) -> bool {
        self.encodable() && self.encoded_len() <= u32::MAX
    }

    /// The encoding is as long as `encoded_len` says.
    pub proof fn lemma_encoded_len(self)
        ensures
            self.encoding().len() == self.encoded_len(),
    {
        let ids = self.input_ids();
        let outs = self.outputs.map_values(|output: Utxo| output.encoding());
        lemma_compact_len_width(self.inputs.len() as u32);
        lemma_compact_len_width(self.outputs.len() as u32);
        assert forall|i: int| 0 <= i < ids.len() implies (#[trigger] ids[i]).len() == 32 by {
            H256::lemma_view(self.inputs[i].utxo_id, self.inputs[i].utxo_id);
        }
        assert forall|i: int| 0 <= i < outs.len() implies (#[trigger] outs[i]).len() == 40 by {
            lemma_le_bytes_len(self.outputs[i].value as nat, 8);
            AccountId32::lemma_view(self.outputs[i].owner, self.outputs[i].owner);
        }
        lemma_pieces_len(ids, 32);
        lemma_pieces_len(outs, 40);
    }

    /// The identifier derived from the transaction and an index.
    pub open spec fn derived_id(self, index: u64) -> Seq<u8> {
        blake2_256_hash_of(self.encoding(), index)
    }

    /// The identifier of the output at `position`.
    pub open spec fn output_id(self, position: int) -> Seq<u8> {
        self.derived_id(output_index(position))
    }

    /// The identifiers of all outputs, in order.
    pub open spec fn output_ids(self) -> Seq<Seq<u8>> {
        Seq::new(self.outputs.len(), |position: int| self.output_id(position))
    }

    /// The outputs in order, each with the identifier under which it is to
    /// be stored.
    pub open spec fn created(self) -> Seq<(Seq<u8>, Utxo)> {
        Seq::new(
            self.outputs.len(),
            |position: int| (self.output_id(position), self.outputs[position]),
        )
    }
}

/// The identifiers that a list of inputs refers to, in order.
pub open spec fn input_views(inputs: Seq<TransactionInput>) -> Seq<Seq<u8>> {
    inputs.map_values(|input: TransactionInput| input.utxo_id@)
}

/// The views of a list of digests.
pub open spec fn digest_views(digests: Seq<H256>) -> Seq<Seq<u8>> {
    digests.map_values(|digest: H256| digest@)
}

/// A list of outputs with their digests, each digest by its view.
pub open spec fn entry_views(entries: Seq<(H256, Utxo)>) -> Seq<(Seq<u8>, Utxo)> {
    entries.map_values(|entry: (H256, Utxo)| (entry.0@, entry.1))
}

impl Transaction {
    /// Whether the transaction has a canonical encoding.
    pub fn is_encodable(&self) -> (fits: bool)
        ensures
            fits == self@.encodable(),
    {
        self.inputs.len() <= u32::MAX as usize && self.outputs.len() <= u32::MAX as usize
    }

    /// Whether identifiers can be derived from the transaction.
    pub fn is_hashable(&self) -> (fits: bool)
        ensures
            fits == self@.hashable(),
    {
        if !self.is_encodable() {
            return false;
        }
        let n_inputs: u64 = self.inputs.len() as u64;
        let n_outputs: u64 = self.outputs.len() as u64;
        let encoded_len: u64 = compact_width_of(n_inputs as u32) + 32 * n_inputs
            + compact_width_of(n_outputs as u32) + 40 * n_outputs;
        encoded_len <= u32::MAX as u64
    }

    /// The canonical encoding of the transaction.
    pub fn encode(&self) -> (bytes: Vec<u8>)
        requires
            self@.encodable(),
        ensures
            bytes@ == self@.encoding(),
    {
        let mut bytes: Vec<u8> = Vec::new();
        let n_inputs: usize = self.inputs.len();
        let n_outputs: usize = self.outputs.len();
        let ghost ids = self@.input_ids();
        let ghost outs = self@.outputs.map_values(|output: Utxo| output.encoding());
        push_compact_len(&mut bytes, n_inputs as u32);
        let ghost head = bytes@;
        let mut i: usize = 0;
        while i < n_inputs
            invariant
                i <= n_inputs,
                n_inputs == self.inputs.len(),
                ids == self@.input_ids(),
                bytes@ == head + ids.take(i as int).flatten(),
            decreases n_inputs - i,
        {
            push_bytes32(&mut bytes, &self.inputs[i].utxo_id.0);
            proof {
                assert(ids.take(i + 1) =~= ids.take(i as int).push(ids[i as int]));
                ids.take(i as int).lemma_flatten_push(ids[i as int]);
            }
            i += 1;
        }
        assert(ids.take(n_inputs as int) =~= ids);
        push_compact_len(&mut bytes, n_outputs as u32);
        let ghost middle = bytes@;
        let mut j: usize = 0;
        while j < n_outputs
            invariant
                j <= n_outputs,
                n_outputs == self.outputs.len(),
                outs == self@.outputs.map_values(|output: Utxo| output.encoding()),
                bytes@ == middle + outs.take(j as int).flatten(),
            decreases n_outputs - j,
        {
            push_le_bytes(&mut bytes, self.outputs[j].value, 8);
            push_bytes32(&mut bytes, &self.outputs[j].owner.0);
            proof {
                assert(outs.take(j + 1) =~= outs.take(j as int).push(outs[j as int]));
                outs.take(j as int).lemma_flatten_push(outs[j as int]);
            }
            j += 1;
        }
        assert(outs.take(n_outputs as int) =~= outs);
        bytes
    }

    /// The identifier derived from the transaction's full content and an
    /// index. Two calls on the same transaction and index give the same
    /// digest.
    pub fn hash_input_utxo(&self, index: u64) -> (digest: H256)
        requires
            self@.hashable(),
        ensures
            digest@ == self@.derived_id(index),
    {
        let encoding = self.encode();
        proof {
            self@.lemma_encoded_len();
        }
        hash_of_indexed(&encoding, index)
    }

    /// The identifiers of the outputs, in order: that of the output at
    /// position `i` is derived from the transaction and the index `i`.
    pub fn output_ids(&self) -> (ids: Vec<H256>)
        requires
            self@.hashable(),
        ensures
            digest_views(ids@) == self@.output_ids(),
    {
        let encoding = self.encode();
        proof {
            self@.lemma_encoded_len();
        }
        let n: usize = self.outputs.len();
        let mut ids: Vec<H256> = Vec::new();
        let mut index: u64 = 0;
        let mut i: usize = 0;
        while i < n
            invariant
                i <= n,
                n == self.outputs.len(),
                encoding@ == self@.encoding(),
                encoding@.len() <= u32::MAX,
                index == output_index(i as int),
                ids@.len() == i,
                forall|k: int| 0 <= k < i ==> (#[trigger] ids@[k])@ == self@.output_id(k),
            decreases n - i,
        {
            let digest = hash_of_indexed(&encoding, index);
            ids.push(digest);
            index = index.saturating_add(1);
            i += 1;
        }
        ids
    }

    /// The outputs in order, each with its identifier.
    pub fn created_outputs(&self) -> (created: Vec<(H256, Utxo)>)
        requires
            self@.hashable(),
        ensures
            entry_views(created@) == self@.created(),
    {
        let ids = self.output_ids();
        let n: usize = self.outputs.len();
        let mut created: Vec<(H256, Utxo)> = Vec::new();
        let mut i: usize = 0;
        assert(ids@.len() == n) by {
            assert(digest_views(ids@).len() == self@.output_ids().len());
        }
        while i < n
            invariant
                i <= n,
                n == self.outputs.len(),
                n == ids@.len(),
                digest_views(ids@) == self@.output_ids(),
                created@.len() == i,
                forall|k: int|
                    0 <= k < i ==> (#[trigger] created@[k]).0@ == self@.output_id(k)
                        && created@[k].1 == self.outputs@[k],
            decreases n - i,
        {
            assert(digest_views(ids@)[i as int] == ids@[i as int]@);
            created.push((ids[i], self.outputs[i]));
            i += 1;
        }
        created
    }
}

} // verus!
