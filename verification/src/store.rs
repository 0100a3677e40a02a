//! The set of unspent outputs: a mapping from identifier to output.

use crate::encoding::{
    halves, halves_of, le_bytes, lemma_byte_ranges, lemma_halves_are_injective,
    lemma_le_bytes_len, lemma_le_bytes_value,
};
use crate::primitives::H256;
use crate::transaction::Utxo;
use std::collections::BTreeMap;
use vstd::prelude::*;
use vstd::relations::injective_on;
use vstd::set_lib::lemma_map_size;
use vstd::std_specs::btree::group_btree_axioms;

verus! {

/// The mapping from identifier to output that a mapping from the halves of
/// the identifiers stands for.
spec fn by_identifier(entries: Map<(u128, u128), Utxo>) -> Map<Seq<u8>, Utxo> {
    Map::new(
        |id: Seq<u8>| id.len() == 32 && entries.contains_key(halves(id)),
        |id: Seq<u8>| entries[halves(id)],
    )
}

/// The 32-byte string with the given halves.
spec fn joined(key: (u128, u128)) -> Seq<u8> {
    le_bytes(key.0 as nat, 16) + le_bytes(key.1 as nat, 16)
}

/// Every pair of halves belongs to one 32-byte string.
proof fn lemma_joined(key: (u128, u128))
    ensures
        joined(key).len() == 32,
        halves(joined(key)) == key,
{
    lemma_byte_ranges();
    lemma_le_bytes_len(key.0 as nat, 16);
    lemma_le_bytes_len(key.1 as nat, 16);
    lemma_le_bytes_value(key.0 as nat, 16);
    lemma_le_bytes_value(key.1 as nat, 16);
    assert(joined(key).subrange(0, 16) =~= le_bytes(key.0 as nat, 16));
    assert(joined(key).subrange(16, 32) =~= le_bytes(key.1 as nat, 16));
}

/// A finite mapping holds as many outputs by identifier as by halves.
proof fn lemma_by_identifier_len(entries: Map<(u128, u128), Utxo>)
    requires
        entries.dom().finite(),
    ensures
        by_identifier(entries).dom().finite(),
        by_identifier(entries).len() == entries.len(),
{
    let join = |key: (u128, u128)| joined(key);
    assert(injective_on(join, entries.dom())) by {
        assert forall|first: (u128, u128), second: (u128, u128)| #[trigger]
            join(first) == #[trigger] join(second) implies first == second by {
            lemma_joined(first);
            lemma_joined(second);
        }
    }
    assert(entries.dom().map(join) =~= by_identifier(entries).dom()) by {
        assert forall|id: Seq<u8>| by_identifier(entries).dom().contains(id) implies
            entries.dom().map(join).contains(id) by {
            lemma_joined(halves(id));
            lemma_halves_are_injective(id, joined(halves(id)));
        }
        assert forall|id: Seq<u8>| entries.dom().map(join).contains(id) implies by_identifier(
            entries,
        ).dom().contains(id) by {
            let key = choose|key: (u128, u128)| entries.dom().contains(key) && join(key) == id;
            lemma_joined(key);
        }
    }
    lemma_map_size(entries.dom(), by_identifier(entries).dom(), join);
}

/// The unspent outputs, each stored under its identifier. Its view is the
/// mapping from the bytes of an identifier to the output stored under it; an
/// identifier that is absent was never created or has been spent.
#[derive(Debug)]
pub struct UtxoStore {
    entries: BTreeMap<(u128, u128), Utxo>,
}

impl View for UtxoStore {
    type V = Map<Seq<u8>, Utxo>;

    closed spec fn view(&self) -> Map<Seq<u8>, Utxo> {
        by_identifier(self.entries@)
    }
}

impl Clone for UtxoStore {
    /// A store that holds the same outputs under the same identifiers.
    fn clone(&self) -> (copy: UtxoStore)
        ensures
            copy@ == self@,
    {
        UtxoStore { entries: self.entries.clone() }
    }
}

impl Default for UtxoStore {
    /// The store that holds no output.
    fn default() -> (store: UtxoStore)
        ensures
            store@ == Map::<Seq<u8>, Utxo>::empty(),
    {
        UtxoStore::new()
    }
}

impl UtxoStore {
    /// The store that holds no output.
    pub fn new() -> (store: UtxoStore)
        ensures
            store@ == Map::<Seq<u8>, Utxo>::empty(),
    {
        UtxoStore { entries: BTreeMap::new() }
    }

    /// The number of outputs in the store.
    pub fn len(&self) -> (n: usize)
        ensures
            self@.dom().finite(),
            n == self@.len(),
    {
        broadcast use group_btree_axioms;

        proof {
            lemma_by_identifier_len(self.entries@);
        }
        self.entries.len()
    }

    /// The output stored under `id`, if there is one.
    pub fn get(&self, id: &H256) -> (found: Option<Utxo>)
        ensures
            found == if self@.contains_key(id@) {
                Some(self@[id@])
            } else {
                None
            },
    {
        broadcast use group_btree_axioms;

        let key = halves_of(&id.0);
        match self.entries.get(&key) {
            Some(utxo) => Some(*utxo),
            None => None,
        }
    }

    /// Stores `utxo` under `id`, in place of what was stored there.
    pub fn insert(&mut self, id: H256, utxo: Utxo)
        ensures
            final(self)@ == old(self)@.insert(id@, utxo),
    {
        broadcast use group_btree_axioms;

        let key = halves_of(&id.0);
        self.entries.insert(key, utxo);
        proof {
            assert forall|other: Seq<u8>| other.len() == 32 && halves(other) == key implies other
                == id@ by {
                lemma_halves_are_injective(other, id@);
            }
        }
    }

    /// Deletes what is stored under `id`; nothing changes if nothing is.
    pub fn remove(&mut self, id: &H256)
        ensures
            final(self)@ == old(self)@.remove(id@),
    {
        broadcast use group_btree_axioms;

        let key = halves_of(&id.0);
        self.entries.remove(&key);
        proof {
            assert forall|other: Seq<u8>| other.len() == 32 && halves(other) == key implies other
                == id@ by {
                lemma_halves_are_injective(other, id@);
            }
        }
    }
}

} // verus!
