//! The state transition of the ledger: the one-time seeding, the update that
//! an admitted transaction makes, and the transfer that joins admission and
//! update.

use crate::primitives::{AccountId32, H256};
use crate::store::UtxoStore;
use crate::transaction::{
    entry_views, input_views, Transaction, TransactionInput, TransactionView, Utxo,
};
use crate::validity::{missing_inputs, rejection, validate_tx, Error};
use vstd::prelude::*;

verus! {

/// The store without the outputs stored under the identifiers `spent`.
pub open spec fn without_spent(store: Map<Seq<u8>, Utxo>, spent: Seq<Seq<u8>>) -> Map<
    Seq<u8>,
    Utxo,
> {
    store.remove_keys(spent.to_set())
}

/// The store after the outputs of `created` have been stored one after the
/// other, each under its identifier. Where two of them share an identifier,
/// the later one stays.
pub open spec fn with_created(store: Map<Seq<u8>, Utxo>, created: Seq<(Seq<u8>, Utxo)>) -> Map<
    Seq<u8>,
    Utxo,
>
    decreases created.len(),
{
    if created.len() == 0 {
        store
    } else {
        with_created(store, created.drop_last()).insert(created.last().0, created.last().1)
    }
}

/// The store after a transaction has been applied: its inputs are deleted,
/// then its outputs are stored under their identifiers.
pub open spec fn applied(store: Map<Seq<u8>, Utxo>, transaction: TransactionView) -> Map<
    Seq<u8>,
    Utxo,
> {
    with_created(without_spent(store, transaction.input_ids()), transaction.created())
}

/// Deletes from `store` what the inputs `spent` refer to, then stores each
/// output of `created` under the identifier it comes with.
pub fn spend_and_create(
    store: &mut UtxoStore,
    spent: &Vec<TransactionInput>,
    created: &Vec<(H256, Utxo)>,
)
    ensures
        final(store)@ == with_created(
            without_spent(old(store)@, input_views(spent@)),
            entry_views(created@),
        ),
{
    let ghost ids = input_views(spent@);
    let n_spent: usize = spent.len();
    let mut j: usize = 0;
    while j < n_spent
        invariant
            j <= n_spent,
            n_spent == spent.len(),
            ids == input_views(spent@),
            store@ == without_spent(old(store)@, ids.take(j as int)),
        decreases n_spent - j,
    {
        store.remove(&spent[j].utxo_id);
        proof {
            assert(ids.take(j + 1) =~= ids.take(j as int).push(ids[j as int]));
            ids.take(j as int).lemma_push_to_set_commute(ids[j as int]);
        }
        j += 1;
    }
    assert(ids.take(n_spent as int) =~= ids);
    let ghost base = store@;
    let ghost entries = entry_views(created@);
    let n_created: usize = created.len();
    let mut i: usize = 0;
    while i < n_created
        invariant
            i <= n_created,
            n_created == created.len(),
            entries == entry_views(created@),
            store@ == with_created(base, entries.take(i as int)),
        decreases n_created - i,
    {
        store.insert(created[i].0, created[i].1);
        proof {
            assert(entries.take(i + 1).drop_last() =~= entries.take(i as int));
        }
        i += 1;
    }
    assert(entries.take(n_created as int) =~= entries);
}

/// Applies a transaction to the store: deletes the outputs that its inputs
/// refer to, then stores each of its outputs under the identifier derived
/// from the transaction and the output's position. It checks nothing: the
/// caller has validated the transaction against this store, and found that
/// it waits for no input.
pub fn update_utxo_store(transaction: &Transaction, store: &mut UtxoStore) -> (done: Result<
    (),
    Error,
>)
    requires
        transaction@.hashable(),
    ensures
        done is Ok,
        final(store)@ == applied(old(store)@, transaction@),
{
    let created = transaction.created_outputs();
    spend_and_create(store, &transaction.inputs, &created);
    Ok(())
}

/// What seeds the ledger: the initial supply and, if there is one, the
/// principal that gets it.
#[derive(Clone, Copy, Debug)]
pub struct GenesisConfig {
    pub supply: u64,
    pub owner: Option<AccountId32>,
}

impl Default for GenesisConfig {
    /// No supply and no owner.
    fn default() -> (config: GenesisConfig)
        ensures
            config.supply == 0,
            config.owner is None,
    {
        GenesisConfig { supply: 0, owner: None }
    }
}

impl GenesisConfig {
    /// The store after seeding: with an owner, the whole supply is stored
    /// as one output of the owner under the all-zero identifier; without
    /// one, nothing changes.
    pub open spec fn seeded(self, store: Map<Seq<u8>, Utxo>) -> Map<Seq<u8>, Utxo> {
        match self.owner {
            Some(owner) => store.insert(H256::spec_zero(), Utxo { value: self.supply, owner }),
            None => store,
        }
    }

    /// Seeds the store. It is meant to run once, on the empty store: a
    /// second run stores the genesis output again, over whatever the
    /// all-zero identifier holds by then.
    pub fn build(&self, store: &mut UtxoStore)
        ensures
            final(store)@ == self.seeded(old(store)@),
    {
        if let Some(account) = self.owner {
            let utxo = Utxo { value: self.supply, owner: account };
            store.insert(H256::zero(), utxo);
        }
    }
}

/// What the ledger tells the outside after a change.
#[derive(Clone, Copy, Debug, PartialEq, Eq, Structural)]
pub enum Event {
    /// A user has successfully transferred a utxo.
    UtxoTransferred,
}

/// The reason for which a transfer submitted by `who` is refused against
/// `store`, if it is: the reason for which validation rejects the
/// transaction, or else that some input is not in the store.
pub open spec fn refusal(
    transaction: TransactionView,
    who: AccountId32,
    store: Map<Seq<u8>, Utxo>,
) -> Option<Error> {
    match rejection(transaction, who, store) {
        Some(error) => Some(error),
        None => if missing_inputs(transaction, store).len() > 0 {
            Some(Error::InputsNotSatisfied)
        } else {
            None
        },
    }
}

/// The ledger: the set of unspent outputs, which only seeding and transfers
/// change. Its view is the mapping from identifier to output.
#[derive(Debug)]
pub struct Pallet {
    store: UtxoStore,
}

impl View for Pallet {
    type V = Map<Seq<u8>, Utxo>;

    closed spec fn view(&self) -> Map<Seq<u8>, Utxo> {
        self.store@
    }
}

impl Pallet {
    /// The ledger that the genesis configuration seeds.
    pub fn new(genesis: &GenesisConfig) -> (pallet: Pallet)
        ensures
            pallet@ == genesis.seeded(Map::empty()),
    {
        let mut store = UtxoStore::new();
        genesis.build(&mut store);
        Pallet { store }
    }

    /// The unspent outputs, to read.
    pub fn store(&self) -> (store: &UtxoStore)
        ensures
            store@ == self@,
    {
        &self.store
    }

    /// The output stored under `id`, if there is one.
    pub fn utxo_store(&self, id: &H256) -> (found: Option<Utxo>)
        ensures
            found == if self@.contains_key(id@) {
                Some(self@[id@])
            } else {
                None
            },
    {
        self.store.get(id)
    }

    /// Carries out a transaction that the authenticated principal `who`
    /// submitted: validates it against the store, refuses it if it waits for
    /// an input, and else applies it. A refusal leaves the ledger as it was.
    /// On success the caller is handed the event to emit. Only a transaction
    /// that validation does not reject is hashed, so only such a one has to
    /// be hashable.
    pub fn transfer(&mut self, who: AccountId32, transaction: Transaction) -> (outcome: Result<
        Event,
        Error,
    >)
        requires
            rejection(transaction@, who, old(self)@) is None ==> transaction@.hashable(),
        ensures
            match outcome {
                Ok(event) => event == Event::UtxoTransferred && refusal(transaction@, who, old(self)@)
                    is None && final(self)@ == applied(old(self)@, transaction@),
                Err(error) => refusal(transaction@, who, old(self)@) == Some(error) && *final(self)
                    == *old(self),
            },
    {
        let validity = match validate_tx(&transaction, who, &self.store) {
            Ok(validity) => validity,
            Err(error) => {
                return Err(error);
            },
        };
        if !validity.requires.is_empty() {
            return Err(Error::InputsNotSatisfied);
        }
        match update_utxo_store(&transaction, &mut self.store) {
            Ok(()) => Ok(Event::UtxoTransferred),
            Err(error) => Err(error),
        }
    }
}

} // verus!
