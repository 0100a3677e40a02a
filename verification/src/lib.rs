//! A ledger of unspent transaction outputs: the transaction model and the
//! identifiers derived from it, the validation of a proposed transaction
//! against the current set of outputs, and the update that an admitted
//! transaction makes to that set.

pub mod balance;
pub mod canonical;
pub mod encoding;
pub mod hashing;
pub mod laws;
pub mod ledger;
pub mod primitives;
pub mod store;
pub mod transaction;
pub mod validity;

pub use ledger::{update_utxo_store, Event, GenesisConfig, Pallet};
pub use primitives::{AccountId32, H256};
pub use store::UtxoStore;
pub use transaction::{Transaction, TransactionInput, Utxo};
pub use validity::{validate_tx, Error, ValidTransaction};
