//! Transaction-construction engine of a UTXO wallet: the pool of spendable
//! outputs of an account, coin selection over it, the mass and fee model of a
//! candidate transaction, and the adjustment of its change output to the fee.

pub mod address;
pub mod error;
pub mod limits;
pub mod tx;
pub mod utxo;
pub mod selection;
pub mod storage;
pub mod account;
pub mod pending;

pub use address::{Address, Prefix, ScriptPublicKey, Version};
pub use error::Error;
pub use limits::{MassCalculator, Params};
pub use selection::{UtxoIterator, UtxoSelectionContext};
pub use tx::{
    adjust_transaction_for_fee, create_transaction, MutableTransaction, PaymentOutput, PaymentOutputs,
    Transaction, TransactionId, TransactionInput, TransactionOutpoint, TransactionOutput,
};
pub use utxo::{UtxoEntry, UtxoEntryId, UtxoEntryReference, UtxoSet};
