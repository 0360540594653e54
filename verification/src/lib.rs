//! Accounting and transaction-assembly core of a single-address UTXO wallet.
//!
//! The wallet tracks the confirmed coins locked by one covenant address and
//! the outgoing transactions that have been broadcast but not yet confirmed,
//! and prepares correctly funded, correctly fee'd, signed transactions from
//! that set.

pub mod types;
pub mod extern_types;
pub mod ledger;
pub mod signer;
pub mod tally;
pub mod wallet;
pub mod prepare;

pub use types::{Address, TxHash, CoinID, Denom, TxKind, CoinData, CoinDataHeight, Tx};
pub use wallet::{Wallet, AddCoinsError};
pub use prepare::{PrepareTxArgs, PrepareTxError};
pub use signer::{Signer, StdEd25519Signer};
