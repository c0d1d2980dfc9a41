//! Encoding and decoding of a subset of the Bitcoin transaction wire format:
//! CompactSize integers, outpoints, scripts, transaction inputs and
//! transactions, each with an executable codec and a specification of its
//! byte layout.
pub mod error;
pub mod le_bytes;
pub mod compact_size;
pub mod outpoint;
pub mod script;
pub mod input;
pub mod transaction;
pub mod hex_text;

pub use error::BitcoinError;
pub use compact_size::CompactSize;
pub use outpoint::{OutPoint, Txid};
pub use script::Script;
pub use input::TransactionInput;
pub use transaction::BitcoinTransaction;
