//! Codec for pre-segwit Bitcoin transactions.
//!
//! The wire format, its encoder and its strict decoder are stated over
//! mathematical models of the data and proved against them. Beside the codec
//! stand a builder for transactions and the parser of the command line.

pub mod builder;
pub mod cli;
pub mod decode;
pub mod encode;
pub mod error;
pub mod little_endian;
pub mod point;
pub mod transaction;
pub mod wire;

pub use crate::builder::LegacyTransactionBuilder;
pub use crate::cli::{parse_cli_args, CliCommand};
pub use crate::encode::BitcoinSerialize;
pub use crate::error::BitcoinError;
pub use crate::point::Point;
pub use crate::transaction::{LegacyTransaction, OutPoint, TxInput, TxOutput};
