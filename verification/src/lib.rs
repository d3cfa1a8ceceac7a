//! Client-side construction of signed transactions: hexadecimal text forms,
//! the transaction records and their wire layout, key pairs of two algorithm
//! families, call-data encoding, and the builder that ties them together.

pub mod abi;
pub mod abi_call;
pub mod abi_decimal;
pub mod abi_decode;
pub mod abi_encode;
pub mod abi_kinds;
pub mod abi_laws;
pub mod abi_text;
pub mod abi_words;
pub mod address;
pub mod builder;
pub mod client;
pub mod contract;
pub mod crypto;
pub mod envelope;
pub mod error;
pub mod text;
pub mod transaction;
pub mod wire;

pub use abi::{Kind, Value};
pub use abi_call::{decode_params, encode_params};
pub use abi_text::encode;
pub use address::Address;
pub use builder::{build_and_sign, build_unsigned, sign_transaction, SignedTransaction};
pub use client::remove_0x;
pub use client::transaction_option::TransactionOption;
pub use crypto::{derive_address, digest, recover_or_verify, KeyPair};
pub use envelope::{Crypto, Signature, UnverifiedTransaction};
pub use error::ToolError;
pub use transaction::Transaction;
