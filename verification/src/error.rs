//! The errors that the library reports.

use vstd::prelude::*;
use crate::abi::Kind;

verus! {

/// Why a request could not be turned into a signed transaction, or a reply
/// into values.
#[derive(Debug, PartialEq, Eq)]
pub enum ToolError {
    /// The argument at `index` is no value of its declared kind.
    TypeMismatch { index: usize, declared: Kind },
    /// The number of arguments differs from the number of declared types.
    ArityError { expected: usize, found: usize },
    /// The declared kind at `index` is no kind of the calling convention.
    UnknownType { index: usize },
    /// The encoded arguments would hold an offset beyond the machine's reach.
    Oversized,
    /// The interface declares no function of the name that was asked for.
    UnknownFunction,
    /// Encoded call data is truncated or its offsets do not fit.
    DecodeError,
    /// A private key of the wrong length.
    InvalidKeyLength { expected: usize, found: usize },
    /// A private key of the right length that is no key of its family.
    InvalidKeyMaterial,
    /// A signature that does not belong to the digest.
    InvalidSignature,
    /// Bytes that are not the canonical layout of a transaction.
    MalformedTransaction,
    /// Text that is not an even number of hexadecimal digits.
    InvalidHex,
    /// Text that is not a 20-byte address.
    MalformedAddress,
    /// No quota was chosen for the transaction.
    MissingQuota,
    /// No block height was chosen, and none was looked up.
    MissingHeight,
    /// The height plus the validity window does not fit in 64 bits.
    HeightOutOfRange,
}

} // verus!
