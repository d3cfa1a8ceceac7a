//! Account and contract addresses: twenty bytes, written as forty
//! hexadecimal digits behind "0x".

use vstd::prelude::*;
use crate::client::without_0x;
use crate::error::ToolError;
use crate::text::{
    from_hex, hex_text, hex_value, is_hex_text, lemma_prefixed_hex_round_trip, to_prefixed_hex,
};

verus! {

/// The number of bytes in an address.
pub const ADDRESS_LEN: usize = 20;

/// A 20-byte address.
#[derive(Debug, Clone, Copy, PartialEq, Eq)]
pub struct Address {
    pub bytes: [u8; 20],
}

impl View for Address {
    type V = Seq<u8>;

    open spec fn view(&self) -> Seq<u8> {
        self.bytes@
    }
}

/// Whether `text` is the textual form of an address: forty hexadecimal
/// digits of either case, with or without the prefix "0x" or "0X".
pub open spec fn is_address_text(text: Seq<char>) -> bool {
    is_hex_text(without_0x(text)) && without_0x(text).len() == 40
}

/// The canonical textual form of twenty bytes.
pub open spec fn address_text(bytes: Seq<u8>) -> Seq<char> {
    "0x"@ + hex_text(bytes)
}

impl Address {
    /// The address made of `bytes`, which must be twenty.
    pub fn from_slice(bytes: &[u8]) -> (r: Option<Address>)
        ensures
            r is Some <==> bytes@.len() == 20,
            r is Some ==> r->0@ == bytes@,
    {
        if bytes.len() != ADDRESS_LEN {
            return None;
        }
        let mut out: [u8; 20] = [0u8; 20];
        let mut i: usize = 0;
        while i < ADDRESS_LEN
            invariant
                i <= 20,
                bytes@.len() == 20,
                forall|j: int| 0 <= j < i ==> out@[j] == bytes@[j],
            decreases 20 - i,
        {
            out[i] = bytes[i];
            i += 1;
        }
        proof {
            assert(out@ =~= bytes@);
        }
        Some(Address { bytes: out })
    }

    /// Read an address from its textual form: forty hexadecimal digits of
    /// either case, behind an optional "0x" or "0X".
    pub fn from_text(text: &str) -> (r: Result<Address, ToolError>)
        ensures
            r is Ok <==> is_address_text(text@),
            r is Ok ==> r->Ok_0@ == hex_value(without_0x(text@)),
            r is Err ==> r->Err_0 == ToolError::MalformedAddress,
    {
        match from_hex(text) {
            Ok(bytes) => match Address::from_slice(bytes.as_slice()) {
                Some(address) => Ok(address),
                None => Err(ToolError::MalformedAddress),
            },
            Err(_) => Err(ToolError::MalformedAddress),
        }
    }

    /// The canonical textual form: "0x" and forty lower-case digits.
    pub fn to_text(&self) -> (text: String)
        ensures
            text@ == address_text(self@),
    {
        to_prefixed_hex(self.bytes.as_slice())
    }
}

/// The textual form of an address reads back as the address.
pub proof fn lemma_address_text_round_trip(bytes: Seq<u8>)
    requires
        bytes.len() == 20,
    ensures
        is_address_text(address_text(bytes)),
        hex_value(without_0x(address_text(bytes))) == bytes,
{
    lemma_prefixed_hex_round_trip(bytes);
}

} // verus!
