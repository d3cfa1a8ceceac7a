//! Hexadecimal text: the form in which bytes travel to and from a node.

use vstd::prelude::*;
use vstd::string::{StrSliceExecFns, StringExecFns};
use crate::client::{has_0x_prefix, remove_0x, without_0x};
use crate::error::ToolError;

verus! {

/// The lower-case hexadecimal digit of `n`, for `0 <= n < 16`.
pub open spec fn hex_digit(n: int) -> char {
    if n < 10 {
        ((48 + n) as u8) as char
    } else {
        ((87 + n) as u8) as char
    }
}

/// The value of a hexadecimal digit of either case, or -1 for any other
/// character.
pub open spec fn digit_value(c: char) -> int {
    let n = c as int;
    if 48 <= n <= 57 {
        n - 48
    } else if 97 <= n <= 102 {
        n - 87
    } else if 65 <= n <= 70 {
        n - 55
    } else {
        -1
    }
}

/// Two lower-case digits for each byte, the high half first.
pub open spec fn hex_text(bytes: Seq<u8>) -> Seq<char> {
    Seq::new(
        2 * bytes.len(),
        |i: int|
            if i % 2 == 0 {
                hex_digit(bytes[i / 2] as int / 16)
            } else {
                hex_digit(bytes[i / 2] as int % 16)
            },
    )
}

/// An even number of hexadecimal digits, of either case.
pub open spec fn is_hex_text(text: Seq<char>) -> bool {
    &&& text.len() % 2 == 0
    &&& forall|i: int| 0 <= i < text.len() ==> digit_value(#[trigger] text[i]) >= 0
}

/// The bytes that hexadecimal text stands for.
pub open spec fn hex_value(text: Seq<char>) -> Seq<u8> {
    Seq::new(
        text.len() / 2,
        |i: int| (16 * digit_value(text[2 * i]) + digit_value(text[2 * i + 1])) as u8,
    )
}

/// `hex::FromHexError`, carried from `hex::decode` to where it is mapped.
#[verifier::external_type_specification]
#[verifier::external_body]
pub struct ExFromHexError(hex::FromHexError);

/// `hex::encode`: two lower-case digits per byte, in order.
#[verifier::external_body]
fn encode_digits(bytes: &[u8]) -> (text: String)
    ensures
        text@ == hex_text(bytes@),
{
    hex::encode(bytes)
}

/// `hex::decode`: succeeds on an even number of hexadecimal digits of either
/// case and on nothing else, and then gives one byte per pair of digits.
#[verifier::external_body]
fn decode_digits(text: &str) -> (bytes: Result<Vec<u8>, hex::FromHexError>)
    ensures
        bytes is Ok <==> is_hex_text(text@),
        bytes is Ok ==> bytes->Ok_0@ == hex_value(text@),
{
    hex::decode(text)
}

/// Reading back what was written gives the bytes again.
pub proof fn lemma_hex_round_trip(bytes: Seq<u8>)
    ensures
        is_hex_text(hex_text(bytes)),
        hex_value(hex_text(bytes)) == bytes,
{
    let text = hex_text(bytes);
    assert forall|n: int| 0 <= n < 16 implies digit_value(#[trigger] hex_digit(n)) == n by {}
    assert forall|i: int| 0 <= i < text.len() implies digit_value(#[trigger] text[i]) >= 0 by {
        let b = bytes[i / 2] as int;
        assert(0 <= b / 16 < 16 && 0 <= b % 16 < 16);
    }
    assert forall|i: int| 0 <= i < bytes.len() implies #[trigger] hex_value(text)[i]
        == bytes[i] by {
        let b = bytes[i] as int;
        assert(0 <= b / 16 < 16 && 0 <= b % 16 < 16);
        assert((2 * i) / 2 == i && (2 * i + 1) / 2 == i);
        assert((2 * i) % 2 == 0 && (2 * i + 1) % 2 == 1);
        assert(text[2 * i] == hex_digit(b / 16));
        assert(text[2 * i + 1] == hex_digit(b % 16));
        assert(16 * (b / 16) + b % 16 == b);
    }
    assert(hex_value(text) =~= bytes);
}

/// The bytes as lower-case hexadecimal text, without a prefix.
pub fn to_hex(bytes: &[u8]) -> (text: String)
    ensures
        text@ == hex_text(bytes@),
{
    encode_digits(bytes)
}

/// The bytes as lower-case hexadecimal text behind the prefix "0x".
pub fn to_prefixed_hex(bytes: &[u8]) -> (text: String)
    ensures
        text@ == "0x"@ + hex_text(bytes@),
{
    let digits = encode_digits(bytes);
    String::from_str("0x").concat(digits.as_str())
}

/// The bytes that an even number of hexadecimal digits stand for. No
/// prefix is taken.
pub fn from_digits(text: &str) -> (bytes: Option<Vec<u8>>)
    ensures
        bytes is Some <==> is_hex_text(text@),
        bytes is Some ==> bytes->0@ == hex_value(text@),
{
    match decode_digits(text) {
        Ok(bytes) => Some(bytes),
        Err(_) => None,
    }
}

/// The bytes that `text` stands for. A prefix "0x" or "0X" is dropped first;
/// what remains must be an even number of hexadecimal digits of either case.
pub fn from_hex(text: &str) -> (bytes: Result<Vec<u8>, ToolError>)
    ensures
        bytes is Ok <==> is_hex_text(without_0x(text@)),
        bytes is Ok ==> bytes->Ok_0@ == hex_value(without_0x(text@)),
        bytes is Err ==> bytes->Err_0 == ToolError::InvalidHex,
{
    match decode_digits(remove_0x(text)) {
        Ok(bytes) => Ok(bytes),
        Err(_) => Err(ToolError::InvalidHex),
    }
}

/// Prefixed text reads back as the bytes it was written from.
pub proof fn lemma_prefixed_hex_round_trip(bytes: Seq<u8>)
    ensures
        is_hex_text(without_0x("0x"@ + hex_text(bytes))),
        hex_value(without_0x("0x"@ + hex_text(bytes))) == bytes,
{
    reveal_strlit("0x");
    let text = "0x"@ + hex_text(bytes);
    assert(has_0x_prefix(text));
    assert(text.subrange(2, text.len() as int) =~= hex_text(bytes));
    lemma_hex_round_trip(bytes);
}

/// Whether two texts are the same.
pub fn same_text(a: &str, b: &str) -> (same: bool)
    ensures
        same == (a@ == b@),
{
    let n = a.unicode_len();
    if b.unicode_len() != n {
        return false;
    }
    let mut i: usize = 0;
    while i < n
        invariant
            i <= n,
            n == a@.len(),
            n == b@.len(),
            forall|j: int| 0 <= j < i ==> a@[j] == b@[j],
        decreases n - i,
    {
        if a.get_char(i) != b.get_char(i) {
            return false;
        }
        i += 1;
    }
    proof {
        assert(a@ =~= b@);
    }
    true
}

} // verus!
