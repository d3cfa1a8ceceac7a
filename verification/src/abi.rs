//! The calling convention: the kinds of argument a function declares, the
//! values that fit them, and the bytes that stand for a list of values.
//!
//! Every value takes a whole number of 32-byte words. A list is written as
//! its heads followed by its tails. A value of a static kind stands in the
//! heads itself. A value of a dynamic kind stands in the tails, and its head
//! is a word that holds the distance from the start of the list to it.

use vstd::prelude::*;

verus! {

/// The kind of an argument.
#[derive(Debug, PartialEq, Eq)]
pub enum Kind {
    /// An unsigned integer of the given number of bits.
    Uint(usize),
    /// A signed integer of the given number of bits, in two's complement.
    Int(usize),
    /// A truth value.
    Bool,
    /// A 20-byte address.
    Address,
    /// A byte string of the given length, 1 to 32.
    FixedBytes(usize),
    /// A byte string of any length.
    Bytes,
    /// Any number of values of one kind.
    Array(Box<Kind>),
    /// The given number of values of one kind.
    FixedArray(Box<Kind>, usize),
    /// One value of each of the given kinds.
    Tuple(Vec<Kind>),
}

/// An argument.
#[derive(Debug, PartialEq, Eq)]
pub enum Value {
    /// An unsigned integer as 32 bytes, most significant first.
    Uint([u8; 32]),
    /// A signed integer as 32 bytes in two's complement, most significant
    /// first.
    Int([u8; 32]),
    Bool(bool),
    Address([u8; 20]),
    FixedBytes(Vec<u8>),
    Bytes(Vec<u8>),
    Array(Vec<Value>),
    FixedArray(Vec<Value>),
    Tuple(Vec<Value>),
}

/// An argument as plain values.
pub enum ValueView {
    Uint(Seq<u8>),
    Int(Seq<u8>),
    Bool(bool),
    Address(Seq<u8>),
    FixedBytes(Seq<u8>),
    Bytes(Seq<u8>),
    Array(Seq<ValueView>),
    FixedArray(Seq<ValueView>),
    Tuple(Seq<ValueView>),
}

/// The values of a list as plain values.
pub open spec fn views_of(values: Seq<Value>) -> Seq<ValueView>
    decreases values,
{
    Seq::new(
        values.len(),
        |i: int|
            if 0 <= i < values.len() {
                value_view(values[i])
            } else {
                ValueView::Bool(false)
            },
    )
}

/// A value as plain values.
pub open spec fn value_view(value: Value) -> ValueView
    decreases value,
{
    match value {
        Value::Uint(w) => ValueView::Uint(w@),
        Value::Int(w) => ValueView::Int(w@),
        Value::Bool(b) => ValueView::Bool(b),
        Value::Address(a) => ValueView::Address(a@),
        Value::FixedBytes(b) => ValueView::FixedBytes(b@),
        Value::Bytes(b) => ValueView::Bytes(b@),
        Value::Array(items) => ValueView::Array(views_of(items@)),
        Value::FixedArray(items) => ValueView::FixedArray(views_of(items@)),
        Value::Tuple(items) => ValueView::Tuple(views_of(items@)),
    }
}

impl View for Value {
    type V = ValueView;

    open spec fn view(&self) -> ValueView {
        value_view(*self)
    }
}

/// The kind of the element at `i` of a list kind. The arguments of a call
/// form a list like a tuple's.
pub open spec fn element_kind(list: Kind, i: int) -> Kind {
    match list {
        Kind::Array(e) => *e,
        Kind::FixedArray(e, _) => *e,
        Kind::Tuple(ks) => ks@[i],
        _ => list,
    }
}

/// Whether a kind is one of the calling convention: integers of 8 to 256
/// bits in steps of 8, byte strings of 1 to 32 bytes, and arrays and tuples
/// of such kinds that hold at least one element.
pub open spec fn kind_ok(kind: Kind) -> bool
    decreases kind,
{
    match kind {
        Kind::Uint(bits) => 8 <= bits <= 256 && bits % 8 == 0,
        Kind::Int(bits) => 8 <= bits <= 256 && bits % 8 == 0,
        Kind::Bool => true,
        Kind::Address => true,
        Kind::FixedBytes(len) => 1 <= len <= 32,
        Kind::Bytes => true,
        Kind::Array(e) => kind_ok(*e),
        Kind::FixedArray(e, len) => len >= 1 && kind_ok(*e),
        Kind::Tuple(ks) => ks@.len() >= 1 && kinds_ok(ks@, ks@.len()),
    }
}

/// Whether the first `n` of the kinds are kinds of the calling convention.
pub open spec fn kinds_ok(kinds: Seq<Kind>, n: nat) -> bool
    decreases kinds, n,
{
    if n == 0 || n > kinds.len() {
        true
    } else {
        kinds_ok(kinds, (n - 1) as nat) && kind_ok(kinds[n - 1])
    }
}

/// Whether a kind is a list kind that has an element `n - 1`: an array has
/// every element, a fixed array and a tuple as many as they declare.
pub open spec fn is_list(list: Kind, n: nat) -> bool {
    match list {
        Kind::Array(_) => true,
        Kind::FixedArray(_, len) => n <= len,
        Kind::Tuple(ks) => n <= ks@.len(),
        _ => false,
    }
}

/// Whether values of a kind stand in the tails: byte strings of any length,
/// arrays of any length, and whatever holds one of these.
pub open spec fn is_dynamic(kind: Kind) -> bool
    decreases kind, 1nat, 0nat,
{
    match kind {
        Kind::Bytes => true,
        Kind::Array(_) => true,
        Kind::FixedArray(e, _) => is_dynamic(*e),
        Kind::Tuple(ks) => any_dynamic(kind, ks@.len()),
        _ => false,
    }
}

/// Whether one of the first `n` element kinds of a list kind is dynamic.
pub open spec fn any_dynamic(list: Kind, n: nat) -> bool
    decreases list, 0nat, n,
{
    if n == 0 || !is_list(list, n) {
        false
    } else {
        any_dynamic(list, (n - 1) as nat) || is_dynamic(element_kind(list, n - 1))
    }
}

/// The number of bytes that a value of a kind takes in the heads: one word
/// for a dynamic kind, else the whole value.
pub open spec fn head_len(kind: Kind) -> nat
    decreases kind, 1nat, 0nat,
{
    if is_dynamic(kind) {
        32
    } else {
        match kind {
            Kind::FixedArray(_, len) => heads_len(kind, len as nat),
            Kind::Tuple(ks) => heads_len(kind, ks@.len()),
            _ => 32,
        }
    }
}

/// The number of bytes that the first `n` elements of a list take in the
/// heads.
pub open spec fn heads_len(list: Kind, n: nat) -> nat
    decreases list, 0nat, n,
{
    if n == 0 || !is_list(list, n) {
        0
    } else {
        heads_len(list, (n - 1) as nat) + head_len(element_kind(list, n - 1))
    }
}

/// `n` zero bytes.
pub open spec fn zeros(n: nat) -> Seq<u8> {
    Seq::new(n, |i: int| 0u8)
}

/// The number that the bytes spell, most significant first.
pub open spec fn be_value(bytes: Seq<u8>) -> nat
    decreases bytes.len(),
{
    if bytes.len() == 0 {
        0
    } else {
        256 * be_value(bytes.drop_last()) + bytes.last() as nat
    }
}

/// The last `len` base-256 digits of `n`, most significant first.
pub open spec fn be_bytes(n: nat, len: nat) -> Seq<u8>
    decreases len,
{
    if len == 0 {
        Seq::empty()
    } else {
        be_bytes(n / 256, (len - 1) as nat).push((n % 256) as u8)
    }
}

/// The word that holds a count or an offset.
pub open spec fn count_word(n: nat) -> Seq<u8> {
    zeros(24) + be_bytes(n, 8)
}

/// The count or offset in the word at `pos`, where a word stands there
/// whose number is below 2^64.
pub open spec fn count_at(buf: Seq<u8>, pos: int) -> Option<nat> {
    if 0 <= pos && pos + 32 <= buf.len() && buf.subrange(pos, pos + 24) == zeros(24) {
        Some(be_value(buf.subrange(pos + 24, pos + 32)))
    } else {
        None
    }
}

/// The number of zero bytes that fill `len` bytes up to whole words.
pub open spec fn padding(len: nat) -> nat {
    ((32 - len % 32) % 32) as nat
}

/// Whether the 32 bytes spell an unsigned number of at most `bits` bits.
pub open spec fn uint_in_range(word: Seq<u8>, bits: usize) -> bool {
    &&& word.len() == 32
    &&& forall|i: int| 0 <= i < 32 - bits / 8 ==> #[trigger] word[i] == 0
}

/// Whether the 32 bytes spell, in two's complement, a signed number of at
/// most `bits` bits: the bytes in front of the last `bits / 8` repeat the
/// sign.
pub open spec fn int_in_range(word: Seq<u8>, bits: usize) -> bool {
    &&& word.len() == 32
    &&& 8 <= bits <= 256
    &&& forall|i: int|
        0 <= i < 32 - bits / 8 ==> #[trigger] word[i] == if word[32 - bits / 8] >= 128 {
            255u8
        } else {
            0u8
        }
}

/// Whether a value is of a kind.
pub open spec fn fits(kind: Kind, value: ValueView) -> bool
    decreases kind, 1nat, 0nat,
{
    match kind {
        Kind::Uint(bits) => value is Uint && uint_in_range(value->Uint_0, bits),
        Kind::Int(bits) => value is Int && int_in_range(value->Int_0, bits),
        Kind::Bool => value is Bool,
        Kind::Address => value is Address && value->Address_0.len() == 20,
        Kind::FixedBytes(len) => value is FixedBytes && value->FixedBytes_0.len() == len,
        Kind::Bytes => value is Bytes,
        Kind::Array(_) => value is Array && all_fit(kind, value->Array_0, value->Array_0.len()),
        Kind::FixedArray(_, len) => value is FixedArray && value->FixedArray_0.len() == len
            && all_fit(kind, value->FixedArray_0, len as nat),
        Kind::Tuple(ks) => value is Tuple && value->Tuple_0.len() == ks@.len() && all_fit(
            kind,
            value->Tuple_0,
            ks@.len(),
        ),
    }
}

/// Whether each of the first `n` values is of its element kind.
pub open spec fn all_fit(list: Kind, values: Seq<ValueView>, n: nat) -> bool
    decreases list, 0nat, n,
{
    if n == 0 {
        true
    } else if !is_list(list, n) || n > values.len() {
        false
    } else {
        all_fit(list, values, (n - 1) as nat) && fits(element_kind(list, n - 1), values[n - 1])
    }
}

/// The bytes of a value of a kind: in place for a static kind, in the tails
/// for a dynamic one.
pub open spec fn encoding(kind: Kind, value: ValueView) -> Seq<u8>
    decreases kind, 1nat, 0nat,
{
    match kind {
        Kind::Uint(_) => value->Uint_0,
        Kind::Int(_) => value->Int_0,
        Kind::Bool => zeros(31).push(
            if value->Bool_0 {
                1u8
            } else {
                0u8
            },
        ),
        Kind::Address => zeros(12) + value->Address_0,
        Kind::FixedBytes(_) => value->FixedBytes_0 + zeros(
            (32 - value->FixedBytes_0.len()) as nat,
        ),
        Kind::Bytes => count_word(value->Bytes_0.len()) + (value->Bytes_0 + zeros(
            padding(value->Bytes_0.len()),
        )),
        Kind::Array(_) => count_word(value->Array_0.len()) + list_encoding(
            kind,
            value->Array_0,
            value->Array_0.len(),
        ),
        Kind::FixedArray(_, len) => list_encoding(kind, value->FixedArray_0, len as nat),
        Kind::Tuple(ks) => list_encoding(kind, value->Tuple_0, ks@.len()),
    }
}

/// The bytes of the first `n` values of a list: their heads, then their
/// tails.
pub open spec fn list_encoding(list: Kind, values: Seq<ValueView>, n: nat) -> Seq<u8>
    decreases list, 0nat, n + 1,
{
    heads(list, values, n, heads_len(list, n)) + tails(list, values, n)
}

/// The heads of the first `n` values of a list whose heads take `start`
/// bytes in all: a static value itself, and for a dynamic value the
/// distance from the start of the heads to the value in the tails.
pub open spec fn heads(list: Kind, values: Seq<ValueView>, n: nat, start: nat) -> Seq<u8>
    decreases list, 0nat, n,
{
    if n == 0 || !is_list(list, n) {
        Seq::empty()
    } else {
        heads(list, values, (n - 1) as nat, start) + if is_dynamic(element_kind(list, n - 1)) {
            count_word(start + tails(list, values, (n - 1) as nat).len())
        } else {
            encoding(element_kind(list, n - 1), values[n - 1])
        }
    }
}

/// The tails of the first `n` values of a list: the dynamic values, in
/// order.
pub open spec fn tails(list: Kind, values: Seq<ValueView>, n: nat) -> Seq<u8>
    decreases list, 0nat, n,
{
    if n == 0 || !is_list(list, n) {
        Seq::empty()
    } else {
        tails(list, values, (n - 1) as nat) + if is_dynamic(element_kind(list, n - 1)) {
            encoding(element_kind(list, n - 1), values[n - 1])
        } else {
            Seq::empty()
        }
    }
}

/// The value of a kind that stands at `pos`, if one stands there within
/// the buffer. Of a word that holds less than 32 bytes of value, only those
/// are read: an integer is taken as the whole word, whatever its kind's
/// bits; of an address the first twelve bytes are passed over, of a byte
/// string the last. A truth value is true where the word is the number
/// one, and false for any other number below 256.
pub open spec fn decoding(kind: Kind, buf: Seq<u8>, pos: int) -> Option<ValueView>
    decreases kind, 1nat, 0nat,
{
    let word = buf.subrange(pos, pos + 32);
    match kind {
        Kind::Uint(_) => if 0 <= pos && pos + 32 <= buf.len() {
            Some(ValueView::Uint(word))
        } else {
            None
        },
        Kind::Int(_) => if 0 <= pos && pos + 32 <= buf.len() {
            Some(ValueView::Int(word))
        } else {
            None
        },
        Kind::Bool => if 0 <= pos && pos + 32 <= buf.len() && word.subrange(0, 31) == zeros(31) {
            Some(ValueView::Bool(word[31] == 1))
        } else {
            None
        },
        Kind::Address => if 0 <= pos && pos + 32 <= buf.len() {
            Some(ValueView::Address(word.subrange(12, 32)))
        } else {
            None
        },
        Kind::FixedBytes(len) => if 0 <= pos && pos + 32 <= buf.len() && len <= 32 {
            Some(ValueView::FixedBytes(word.subrange(0, len as int)))
        } else {
            None
        },
        Kind::Bytes => match count_at(buf, pos) {
            Some(len) => if pos + 32 + len <= buf.len() {
                Some(ValueView::Bytes(buf.subrange(pos + 32, pos + 32 + len)))
            } else {
                None
            },
            None => None,
        },
        Kind::Array(_) => match count_at(buf, pos) {
            Some(n) => match list_decoding(kind, buf, pos + 32, n) {
                Some(items) => Some(ValueView::Array(items)),
                None => None,
            },
            None => None,
        },
        Kind::FixedArray(_, len) => match list_decoding(kind, buf, pos, len as nat) {
            Some(items) => Some(ValueView::FixedArray(items)),
            None => None,
        },
        Kind::Tuple(ks) => match list_decoding(kind, buf, pos, ks@.len()) {
            Some(items) => Some(ValueView::Tuple(items)),
            None => None,
        },
    }
}

/// Where the element `i` of the list at `base` stands: at its head for a
/// static kind, and for a dynamic kind as far behind `base` as its head
/// says.
pub open spec fn element_at(list: Kind, buf: Seq<u8>, base: int, i: nat) -> Option<int> {
    if is_dynamic(element_kind(list, i as int)) {
        match count_at(buf, base + heads_len(list, i)) {
            Some(offset) => Some(base + offset),
            None => None,
        }
    } else {
        Some(base + heads_len(list, i))
    }
}

/// The first `n` values of the list whose heads begin at `base`, if they
/// all stand within the buffer.
pub open spec fn list_decoding(list: Kind, buf: Seq<u8>, base: int, n: nat) -> Option<
    Seq<ValueView>,
>
    decreases list, 0nat, n,
{
    if n == 0 {
        Some(Seq::empty())
    } else if !is_list(list, n) {
        None
    } else {
        match (list_decoding(list, buf, base, (n - 1) as nat), element_at(
            list,
            buf,
            base,
            (n - 1) as nat,
        )) {
            (Some(front), Some(pos)) => match decoding(element_kind(list, n - 1), buf, pos) {
                Some(value) => Some(front.push(value)),
                None => None,
            },
            _ => None,
        }
    }
}

} // verus!
