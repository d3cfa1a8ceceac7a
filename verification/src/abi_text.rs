//! Arguments written as text.
//!
//! An unsigned integer is written as 64 hexadecimal digits, two for each
//! byte of its word, or in decimal digits, or as an amount in a unit of
//! account such as `1.5 gwei`. A signed integer is written as 64
//! hexadecimal digits in two's complement, or in decimal digits, behind a
//! minus sign where it is negative. A number that does not fit the bits of
//! its kind is
//! refused. A truth value is written `true` or `1`, `false` or `0`. An
//! address is written as 40 hexadecimal digits and a byte string as two for
//! each byte, both with or without the prefix "0x". An array is written as
//! its elements between square brackets, a tuple as its members between
//! parentheses, separated by commas; commas inside inner brackets or
//! parentheses belong to the element.

use vstd::prelude::*;
use vstd::string::{StrSliceExecFns, StringExecFns, StringSliceAdditionalSpecFns};
use crate::abi::{
    all_fit, be_value, element_kind, fits, int_in_range, is_list, kinds_ok,
    list_encoding, uint_in_range, views_of, Kind, Value, ValueView,
};
use crate::abi_call::{
    append_params, declared_at, find_bad_kind, first_bad_kind, lemma_no_bad_kind, lemma_no_misfit,
    selector, selector_of,
};
use crate::abi_decimal::{
    decimal_value, decimal_word, is_decimal, is_digit, lemma_zero_word, negate, negated_word,
    parse_decimal,
};
use crate::abi_encode::{word_is_int, word_is_uint};
use crate::abi_kinds::element;
use crate::abi_words::lemma_be_bytes;
use crate::address::{is_address_text, Address};
use crate::client::without_0x;
use crate::error::ToolError;
use crate::text::{from_digits, from_hex, hex_value, is_hex_text, same_text};

verus! {

/// The word that 64 hexadecimal digits spell.
pub open spec fn hex_word(text: Seq<char>) -> Option<Seq<u8>> {
    if is_hex_text(text) && text.len() == 64 {
        Some(hex_value(text))
    } else {
        None
    }
}

/// Where the decimal digits that begin at `i` end.
pub open spec fn digits_end(text: Seq<char>, i: int) -> int
    decreases text.len() - i,
{
    if 0 <= i < text.len() && is_digit(text[i]) {
        digits_end(text, i + 1)
    } else {
        i
    }
}

/// Whether a character is a blank: a space, a tab, a line feed, a
/// vertical tab, a form feed or a carriage return.
pub open spec fn is_blank(c: char) -> bool {
    c == ' ' || 9 <= c as int <= 13
}

/// Where the blanks that begin at `i` end.
pub open spec fn blanks_end(text: Seq<char>, i: int) -> int
    decreases text.len() - i,
{
    if 0 <= i < text.len() && is_blank(text[i]) {
        blanks_end(text, i + 1)
    } else {
        i
    }
}

/// The number of decimal places that a unit of account moves a number to
/// the left: 18 for `ether`, 9 for `gwei`, `nano` and `nanoether`, none for
/// `wei`.
pub open spec fn unit_places(unit: Seq<char>) -> Option<nat> {
    if unit == "ether"@ {
        Some(18nat)
    } else if unit == "gwei"@ || unit == "nano"@ || unit == "nanoether"@ {
        Some(9nat)
    } else if unit == "wei"@ {
        Some(0nat)
    } else {
        None
    }
}

/// The decimal digits of an amount in a unit of account: the digits in
/// front of the point, those behind it, and zeros up to the places of the
/// unit. The amount is written as digits, then a point and digits where it
/// has a fraction, then blanks where wanted, then the unit; the fraction
/// has no more digits than the unit has places.
pub open spec fn amount_digits(text: Seq<char>) -> Option<Seq<char>> {
    let a = digits_end(text, 0);
    let pointed = a < text.len() && text[a] == '.';
    let b = if pointed {
        digits_end(text, a + 1)
    } else {
        a
    };
    let fraction = if pointed {
        text.subrange(a + 1, b)
    } else {
        Seq::empty()
    };
    let c = blanks_end(text, b);
    let places = unit_places(text.subrange(c, text.len() as int));
    if a >= 1 && (pointed ==> b > a + 1) && places is Some && fraction.len() <= places->0 {
        Some(
            text.subrange(0, a) + fraction + Seq::new(
                (places->0 - fraction.len()) as nat,
                |i: int| '0',
            ),
        )
    } else {
        None
    }
}

/// The word of an unsigned number written as text: 64 hexadecimal digits;
/// else decimal digits; else an amount in a unit of account. The number
/// must be below 2^256.
pub open spec fn unsigned_word(text: Seq<char>) -> Option<Seq<u8>> {
    if hex_word(text) is Some {
        hex_word(text)
    } else if is_decimal(text) {
        decimal_word(text)
    } else {
        match amount_digits(text) {
            Some(digits) => decimal_word(digits),
            None => None,
        }
    }
}

/// The word of a signed number of `bits` bits written as text: 64
/// hexadecimal digits in two's complement; else decimal digits, which must
/// spell a number below 2^(bits - 1); else a minus sign and decimal digits,
/// which must spell a number of at most 2^(bits - 1). The sign of the word
/// is the top bit of the first of its last `bits / 8` bytes.
pub open spec fn signed_word(text: Seq<char>, bits: usize) -> Option<Seq<u8>> {
    if hex_word(text) is Some {
        hex_word(text)
    } else if text.len() >= 1 && text[0] == '-' {
        match decimal_word(text.skip(1)) {
            Some(word) => {
                let negative = negated_word(be_value(word));
                if 8 <= bits <= 256 && (be_value(word) == 0 || negative[32 - bits / 8] >= 128) {
                    Some(negative)
                } else {
                    None
                }
            },
            None => None,
        }
    } else {
        match decimal_word(text) {
            Some(word) => if 8 <= bits <= 256 && word[32 - bits / 8] < 128 {
                Some(word)
            } else {
                None
            },
            None => None,
        }
    }
}

/// The depth of brackets behind a character.
pub open spec fn step_depth(depth: int, c: char) -> int {
    if c == '[' || c == '(' {
        depth + 1
    } else if c == ']' || c == ')' {
        depth - 1
    } else {
        depth
    }
}

/// The pieces of `s` from `from` on, cut at each comma from `i` on that
/// stands outside brackets and parentheses.
pub open spec fn split(s: Seq<char>, i: int, from: int, depth: int) -> Seq<Seq<char>>
    decreases s.len() - i,
{
    if i < 0 || i >= s.len() {
        seq![s.subrange(from, s.len() as int)]
    } else if s[i] == ',' && depth == 0 {
        seq![s.subrange(from, i)] + split(s, i + 1, i + 1, 0)
    } else {
        split(s, i + 1, from, step_depth(depth, s[i]))
    }
}

/// The texts of the elements of a list written between `open` and
/// `close`: none where nothing stands between the two.
pub open spec fn list_parts(text: Seq<char>, open: char, close: char) -> Option<Seq<Seq<char>>> {
    if text.len() >= 2 && text[0] == open && text[text.len() - 1] == close {
        if text.len() == 2 {
            Some(Seq::empty())
        } else {
            Some(split(text.subrange(1, text.len() - 1), 0, 0, 0))
        }
    } else {
        None
    }
}

/// The value of a kind that a text stands for, if it stands for one.
pub open spec fn argument_value(kind: Kind, text: Seq<char>) -> Option<ValueView>
    decreases kind, 1nat, 0nat,
{
    let digits = without_0x(text);
    let bytes = hex_value(digits);
    match kind {
        Kind::Uint(bits) => match unsigned_word(text) {
            Some(word) => if uint_in_range(word, bits) {
                Some(ValueView::Uint(word))
            } else {
                None
            },
            None => None,
        },
        Kind::Int(bits) => match signed_word(text, bits) {
            Some(word) => if int_in_range(word, bits) {
                Some(ValueView::Int(word))
            } else {
                None
            },
            None => None,
        },
        Kind::Bool => if text == "true"@ || text == "1"@ {
            Some(ValueView::Bool(true))
        } else if text == "false"@ || text == "0"@ {
            Some(ValueView::Bool(false))
        } else {
            None
        },
        Kind::Address => if is_address_text(text) {
            Some(ValueView::Address(bytes))
        } else {
            None
        },
        Kind::FixedBytes(len) => if is_hex_text(digits) && bytes.len() == len {
            Some(ValueView::FixedBytes(bytes))
        } else {
            None
        },
        Kind::Bytes => if is_hex_text(digits) {
            Some(ValueView::Bytes(bytes))
        } else {
            None
        },
        Kind::Array(_) => match list_parts(text, '[', ']') {
            Some(parts) => match items_value(kind, parts, parts.len()) {
                Some(items) => Some(ValueView::Array(items)),
                None => None,
            },
            None => None,
        },
        Kind::FixedArray(_, len) => match list_parts(text, '[', ']') {
            Some(parts) => if parts.len() == len {
                match items_value(kind, parts, parts.len()) {
                    Some(items) => Some(ValueView::FixedArray(items)),
                    None => None,
                }
            } else {
                None
            },
            None => None,
        },
        Kind::Tuple(ks) => match list_parts(text, '(', ')') {
            Some(parts) => if parts.len() == ks@.len() {
                match items_value(kind, parts, parts.len()) {
                    Some(items) => Some(ValueView::Tuple(items)),
                    None => None,
                }
            } else {
                None
            },
            None => None,
        },
    }
}

/// The values that the first `n` texts stand for, each read as the kind of
/// its place in the list.
pub open spec fn items_value(list: Kind, parts: Seq<Seq<char>>, n: nat) -> Option<Seq<ValueView>>
    decreases list, 0nat, n,
{
    if n == 0 {
        Some(Seq::empty())
    } else if !is_list(list, n) || n > parts.len() {
        None
    } else {
        match (items_value(list, parts, (n - 1) as nat), argument_value(
            element_kind(list, n - 1),
            parts[n - 1],
        )) {
            (Some(front), Some(value)) => Some(front.push(value)),
            _ => None,
        }
    }
}

/// A text that stands for a value of a kind stands for one that fits it.
pub proof fn lemma_argument_fits(kind: Kind, text: Seq<char>)
    requires
        argument_value(kind, text) is Some,
    ensures
        fits(kind, argument_value(kind, text)->0),
    decreases kind, 1nat, 0nat,
{
    match kind {
        Kind::Array(_) => {
            let parts = list_parts(text, '[', ']')->0;
            lemma_items_fit(kind, parts, parts.len());
        },
        Kind::FixedArray(_, _) => {
            let parts = list_parts(text, '[', ']')->0;
            lemma_items_fit(kind, parts, parts.len());
        },
        Kind::Tuple(_) => {
            let parts = list_parts(text, '(', ')')->0;
            lemma_items_fit(kind, parts, parts.len());
        },
        _ => {},
    }
}

/// Texts that stand for the values of a list stand for values that fit.
pub proof fn lemma_items_fit(list: Kind, parts: Seq<Seq<char>>, n: nat)
    requires
        items_value(list, parts, n) is Some,
    ensures
        items_value(list, parts, n)->0.len() == n,
        all_fit(list, items_value(list, parts, n)->0, n),
    decreases list, 0nat, n,
{
    if n > 0 {
        let front = items_value(list, parts, (n - 1) as nat)->0;
        let items = items_value(list, parts, n)->0;
        lemma_items_fit(list, parts, (n - 1) as nat);
        lemma_argument_fits(element_kind(list, n - 1), parts[n - 1]);
        lemma_all_fit_longer(list, front, items, (n - 1) as nat);
    }
}

/// Values that fit still fit where more values follow them.
proof fn lemma_all_fit_longer(list: Kind, front: Seq<ValueView>, items: Seq<ValueView>, n: nat)
    requires
        all_fit(list, front, n),
        n <= front.len() <= items.len(),
        forall|i: int| 0 <= i < n ==> front[i] == items[i],
    ensures
        all_fit(list, items, n),
    decreases n,
{
    if n > 0 {
        lemma_all_fit_longer(list, front, items, (n - 1) as nat);
    }
}

/// Where the first texts of a list stand for values, fewer of them do too.
proof fn lemma_items_prefix(list: Kind, parts: Seq<Seq<char>>, m: nat, n: nat)
    requires
        m <= n,
        items_value(list, parts, n) is Some,
    ensures
        items_value(list, parts, m) is Some,
    decreases n,
{
    if m < n {
        lemma_items_prefix(list, parts, m, (n - 1) as nat);
    }
}

/// The texts as plain values.
pub open spec fn texts_of(parts: Seq<&str>) -> Seq<Seq<char>> {
    Seq::new(parts.len(), |i: int| parts[i]@)
}

/// A copy of 32 bytes as a word.
fn word_from(bytes: &[u8]) -> (word: [u8; 32])
    requires
        bytes@.len() == 32,
    ensures
        word@ == bytes@,
{
    let mut word: [u8; 32] = [0u8; 32];
    let mut i: usize = 0;
    while i < 32
        invariant
            i <= 32,
            bytes@.len() == 32,
            forall|j: int| 0 <= j < i ==> word@[j] == bytes@[j],
        decreases 32 - i,
    {
        word[i] = bytes[i];
        i += 1;
    }
    proof {
        assert(word@ =~= bytes@);
    }
    word
}

/// Read a word from 64 hexadecimal digits.
fn parse_hex_word(text: &str) -> (r: Option<[u8; 32]>)
    ensures
        match hex_word(text@) {
            Some(word) => r is Some && r->0@ == word,
            None => r is None,
        },
{
    match from_digits(text) {
        Some(bytes) => if bytes.len() == 32 {
            Some(word_from(bytes.as_slice()))
        } else {
            None
        },
        None => None,
    }
}

/// Where the decimal digits that begin at `from` end.
fn digits_until(text: &str, from: usize) -> (end: usize)
    requires
        from <= text@.len(),
    ensures
        end == digits_end(text@, from as int),
        from <= end <= text@.len(),
{
    let n = text.unicode_len();
    let mut i: usize = from;
    while i < n
        invariant
            from <= i <= n,
            n == text@.len(),
            digits_end(text@, from as int) == digits_end(text@, i as int),
        decreases n - i,
    {
        let c = text.get_char(i);
        if c < '0' || c > '9' {
            return i;
        }
        i += 1;
    }
    i
}

/// Where the blanks that begin at `from` end.
fn blanks_until(text: &str, from: usize) -> (end: usize)
    requires
        from <= text@.len(),
    ensures
        end == blanks_end(text@, from as int),
        from <= end <= text@.len(),
{
    let n = text.unicode_len();
    let mut i: usize = from;
    while i < n
        invariant
            from <= i <= n,
            n == text@.len(),
            blanks_end(text@, from as int) == blanks_end(text@, i as int),
        decreases n - i,
    {
        let c = text.get_char(i);
        if !(c == ' ' || (c as u32 >= 9 && c as u32 <= 13)) {
            return i;
        }
        i += 1;
    }
    i
}

/// The number of decimal places of a unit of account.
fn places_of(unit: &str) -> (places: Option<usize>)
    ensures
        match unit_places(unit@) {
            Some(n) => places == Some(n as usize) && n <= 18,
            None => places is None,
        },
{
    if same_text(unit, "ether") {
        Some(18)
    } else if same_text(unit, "gwei") || same_text(unit, "nano") || same_text(unit, "nanoether") {
        Some(9)
    } else if same_text(unit, "wei") {
        Some(0)
    } else {
        None
    }
}

/// The decimal digits of an amount in a unit of account.
fn amount_text(text: &str) -> (r: Option<String>)
    ensures
        match amount_digits(text@) {
            Some(digits) => r is Some && r->0@ == digits,
            None => r is None,
        },
{
    let n = text.unicode_len();
    let a = digits_until(text, 0);
    if a == 0 {
        return None;
    }
    let pointed = a < n && text.get_char(a) == '.';
    let b = if pointed {
        digits_until(text, a + 1)
    } else {
        a
    };
    if pointed && b == a + 1 {
        return None;
    }
    let c = blanks_until(text, b);
    let places = match places_of(text.substring_char(c, n)) {
        Some(places) => places,
        None => { return None; },
    };
    let fraction = if pointed {
        text.substring_char(a + 1, b)
    } else {
        text.substring_char(0, 0)
    };
    let width = fraction.unicode_len();
    if width > places {
        return None;
    }
    let mut digits = String::from_str(text.substring_char(0, a)).concat(fraction);
    let ghost front = digits@;
    let mut i: usize = 0;
    proof {
        reveal_strlit("0");
        assert(front + Seq::new(0, |k: int| '0') =~= front);
    }
    while i < places - width
        invariant
            i <= places - width,
            width <= places,
            "0"@ == seq!['0'],
            digits@ == front + Seq::new(i as nat, |k: int| '0'),
        decreases places - width - i,
    {
        digits.append("0");
        i += 1;
        proof {
            assert(digits@ =~= front + Seq::new(i as nat, |k: int| '0'));
        }
    }
    proof {
        if !pointed {
            assert(fraction@ =~= Seq::<char>::empty());
        }
    }
    Some(digits)
}

/// Read the word of an unsigned number from its text.
pub fn parse_unsigned(text: &str) -> (r: Option<[u8; 32]>)
    ensures
        match unsigned_word(text@) {
            Some(word) => r is Some && r->0@ == word,
            None => r is None,
        },
{
    match parse_hex_word(text) {
        Some(word) => { return Some(word); },
        None => {},
    }
    if whole_decimal(text) {
        return parse_decimal(text);
    }
    match amount_text(text) {
        Some(digits) => parse_decimal(digits.as_str()),
        None => None,
    }
}

/// Whether a text is one or more decimal digits.
fn whole_decimal(text: &str) -> (r: bool)
    ensures
        r == is_decimal(text@),
{
    let n = text.unicode_len();
    let end = digits_until(text, 0);
    proof {
        lemma_digits_end(text@, 0);
    }
    n >= 1 && end == n
}

/// From where digits begin to where they end are digits, and none stands
/// where they end.
proof fn lemma_digits_end(text: Seq<char>, i: int)
    requires
        0 <= i <= text.len(),
    ensures
        i <= digits_end(text, i) <= text.len(),
        forall|j: int| i <= j < digits_end(text, i) ==> is_digit(#[trigger] text[j]),
        digits_end(text, i) < text.len() ==> !is_digit(text[digits_end(text, i)]),
    decreases text.len() - i,
{
    if i < text.len() && is_digit(text[i]) {
        lemma_digits_end(text, i + 1);
    }
}

/// Read the word of a signed number of `bits` bits from its text.
pub fn parse_signed(text: &str, bits: usize) -> (r: Option<[u8; 32]>)
    ensures
        match signed_word(text@, bits) {
            Some(word) => r is Some && r->0@ == word,
            None => r is None,
        },
{
    match parse_hex_word(text) {
        Some(word) => { return Some(word); },
        None => {},
    }
    let n = text.unicode_len();
    let minus = n >= 1 && text.get_char(0) == '-';
    let digits = if minus {
        text.substring_char(1, n)
    } else {
        text
    };
    let mut word = match parse_decimal(digits) {
        Some(word) => word,
        None => { return None; },
    };
    if bits < 8 || bits > 256 {
        return None;
    }
    let ghost magnitude = word@;
    let zero = word_is_uint(&word, 8) && word[31] == 0;
    proof {
        lemma_be_bytes(decimal_value(digits@), 32);
        if zero {
            lemma_zero_word(word@);
        } else if be_value(word@) == 0 {
            lemma_value_zero(word@);
        }
    }
    if minus {
        negate(&mut word);
        if zero || word[32 - bits / 8] >= 128 {
            Some(word)
        } else {
            None
        }
    } else if word[32 - bits / 8] < 128 {
        Some(word)
    } else {
        None
    }
}

/// Bytes that spell zero are zero bytes.
proof fn lemma_value_zero(bytes: Seq<u8>)
    requires
        be_value(bytes) == 0,
    ensures
        forall|i: int| 0 <= i < bytes.len() ==> bytes[i] == 0,
    decreases bytes.len(),
{
    if bytes.len() > 0 {
        lemma_value_zero(bytes.drop_last());
        assert forall|i: int| 0 <= i < bytes.len() implies bytes[i] == 0 by {
            if i < bytes.len() - 1 {
                assert(bytes.drop_last()[i] == bytes[i]);
            }
        }
    }
}

/// Cut a text at each comma that stands outside brackets and parentheses.
fn split_parts<'a>(inner: &'a str) -> (parts: Vec<&'a str>)
    ensures
        texts_of(parts@) == split(inner@, 0, 0, 0),
{
    let n = inner.unicode_len();
    let mut parts: Vec<&'a str> = Vec::new();
    let mut from: usize = 0;
    let mut depth: i128 = 0;
    let mut i: usize = 0;
    proof {
        assert(texts_of(parts@) + split(inner@, 0, 0, 0) =~= split(inner@, 0, 0, 0));
    }
    while i < n
        invariant
            from <= i <= n,
            n == inner@.len(),
            -(i as int) <= depth <= i,
            split(inner@, 0, 0, 0) == texts_of(parts@) + split(
                inner@,
                i as int,
                from as int,
                depth as int,
            ),
        decreases n - i,
    {
        let c = inner.get_char(i);
        if c == ',' && depth == 0 {
            let ghost before = parts@;
            let piece = inner.substring_char(from, i);
            parts.push(piece);
            proof {
                assert(texts_of(parts@) =~= texts_of(before) + seq![inner@.subrange(
                    from as int,
                    i as int,
                )]);
                assert(texts_of(parts@) + split(inner@, i + 1, i + 1, 0) =~= texts_of(before) + (
                seq![inner@.subrange(from as int, i as int)] + split(inner@, i + 1, i + 1, 0)));
            }
            from = i + 1;
        } else if c == '[' || c == '(' {
            depth = depth + 1;
        } else if c == ']' || c == ')' {
            depth = depth - 1;
        }
        i += 1;
    }
    let ghost before = parts@;
    parts.push(inner.substring_char(from, n));
    proof {
        assert(texts_of(parts@) =~= texts_of(before) + seq![inner@.subrange(
            from as int,
            n as int,
        )]);
    }
    parts
}

/// The texts of the elements of a list written between `open` and
/// `close`.
fn take_parts<'a>(text: &'a str, open: char, close: char) -> (r: Option<Vec<&'a str>>)
    ensures
        match list_parts(text@, open, close) {
            Some(parts) => r is Some && texts_of(r->0@) == parts,
            None => r is None,
        },
{
    let n = text.unicode_len();
    if n < 2 || text.get_char(0) != open || text.get_char(n - 1) != close {
        return None;
    }
    if n == 2 {
        let parts: Vec<&'a str> = Vec::new();
        proof {
            assert(texts_of(parts@) =~= Seq::<Seq<char>>::empty());
        }
        return Some(parts);
    }
    Some(split_parts(text.substring_char(1, n - 1)))
}

/// Read an argument of a kind from its text.
pub fn parse_argument(kind: &Kind, text: &str) -> (r: Option<Value>)
    ensures
        match argument_value(*kind, text@) {
            Some(value) => r is Some && r->0@ == value,
            None => r is None,
        },
    decreases *kind, 1nat, 0nat,
{
    match kind {
        Kind::Uint(bits) => match parse_unsigned(text) {
            Some(word) => if word_is_uint(&word, *bits) {
                Some(Value::Uint(word))
            } else {
                None
            },
            None => None,
        },
        Kind::Int(bits) => match parse_signed(text, *bits) {
            Some(word) => if word_is_int(&word, *bits) {
                Some(Value::Int(word))
            } else {
                None
            },
            None => None,
        },
        Kind::Bool => {
            if same_text(text, "true") || same_text(text, "1") {
                Some(Value::Bool(true))
            } else if same_text(text, "false") || same_text(text, "0") {
                Some(Value::Bool(false))
            } else {
                None
            }
        },
        Kind::Address => match Address::from_text(text) {
            Ok(address) => Some(Value::Address(address.bytes)),
            Err(_) => None,
        },
        Kind::FixedBytes(len) => match from_hex(text) {
            Ok(bytes) => if bytes.len() == *len {
                Some(Value::FixedBytes(bytes))
            } else {
                None
            },
            Err(_) => None,
        },
        Kind::Bytes => match from_hex(text) {
            Ok(bytes) => Some(Value::Bytes(bytes)),
            Err(_) => None,
        },
        Kind::Array(_) => match take_parts(text, '[', ']') {
            Some(parts) => match parse_items(kind, &parts, parts.len()) {
                Some(items) => Some(Value::Array(items)),
                None => None,
            },
            None => None,
        },
        Kind::FixedArray(_, len) => match take_parts(text, '[', ']') {
            Some(parts) => if parts.len() == *len {
                match parse_items(kind, &parts, parts.len()) {
                    Some(items) => Some(Value::FixedArray(items)),
                    None => None,
                }
            } else {
                None
            },
            None => None,
        },
        Kind::Tuple(ks) => match take_parts(text, '(', ')') {
            Some(parts) => if parts.len() == ks.len() {
                match parse_items(kind, &parts, parts.len()) {
                    Some(items) => Some(Value::Tuple(items)),
                    None => None,
                }
            } else {
                None
            },
            None => None,
        },
    }
}

/// Read the first `n` texts, each as the kind of its place in the list.
fn parse_items(list: &Kind, parts: &Vec<&str>, n: usize) -> (r: Option<Vec<Value>>)
    requires
        is_list(*list, n as nat),
        n <= parts@.len(),
    ensures
        match items_value(*list, texts_of(parts@), n as nat) {
            Some(values) => r is Some && views_of(r->0@) == values,
            None => r is None,
        },
    decreases *list, 0nat, n,
{
    let mut out: Vec<Value> = Vec::new();
    let mut i: usize = 0;
    proof {
        assert(views_of(out@) =~= Seq::<ValueView>::empty());
    }
    while i < n
        invariant
            i <= n <= parts@.len(),
            is_list(*list, n as nat),
            items_value(*list, texts_of(parts@), i as nat) == Some(views_of(out@)),
        decreases n - i,
    {
        proof {
            if items_value(*list, texts_of(parts@), n as nat) is Some {
                lemma_items_prefix(*list, texts_of(parts@), (i + 1) as nat, n as nat);
            }
        }
        let value = match parse_argument(element(list, i), parts[i]) {
            Some(value) => value,
            None => { return None; },
        };
        let ghost before = out@;
        out.push(value);
        proof {
            assert(views_of(out@) =~= views_of(before).push(value@));
        }
        i += 1;
    }
    Some(out)
}

/// The index of the first of the first `n` texts that does not stand for
/// a value of its declared kind.
pub open spec fn first_unparsed(kinds: Seq<Kind>, texts: Seq<String>, n: nat) -> Option<nat>
    decreases n,
{
    if n == 0 || n > kinds.len() || n > texts.len() {
        None
    } else {
        match first_unparsed(kinds, texts, (n - 1) as nat) {
            Some(i) => Some(i),
            None => if argument_value(kinds[n - 1], texts[n - 1]@) is Some {
                None
            } else {
                Some((n - 1) as nat)
            },
        }
    }
}

/// The values that the texts stand for, each read as its declared kind.
pub open spec fn parsed_values(kinds: Seq<Kind>, texts: Seq<String>) -> Seq<ValueView> {
    Seq::new(texts.len(), |i: int| argument_value(kinds[i], texts[i]@)->0)
}

/// The first unparsed text among fewer texts is the first among more.
proof fn lemma_unparsed_stays(kinds: Seq<Kind>, texts: Seq<String>, m: nat, n: nat)
    requires
        m <= n <= kinds.len(),
        n <= texts.len(),
        first_unparsed(kinds, texts, m) is Some,
    ensures
        first_unparsed(kinds, texts, n) == first_unparsed(kinds, texts, m),
        first_unparsed(kinds, texts, m)->0 < m,
    decreases n,
{
    if m < n {
        lemma_unparsed_stays(kinds, texts, m, (n - 1) as nat);
    } else {
        lemma_unparsed_bound(kinds, texts, m);
    }
}

/// The first unparsed text stands among the texts that were looked at.
pub proof fn lemma_unparsed_bound(kinds: Seq<Kind>, texts: Seq<String>, n: nat)
    requires
        first_unparsed(kinds, texts, n) is Some,
    ensures
        first_unparsed(kinds, texts, n)->0 < n,
    decreases n,
{
    if n > 0 && first_unparsed(kinds, texts, (n - 1) as nat) is Some {
        lemma_unparsed_bound(kinds, texts, (n - 1) as nat);
    }
}

/// Texts that all stand for values stand for values that fit.
pub proof fn lemma_parsed_fit(kinds: Vec<Kind>, texts: Seq<String>, n: nat)
    requires
        n <= kinds@.len(),
        n <= texts.len(),
        first_unparsed(kinds@, texts, n) is None,
    ensures
        all_fit(Kind::Tuple(kinds), parsed_values(kinds@, texts), n),
    decreases n,
{
    if n > 0 {
        lemma_parsed_fit(kinds, texts, (n - 1) as nat);
        lemma_argument_fits(kinds@[n - 1], texts[n - 1]@);
    }
}

/// Read each text as a value of the kind declared at its place, up to the
/// first that is none.
pub fn parse_arguments(kinds: &Vec<Kind>, texts: &Vec<String>) -> (r: Result<Vec<Value>, usize>)
    requires
        kinds@.len() == texts@.len(),
    ensures
        match r {
            Ok(values) => {
                &&& first_unparsed(kinds@, texts@, texts@.len()) is None
                &&& views_of(values@) == parsed_values(kinds@, texts@)
            },
            Err(index) => first_unparsed(kinds@, texts@, texts@.len()) == Some(index as nat),
        },
{
    let mut values: Vec<Value> = Vec::new();
    let mut i: usize = 0;
    while i < texts.len()
        invariant
            i <= texts@.len(),
            kinds@.len() == texts@.len(),
            values@.len() == i,
            first_unparsed(kinds@, texts@, i as nat) is None,
            forall|j: int|
                0 <= j < i ==> (#[trigger] values@[j])@ == argument_value(
                    kinds@[j],
                    texts@[j]@,
                )->0,
        decreases texts@.len() - i,
    {
        match parse_argument(&kinds[i], texts[i].as_str()) {
            Some(value) => {
                values.push(value);
            },
            None => {
                proof {
                    lemma_unparsed_stays(kinds@, texts@, (i + 1) as nat, texts@.len());
                }
                return Err(i);
            },
        }
        i += 1;
    }
    proof {
        assert(views_of(values@) =~= parsed_values(kinds@, texts@));
    }
    Ok(values)
}

/// What encoding a call gives: the selector and the encoded arguments, or
/// the first reason why there are none. A kind outside the calling
/// convention comes first, then a number of arguments other than the number
/// of kinds, then a text that does not stand for a value of its kind, then
/// arguments too long for the machine.
pub open spec fn call_outcome(signature: Seq<u8>, kinds: Vec<Kind>, arguments: Seq<String>)
    -> Result<Seq<u8>, ToolError> {
    let n = kinds@.len();
    let bytes = list_encoding(Kind::Tuple(kinds), parsed_values(kinds@, arguments), n);
    if first_bad_kind(kinds@, n) is Some {
        Err(ToolError::UnknownType { index: first_bad_kind(kinds@, n)->0 as usize })
    } else if n != arguments.len() {
        Err(ToolError::ArityError { expected: n as usize, found: arguments.len() as usize })
    } else if first_unparsed(kinds@, arguments, n) is Some {
        Err(
            ToolError::TypeMismatch {
                index: first_unparsed(kinds@, arguments, n)->0 as usize,
                declared: kinds@[first_unparsed(kinds@, arguments, n)->0 as int],
            },
        )
    } else if bytes.len() > usize::MAX {
        Err(ToolError::Oversized)
    } else {
        Ok(selector_of(signature) + bytes)
    }
}

/// The call data of a function: its selector, then the arguments, each
/// read from its text as the kind declared at its place.
pub fn encode(signature: &str, kinds: Vec<Kind>, arguments: &Vec<String>) -> (r: Result<
    Vec<u8>,
    ToolError,
>)
    ensures
        match r {
            Ok(bytes) => call_outcome(signature.spec_bytes(), kinds, arguments@) == Ok::<
                Seq<u8>,
                ToolError,
            >(bytes@),
            Err(e) => call_outcome(signature.spec_bytes(), kinds, arguments@) == Err::<
                Seq<u8>,
                ToolError,
            >(e),
        },
        match r {
            Ok(bytes) => {
                &&& kinds_ok(kinds@, kinds@.len())
                &&& kinds@.len() == arguments@.len()
                &&& first_unparsed(kinds@, arguments@, kinds@.len()) is None
                &&& bytes@ == selector_of(signature.spec_bytes()) + list_encoding(
                    Kind::Tuple(kinds),
                    parsed_values(kinds@, arguments@),
                    kinds@.len(),
                )
                &&& bytes@.subrange(0, 4) == selector_of(signature.spec_bytes())
            },
            Err(ToolError::UnknownType { index }) => first_bad_kind(kinds@, kinds@.len()) == Some(
                index as nat,
            ),
            Err(ToolError::ArityError { expected, found }) => {
                &&& kinds_ok(kinds@, kinds@.len())
                &&& expected == kinds@.len()
                &&& found == arguments@.len()
                &&& expected != found
            },
            Err(ToolError::TypeMismatch { index, declared }) => {
                &&& kinds_ok(kinds@, kinds@.len())
                &&& kinds@.len() == arguments@.len()
                &&& first_unparsed(kinds@, arguments@, kinds@.len()) == Some(index as nat)
                &&& declared == kinds@[index as int]
            },
            Err(ToolError::Oversized) => {
                &&& kinds_ok(kinds@, kinds@.len())
                &&& kinds@.len() == arguments@.len()
                &&& first_unparsed(kinds@, arguments@, kinds@.len()) is None
                &&& list_encoding(
                    Kind::Tuple(kinds),
                    parsed_values(kinds@, arguments@),
                    kinds@.len(),
                ).len() > usize::MAX
            },
            Err(_) => false,
        },
{
    proof {
        lemma_no_bad_kind(kinds@, kinds@.len());
    }
    match find_bad_kind(&kinds) {
        Some(index) => { return Err(ToolError::UnknownType { index }); },
        None => {},
    }
    if kinds.len() != arguments.len() {
        return Err(ToolError::ArityError { expected: kinds.len(), found: arguments.len() });
    }
    let values = match parse_arguments(&kinds, arguments) {
        Ok(values) => values,
        Err(index) => {
            proof {
                lemma_unparsed_bound(kinds@, arguments@, kinds@.len());
            }
            let declared = declared_at(Kind::Tuple(kinds), index);
            return Err(ToolError::TypeMismatch { index, declared });
        },
    };
    proof {
        lemma_parsed_fit(kinds, arguments@, kinds@.len());
        lemma_no_misfit(kinds, views_of(values@), kinds@.len());
    }
    let mut out = selector(signature);
    match append_params(&mut out, kinds, &values) {
        Ok(()) => {
            let total = out.len();
            proof {
                let tail = list_encoding(
                    Kind::Tuple(kinds),
                    parsed_values(kinds@, arguments@),
                    kinds@.len(),
                );
                assert(out@ == selector_of(signature.spec_bytes()) + tail);
                assert(out@.len() == total);
                assert(out@.subrange(0, 4) =~= selector_of(signature.spec_bytes()));
            }
            Ok(out)
        },
        Err(ToolError::Oversized) => Err(ToolError::Oversized),
        Err(other) => Err(other),
    }
}

} // verus!
