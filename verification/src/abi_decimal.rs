//! Integers written in decimal digits.

use vstd::prelude::*;
use vstd::string::StrSliceExecFns;
use crate::abi::{be_bytes, be_value};
use crate::abi_words::{lemma_be_value_bound, pow256};

verus! {

/// Whether a character is a decimal digit.
pub open spec fn is_digit(c: char) -> bool {
    48 <= c as int <= 57
}

/// One or more decimal digits.
pub open spec fn is_decimal(text: Seq<char>) -> bool {
    &&& 1 <= text.len()
    &&& forall|i: int| 0 <= i < text.len() ==> is_digit(#[trigger] text[i])
}

/// The number that decimal digits spell.
pub open spec fn decimal_value(text: Seq<char>) -> nat
    decreases text.len(),
{
    if text.len() == 0 {
        0
    } else {
        10 * decimal_value(text.drop_last()) + (text.last() as int - 48) as nat
    }
}

/// The word of a number written in decimal digits, where the digits spell
/// a number below 2^256.
pub open spec fn decimal_word(text: Seq<char>) -> Option<Seq<u8>> {
    if is_decimal(text) && decimal_value(text) < pow256(32) {
        Some(be_bytes(decimal_value(text), 32))
    } else {
        None
    }
}

/// The bytes that spell a number are its digits in base 256.
pub proof fn lemma_be_bytes_of_value(bytes: Seq<u8>)
    ensures
        be_bytes(be_value(bytes), bytes.len()) == bytes,
    decreases bytes.len(),
{
    if bytes.len() > 0 {
        let front = bytes.drop_last();
        lemma_be_bytes_of_value(front);
        let n = be_value(bytes);
        assert(n / 256 == be_value(front) && n % 256 == bytes.last() as nat);
        assert(be_bytes(n, bytes.len()) =~= bytes);
    } else {
        assert(be_bytes(be_value(bytes), 0) =~= bytes);
    }
}

/// The number that bytes spell, told by the first byte and the rest.
pub proof fn lemma_be_value_head(bytes: Seq<u8>)
    requires
        bytes.len() > 0,
    ensures
        be_value(bytes) == bytes[0] * pow256((bytes.len() - 1) as nat) + be_value(bytes.skip(1)),
    decreases bytes.len(),
{
    let front = bytes.drop_last();
    assert(be_value(bytes) == 256 * be_value(front) + bytes.last() as nat);
    if bytes.len() == 1 {
        assert(be_value(front) == 0);
        assert(be_value(bytes.skip(1)) == 0);
        assert(pow256(0) == 1);
        assert(bytes.last() == bytes[0]);
        assert(bytes[0] * pow256((bytes.len() - 1) as nat) == bytes[0] as nat) by (nonlinear_arith)
            requires
                pow256((bytes.len() - 1) as nat) == 1,
        ;
    } else {
        lemma_be_value_head(front);
        assert(be_value(bytes.skip(1)) == 256 * be_value(bytes.skip(1).drop_last())
            + bytes.skip(1).last() as nat);
        assert(front.skip(1) =~= bytes.skip(1).drop_last());
        assert(front[0] == bytes[0]);
        assert(bytes.skip(1).last() == bytes.last());
        let p = pow256((bytes.len() - 2) as nat);
        assert(pow256((bytes.len() - 1) as nat) == 256 * p);
        let rest = be_value(front.skip(1));
        let head = bytes[0] as nat;
        let last = bytes.last() as nat;
        assert(256 * (head * p + rest) + last == head * (256 * p) + (256 * rest + last))
            by (nonlinear_arith);
        assert(bytes[0] * pow256((bytes.len() - 1) as nat) == head * (256 * p)) by (nonlinear_arith)
            requires
                pow256((bytes.len() - 1) as nat) == 256 * p,
                head == bytes[0],
        ;
    }
}

/// More digits spell no smaller a number.
pub proof fn lemma_decimal_grows(text: Seq<char>, m: int)
    requires
        0 <= m <= text.len(),
    ensures
        decimal_value(text.subrange(0, m)) <= decimal_value(text),
    decreases text.len() - m,
{
    if m < text.len() {
        lemma_decimal_grows(text.drop_last(), m);
        assert(text.drop_last().subrange(0, m) =~= text.subrange(0, m));
    } else {
        assert(text.subrange(0, m) =~= text);
    }
}

/// Multiply the number in a word by ten and add a digit. The result tells
/// whether the outcome fits the word.
fn times_ten_plus(word: &mut [u8; 32], digit: u8) -> (fits: bool)
    requires
        digit <= 9,
    ensures
        fits ==> be_value(final(word)@) == 10 * be_value(old(word)@) + digit,
        !fits ==> 10 * be_value(old(word)@) + digit >= pow256(32),
{
    let ghost start = word@;
    let mut carry: u32 = digit as u32;
    let mut i: usize = 32;
    proof {
        assert(be_value(word@.subrange(32, 32)) == 0);
        assert(be_value(start.subrange(32, 32)) == 0);
        assert(pow256(0) == 1);
        assert(carry * pow256(0) == digit);
    }
    while i > 0
        invariant
            i <= 32,
            carry <= 9,
            start.len() == 32,
            word@.subrange(0, i as int) == start.subrange(0, i as int),
            be_value(word@.subrange(i as int, 32)) + carry * pow256((32 - i) as nat) == 10
                * be_value(start.subrange(i as int, 32)) + digit,
        decreases i,
    {
        let at: usize = i - 1;
        let ghost before = word@;
        let ghost p = pow256((32 - i) as nat);
        let ghost low_new = be_value(before.subrange(i as int, 32));
        let ghost low_old = be_value(start.subrange(i as int, 32));
        let old_byte: u8 = word[at];
        assert(old_byte == start[at as int]) by {
            assert(before.subrange(0, i as int)[at as int] == start.subrange(0, i as int)[at as int]);
        }
        let t: u32 = old_byte as u32 * 10 + carry;
        let new_byte: u8 = (t % 256) as u8;
        let next: u32 = t / 256;
        word[at] = new_byte;
        proof {
            let now = word@.subrange(at as int, 32);
            let then = start.subrange(at as int, 32);
            lemma_be_value_head(now);
            lemma_be_value_head(then);
            assert(now.skip(1) =~= before.subrange(i as int, 32));
            assert(then.skip(1) =~= start.subrange(i as int, 32));
            assert(pow256((32 - at) as nat) == 256 * p);
            assert(word@.subrange(0, at as int) =~= start.subrange(0, at as int));
            let nb = new_byte as nat;
            let ob = old_byte as nat;
            let c0 = carry as nat;
            let c1 = next as nat;
            let d = digit as nat;
            assert(nb + 256 * c1 == 10 * ob + c0);
            assert(nb * p + low_new + c1 * (256 * p) == 10 * (ob * p + low_old) + d)
                by (nonlinear_arith)
                requires
                    nb + 256 * c1 == 10 * ob + c0,
                    low_new + c0 * p == 10 * low_old + d,
            ;
        }
        carry = next;
        i = at;
    }
    proof {
        assert(word@.subrange(0, 32) =~= word@);
        assert(start.subrange(0, 32) =~= start);
        if carry != 0 {
            assert(carry * pow256(32) >= pow256(32)) by (nonlinear_arith)
                requires
                    carry >= 1,
            ;
        }
    }
    carry == 0
}

/// Read an unsigned number of at most 256 bits from decimal digits.
pub fn parse_decimal(text: &str) -> (r: Option<[u8; 32]>)
    ensures
        match decimal_word(text@) {
            Some(word) => r is Some && r->0@ == word,
            None => r is None,
        },
{
    let n = text.unicode_len();
    if n == 0 {
        return None;
    }
    let mut word: [u8; 32] = [0u8; 32];
    let mut i: usize = 0;
    proof {
        assert(text@.subrange(0, 0).len() == 0);
        lemma_zero_word(word@);
    }
    while i < n
        invariant
            i <= n,
            n == text@.len(),
            forall|j: int| 0 <= j < i ==> is_digit(#[trigger] text@[j]),
            be_value(word@) == decimal_value(text@.subrange(0, i as int)),
        decreases n - i,
    {
        let c = text.get_char(i);
        if c < '0' || c > '9' {
            return None;
        }
        let digit: u8 = (c as u32 - 48) as u8;
        proof {
            let more = text@.subrange(0, i + 1);
            assert(more.drop_last() =~= text@.subrange(0, i as int));
            assert(more.last() == c);
            lemma_decimal_grows(text@, i + 1);
        }
        if !times_ten_plus(&mut word, digit) {
            return None;
        }
        i += 1;
    }
    proof {
        assert(text@.subrange(0, n as int) =~= text@);
        lemma_be_value_bound(word@);
        lemma_be_bytes_of_value(word@);
    }
    Some(word)
}

/// Zero bytes spell zero.
pub proof fn lemma_zero_word(bytes: Seq<u8>)
    requires
        forall|i: int| 0 <= i < bytes.len() ==> bytes[i] == 0,
    ensures
        be_value(bytes) == 0,
    decreases bytes.len(),
{
    if bytes.len() > 0 {
        lemma_zero_word(bytes.drop_last());
    }
}

/// The word of the negative of a number below 2^256, in two's complement:
/// zero for zero, else 2^256 less the number.
pub open spec fn negated_word(n: nat) -> Seq<u8> {
    if n == 0 {
        be_bytes(0, 32)
    } else {
        be_bytes((pow256(32) - n) as nat, 32)
    }
}

/// Turn the number in a word into its negative in two's complement.
pub fn negate(word: &mut [u8; 32])
    ensures
        final(word)@ == negated_word(be_value(old(word)@)),
{
    let ghost start = word@;
    let mut carry: u32 = 1;
    let mut i: usize = 32;
    proof {
        assert(be_value(word@.subrange(32, 32)) == 0);
        assert(be_value(start.subrange(32, 32)) == 0);
        assert(pow256(0) == 1);
        assert(carry * pow256(0) == 1);
    }
    while i > 0
        invariant
            i <= 32,
            carry <= 1,
            start.len() == 32,
            word@.subrange(0, i as int) == start.subrange(0, i as int),
            be_value(word@.subrange(i as int, 32)) + carry * pow256((32 - i) as nat) == pow256(
                (32 - i) as nat,
            ) - be_value(start.subrange(i as int, 32)),
        decreases i,
    {
        let at: usize = i - 1;
        let ghost before = word@;
        let ghost p = pow256((32 - i) as nat);
        let ghost low_new = be_value(before.subrange(i as int, 32));
        let ghost low_old = be_value(start.subrange(i as int, 32));
        let old_byte: u8 = word[at];
        assert(old_byte == start[at as int]) by {
            assert(before.subrange(0, i as int)[at as int] == start.subrange(0, i as int)[at as int]);
        }
        let t: u32 = (255 - old_byte) as u32 + carry;
        let new_byte: u8 = (t % 256) as u8;
        let next: u32 = t / 256;
        word[at] = new_byte;
        proof {
            let now = word@.subrange(at as int, 32);
            let then = start.subrange(at as int, 32);
            lemma_be_value_head(now);
            lemma_be_value_head(then);
            assert(now.skip(1) =~= before.subrange(i as int, 32));
            assert(then.skip(1) =~= start.subrange(i as int, 32));
            assert(pow256((32 - at) as nat) == 256 * p);
            assert(word@.subrange(0, at as int) =~= start.subrange(0, at as int));
            let nb = new_byte as int;
            let ob = old_byte as int;
            let c0 = carry as int;
            let c1 = next as int;
            assert(nb + 256 * c1 == 255 - ob + c0);
            assert(nb * p + low_new + c1 * (256 * p) == 256 * p - (ob * p + low_old))
                by (nonlinear_arith)
                requires
                    nb + 256 * c1 == 255 - ob + c0,
                    low_new + c0 * p == p - low_old,
            ;
        }
        carry = next;
        i = at;
    }
    proof {
        assert(word@.subrange(0, 32) =~= word@);
        assert(start.subrange(0, 32) =~= start);
        lemma_be_value_bound(word@);
        lemma_be_value_bound(start);
        lemma_be_bytes_of_value(word@);
        let n = be_value(start);
        if carry == 1 {
            assert(carry * pow256(32) == pow256(32));
            assert(n == 0);
        } else {
            assert(carry * pow256(32) == 0);
        }
    }
}

} // verus!
