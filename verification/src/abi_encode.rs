//! From values to bytes.

use vstd::prelude::*;
use crate::abi::{
    all_fit, any_dynamic, count_word, element_kind, encoding, fits, head_len, heads, heads_len,
    int_in_range, is_dynamic, is_list, kind_ok, kinds_ok, list_encoding, tails, uint_in_range,
    views_of, Kind, Value, ValueView,
};
use crate::abi_kinds::{
    element, heads_size, kind_dynamic, lemma_element_ok, lemma_element_static, lemma_kinds_ok_at,
};
use crate::abi_words::{lemma_count_word_len, put_count, put_zeros};
use crate::wire::put_bytes;

verus! {

/// Whether the first `n` element kinds of a list kind are kinds of the
/// calling convention.
pub open spec fn list_ok(list: Kind, n: nat) -> bool {
    forall|i: int| 0 <= i < n ==> kind_ok(#[trigger] element_kind(list, i))
}

/// The elements of a well-formed list kind are well formed.
pub proof fn lemma_list_ok(list: Kind, n: nat)
    requires
        kind_ok(list),
        is_list(list, n),
    ensures
        list_ok(list, n),
{
    assert forall|i: int| 0 <= i < n implies kind_ok(#[trigger] element_kind(list, i)) by {
        lemma_element_ok(list, i);
    }
}

/// The declared kinds of a call form a well-formed list where each is well
/// formed.
pub proof fn lemma_arguments_ok(kinds: Vec<Kind>)
    requires
        kinds_ok(kinds@, kinds@.len()),
    ensures
        list_ok(Kind::Tuple(kinds), kinds@.len()),
{
    assert forall|i: int| 0 <= i < kinds@.len() implies kind_ok(
        #[trigger] element_kind(Kind::Tuple(kinds), i),
    ) by {
        lemma_kinds_ok_at(kinds@, kinds@.len(), i);
    }
}

/// Each of the first `n` values of a list that fits is of its kind.
pub proof fn lemma_all_fit_at(list: Kind, values: Seq<ValueView>, n: nat, i: int)
    requires
        all_fit(list, values, n),
        0 <= i < n,
    ensures
        is_list(list, n),
        n <= values.len(),
        fits(element_kind(list, i), values[i]),
        all_fit(list, values, i as nat),
        all_fit(list, values, (i + 1) as nat),
    decreases n,
{
    if i < n - 1 {
        lemma_all_fit_at(list, values, (n - 1) as nat, i);
    } else {
        if i > 0 {
            lemma_all_fit_at(list, values, (n - 1) as nat, i - 1);
        }
    }
}

/// A list without dynamic elements has no tails.
pub proof fn lemma_tails_of_static(list: Kind, values: Seq<ValueView>, n: nat)
    requires
        is_list(list, n),
        !any_dynamic(list, n),
    ensures
        tails(list, values, n) == Seq::<u8>::empty(),
    decreases n,
{
    if n > 0 {
        lemma_tails_of_static(list, values, (n - 1) as nat);
        assert(tails(list, values, n) =~= Seq::<u8>::empty());
    }
}

/// A static list kind has no dynamic element.
pub proof fn lemma_static_list(list: Kind, n: nat)
    requires
        list is FixedArray || list is Tuple,
        !is_dynamic(list),
        is_list(list, n),
    ensures
        !any_dynamic(list, n),
    decreases n,
{
    if n > 0 {
        lemma_static_list(list, (n - 1) as nat);
        lemma_element_static(list, n - 1);
    }
}

/// A value of a static kind takes as many bytes as its kind takes in the
/// heads.
pub proof fn lemma_encoding_len(kind: Kind, value: ValueView)
    requires
        kind_ok(kind),
        fits(kind, value),
        !is_dynamic(kind),
    ensures
        encoding(kind, value).len() == head_len(kind),
    decreases kind, 1nat, 0nat,
{
    match kind {
        Kind::FixedArray(_, len) => {
            lemma_list_ok(kind, len as nat);
            lemma_static_list(kind, len as nat);
            lemma_tails_of_static(kind, value->FixedArray_0, len as nat);
            lemma_heads_len(kind, value->FixedArray_0, len as nat, heads_len(kind, len as nat));
        },
        Kind::Tuple(ks) => {
            lemma_list_ok(kind, ks@.len());
            lemma_static_list(kind, ks@.len());
            lemma_tails_of_static(kind, value->Tuple_0, ks@.len());
            lemma_heads_len(kind, value->Tuple_0, ks@.len(), heads_len(kind, ks@.len()));
        },
        _ => {},
    }
}

/// The heads of a list take the room that its kinds say.
pub proof fn lemma_heads_len(list: Kind, values: Seq<ValueView>, n: nat, start: nat)
    requires
        list_ok(list, n),
        all_fit(list, values, n),
    ensures
        heads(list, values, n, start).len() == heads_len(list, n),
    decreases list, 0nat, n,
{
    if n > 0 {
        lemma_all_fit_at(list, values, n, n - 1);
        lemma_heads_len(list, values, (n - 1) as nat, start);
        let e = element_kind(list, n - 1);
        let last = if is_dynamic(e) {
            count_word(start + tails(list, values, (n - 1) as nat).len())
        } else {
            encoding(e, values[n - 1])
        };
        assert(heads(list, values, n, start) == heads(list, values, (n - 1) as nat, start) + last);
        assert(heads_len(list, n) == heads_len(list, (n - 1) as nat) + head_len(e));
        if is_dynamic(e) {
            lemma_count_word_len(start + tails(list, values, (n - 1) as nat).len());
        } else {
            assert(kind_ok(e));
            lemma_encoding_len(e, values[n - 1]);
        }
    }
}

/// Heads and tails grow with the number of elements.
pub proof fn lemma_parts_grow(list: Kind, values: Seq<ValueView>, m: nat, n: nat, start: nat)
    requires
        m <= n,
        is_list(list, n),
    ensures
        heads(list, values, m, start).len() <= heads(list, values, n, start).len(),
        tails(list, values, m).len() <= tails(list, values, n).len(),
    decreases n,
{
    if m < n {
        lemma_parts_grow(list, values, m, (n - 1) as nat, start);
    }
}

/// Whether the 32 bytes spell an unsigned number of at most `bits` bits.
pub fn word_is_uint(word: &[u8; 32], bits: usize) -> (ok: bool)
    ensures
        ok == uint_in_range(word@, bits),
{
    let lead: usize = if bits / 8 >= 32 {
        0
    } else {
        32 - bits / 8
    };
    let mut i: usize = 0;
    while i < lead
        invariant
            i <= lead <= 32,
            lead == if bits / 8 >= 32 {
                0
            } else {
                32 - bits / 8
            },
            forall|j: int| 0 <= j < i ==> #[trigger] word@[j] == 0,
        decreases lead - i,
    {
        if word[i] != 0 {
            return false;
        }
        i += 1;
    }
    true
}

/// Whether the 32 bytes spell a signed number of at most `bits` bits.
pub fn word_is_int(word: &[u8; 32], bits: usize) -> (ok: bool)
    ensures
        ok == int_in_range(word@, bits),
{
    if bits < 8 || bits > 256 {
        return false;
    }
    let lead: usize = 32 - bits / 8;
    let fill: u8 = if word[lead] >= 128 {
        255
    } else {
        0
    };
    let mut i: usize = 0;
    while i < lead
        invariant
            i <= lead < 32,
            lead == 32 - bits / 8,
            fill == if word@[lead as int] >= 128 {
                255u8
            } else {
                0u8
            },
            forall|j: int| 0 <= j < i ==> #[trigger] word@[j] == fill,
        decreases lead - i,
    {
        if word[i] != fill {
            return false;
        }
        i += 1;
    }
    true
}

/// Whether a value is of a kind.
pub fn value_fits(kind: &Kind, value: &Value) -> (ok: bool)
    ensures
        ok == fits(*kind, value@),
    decreases *kind, 1nat, 0nat,
{
    match (kind, value) {
        (Kind::Uint(bits), Value::Uint(word)) => word_is_uint(word, *bits),
        (Kind::Int(bits), Value::Int(word)) => word_is_int(word, *bits),
        (Kind::Bool, Value::Bool(_)) => true,
        (Kind::Address, Value::Address(_)) => true,
        (Kind::FixedBytes(len), Value::FixedBytes(bytes)) => bytes.len() == *len,
        (Kind::Bytes, Value::Bytes(_)) => true,
        (Kind::Array(_), Value::Array(items)) => values_fit(kind, items, items.len()),
        (Kind::FixedArray(_, len), Value::FixedArray(items)) => items.len() == *len && values_fit(
            kind,
            items,
            *len,
        ),
        (Kind::Tuple(ks), Value::Tuple(items)) => items.len() == ks.len() && values_fit(
            kind,
            items,
            ks.len(),
        ),
        _ => false,
    }
}

/// Whether each of the first `n` values is of its element kind.
pub fn values_fit(list: &Kind, values: &Vec<Value>, n: usize) -> (ok: bool)
    requires
        is_list(*list, n as nat),
        n <= values@.len(),
    ensures
        ok == all_fit(*list, views_of(values@), n as nat),
    decreases *list, 0nat, n,
{
    let mut i: usize = 0;
    while i < n
        invariant
            i <= n <= values@.len(),
            is_list(*list, n as nat),
            all_fit(*list, views_of(values@), i as nat),
        decreases n - i,
    {
        if !value_fits(element(list, i), &values[i]) {
            proof {
                if all_fit(*list, views_of(values@), n as nat) {
                    lemma_all_fit_at(*list, views_of(values@), n as nat, i as int);
                }
            }
            return false;
        }
        i += 1;
    }
    true
}

/// Append the bytes of a value of a kind. The result tells whether they
/// were appended: they are not where an offset within them does not fit a
/// `usize`.
pub fn put_value(out: &mut Vec<u8>, kind: &Kind, value: &Value) -> (done: bool)
    requires
        kind_ok(*kind),
        fits(*kind, value@),
    ensures
        done ==> final(out)@ == old(out)@ + encoding(*kind, value@),
        !done ==> encoding(*kind, value@).len() > usize::MAX,
    decreases *kind, 1nat, 0nat,
{
    match (kind, value) {
        (Kind::Uint(_), Value::Uint(word)) => {
            put_bytes(out, word.as_slice());
            true
        },
        (Kind::Int(_), Value::Int(word)) => {
            put_bytes(out, word.as_slice());
            true
        },
        (Kind::Bool, Value::Bool(b)) => {
            put_zeros(out, 31);
            out.push(if *b { 1 } else { 0 });
            proof {
                assert(out@ =~= old(out)@ + encoding(*kind, value@));
            }
            true
        },
        (Kind::Address, Value::Address(a)) => {
            put_zeros(out, 12);
            put_bytes(out, a.as_slice());
            proof {
                assert(out@ =~= old(out)@ + encoding(*kind, value@));
            }
            true
        },
        (Kind::FixedBytes(_), Value::FixedBytes(bytes)) => {
            put_bytes(out, bytes.as_slice());
            put_zeros(out, 32 - bytes.len());
            proof {
                assert(out@ =~= old(out)@ + encoding(*kind, value@));
            }
            true
        },
        (Kind::Bytes, Value::Bytes(bytes)) => {
            put_count(out, bytes.len());
            put_bytes(out, bytes.as_slice());
            put_zeros(out, (32 - bytes.len() % 32) % 32);
            proof {
                assert(out@ =~= old(out)@ + encoding(*kind, value@));
            }
            true
        },
        (Kind::Array(_), Value::Array(items)) => {
            put_count(out, items.len());
            proof {
                lemma_list_ok(*kind, items@.len());
            }
            let done = put_list(out, kind, items, items.len());
            proof {
                lemma_count_word_len(items@.len());
                if done {
                    assert(out@ =~= old(out)@ + encoding(*kind, value@));
                }
            }
            done
        },
        (Kind::FixedArray(_, len), Value::FixedArray(items)) => {
            proof {
                lemma_list_ok(*kind, *len as nat);
            }
            put_list(out, kind, items, *len)
        },
        (Kind::Tuple(ks), Value::Tuple(items)) => {
            proof {
                lemma_list_ok(*kind, ks@.len());
            }
            put_list(out, kind, items, ks.len())
        },
        // Not taken: the value is of the kind.
        _ => true,
    }
}

/// Append the bytes of the first `n` values of a list: heads, then tails.
pub fn put_list(out: &mut Vec<u8>, list: &Kind, values: &Vec<Value>, n: usize) -> (done: bool)
    requires
        list_ok(*list, n as nat),
        all_fit(*list, views_of(values@), n as nat),
    ensures
        done ==> final(out)@ == old(out)@ + list_encoding(*list, views_of(values@), n as nat),
        !done ==> list_encoding(*list, views_of(values@), n as nat).len() > usize::MAX,
    decreases *list, 0nat, n,
{
    let ghost views = views_of(values@);
    proof {
        if n > 0 {
            lemma_all_fit_at(*list, views, n as nat, 0);
        }
        lemma_heads_len(*list, views, n as nat, heads_len(*list, n as nat));
    }
    if n == 0 {
        proof {
            assert(out@ =~= old(out)@ + list_encoding(*list, views, 0));
        }
        return true;
    }
    let start = match heads_size(list, n) {
        Some(start) => start,
        None => { return false; },
    };
    let mut front: Vec<u8> = Vec::new();
    let mut back: Vec<u8> = Vec::new();
    let mut i: usize = 0;
    while i < n
        invariant
            i <= n <= values@.len(),
            is_list(*list, n as nat),
            list_ok(*list, n as nat),
            views == views_of(values@),
            all_fit(*list, views, n as nat),
            start == heads_len(*list, n as nat),
            heads(*list, views, n as nat, start as nat).len() == start,
            front@ == heads(*list, views, i as nat, start as nat),
            back@ == tails(*list, views, i as nat),
        decreases n - i,
    {
        proof {
            lemma_all_fit_at(*list, views, n as nat, i as int);
            lemma_parts_grow(*list, views, i as nat, n as nat, start as nat);
            lemma_parts_grow(*list, views, (i + 1) as nat, n as nat, start as nat);
        }
        let kind = element(list, i);
        assert(kind_ok(*kind));
        if kind_dynamic(kind) {
            if back.len() > usize::MAX - start {
                return false;
            }
            put_count(&mut front, start + back.len());
            if !put_value(&mut back, kind, &values[i]) {
                return false;
            }
        } else {
            if !put_value(&mut front, kind, &values[i]) {
                return false;
            }
            proof {
                assert(back@ =~= tails(*list, views, (i + 1) as nat));
            }
        }
        i += 1;
    }
    put_bytes(out, front.as_slice());
    put_bytes(out, back.as_slice());
    proof {
        assert(out@ =~= old(out)@ + list_encoding(*list, views, n as nat));
    }
    true
}

} // verus!
