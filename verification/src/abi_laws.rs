//! Decoding gives back what was encoded.

use vstd::prelude::*;
use crate::abi::{
    all_fit, count_word, decoding, element_at, element_kind, encoding, fits, head_len,
    heads, heads_len, is_dynamic, is_list, kind_ok, kinds_ok, list_decoding, list_encoding, tails,
    zeros, Kind, ValueView,
};
use crate::abi_encode::{
    lemma_all_fit_at, lemma_arguments_ok, lemma_encoding_len, lemma_heads_len, lemma_list_ok,
    lemma_parts_grow, list_ok,
};
use crate::abi_call::{lemma_no_bad_kind, selector_of};
use crate::abi_text::{call_outcome, lemma_parsed_fit, parsed_values};
use crate::abi_words::{lemma_count_at_word, lemma_count_word_len};

verus! {

/// The head of the element `i` of a list whose heads take `start` bytes.
pub open spec fn head_of(list: Kind, values: Seq<ValueView>, i: nat, start: nat) -> Seq<u8> {
    if is_dynamic(element_kind(list, i as int)) {
        count_word(start + tails(list, values, i).len())
    } else {
        encoding(element_kind(list, i as int), values[i as int])
    }
}

/// The head of each element stands in the heads where the kinds in front
/// of it say.
pub proof fn lemma_head_in_heads(list: Kind, values: Seq<ValueView>, n: nat, start: nat, i: nat)
    requires
        list_ok(list, n),
        all_fit(list, values, n),
        i < n,
    ensures
        heads_len(list, (i + 1) as nat) <= heads(list, values, n, start).len(),
        heads(list, values, n, start).subrange(
            heads_len(list, i) as int,
            heads_len(list, (i + 1) as nat) as int,
        ) == head_of(list, values, i, start),
    decreases n,
{
    lemma_all_fit_at(list, values, n, n - 1);
    let front = heads(list, values, (n - 1) as nat, start);
    let last = head_of(list, values, (n - 1) as nat, start);
    let all = heads(list, values, n, start);
    assert(all == front + last);
    lemma_heads_len(list, values, (n - 1) as nat, start);
    lemma_heads_len(list, values, n, start);
    assert(heads_len(list, n) == heads_len(list, (n - 1) as nat) + head_len(
        element_kind(list, n - 1),
    ));
    if i < n - 1 {
        lemma_head_in_heads(list, values, (n - 1) as nat, start, i);
        assert(all.subrange(heads_len(list, i) as int, heads_len(list, (i + 1) as nat) as int)
            =~= front.subrange(heads_len(list, i) as int, heads_len(list, (i + 1) as nat) as int));
    } else {
        assert(all.subrange(heads_len(list, i) as int, heads_len(list, (i + 1) as nat) as int)
            =~= last);
    }
}

/// Each dynamic element stands in the tails behind the dynamic elements in
/// front of it.
pub proof fn lemma_value_in_tails(list: Kind, values: Seq<ValueView>, n: nat, i: nat)
    requires
        is_list(list, n),
        i < n,
        is_dynamic(element_kind(list, i as int)),
    ensures
        tails(list, values, (i + 1) as nat).len() <= tails(list, values, n).len(),
        tails(list, values, (i + 1) as nat).len() == tails(list, values, i).len() + encoding(
            element_kind(list, i as int),
            values[i as int],
        ).len(),
        tails(list, values, n).subrange(
            tails(list, values, i).len() as int,
            tails(list, values, (i + 1) as nat).len() as int,
        ) == encoding(element_kind(list, i as int), values[i as int]),
    decreases n,
{
    let all = tails(list, values, n);
    let front = tails(list, values, (n - 1) as nat);
    let lo = tails(list, values, i).len() as int;
    let hi = tails(list, values, (i + 1) as nat).len() as int;
    lemma_parts_grow(list, values, (i + 1) as nat, n, 0);
    if i < n - 1 {
        lemma_value_in_tails(list, values, (n - 1) as nat, i);
        assert(all.subrange(lo, hi) =~= front.subrange(lo, hi));
    } else {
        assert(all.subrange(lo, hi) =~= encoding(element_kind(list, i as int), values[i as int]));
    }
}

/// A value of its kind is read back from its bytes, wherever in a buffer
/// they stand.
pub proof fn lemma_decoding_of_encoding(kind: Kind, value: ValueView, buf: Seq<u8>, pos: int)
    requires
        kind_ok(kind),
        fits(kind, value),
        0 <= pos,
        pos + encoding(kind, value).len() <= buf.len() <= u64::MAX,
        buf.subrange(pos, pos + encoding(kind, value).len()) == encoding(kind, value),
    ensures
        decoding(kind, buf, pos) == Some(value),
    decreases kind, 1nat, 0nat,
{
    let bytes = encoding(kind, value);
    let word = buf.subrange(pos, pos + 32);
    match kind {
        Kind::Uint(_) => {
            assert(word =~= bytes);
        },
        Kind::Int(_) => {
            assert(word =~= bytes);
        },
        Kind::Bool => {
            assert(word =~= bytes);
            assert(word.subrange(0, 31) =~= zeros(31));
        },
        Kind::Address => {
            assert(word =~= bytes);
            assert(word.subrange(12, 32) =~= value->Address_0);
        },
        Kind::FixedBytes(len) => {
            assert(word =~= bytes);
            assert(word.subrange(0, len as int) =~= value->FixedBytes_0);
        },
        Kind::Bytes => {
            let data = value->Bytes_0;
            lemma_count_word_len(data.len());
            assert(word =~= count_word(data.len()));
            lemma_count_at_word(buf, pos, data.len());
            assert(buf.subrange(pos + 32, pos + 32 + data.len()) =~= data) by {
                let whole = buf.subrange(pos, pos + bytes.len());
                assert(whole.subrange(32, (32 + data.len()) as int) =~= buf.subrange(
                    pos + 32,
                    pos + 32 + data.len(),
                ));
                assert(bytes.subrange(32, (32 + data.len()) as int) =~= data);
            }
        },
        Kind::Array(_) => {
            let items = value->Array_0;
            let n = items.len();
            lemma_count_word_len(n);
            assert(word =~= count_word(n));
            assert(n <= u64::MAX) by {
                lemma_list_ok(kind, n);
                lemma_heads_len(kind, items, n, heads_len(kind, n));
                crate::abi_decode::lemma_list_heads_count(kind, n);
            }
            lemma_count_at_word(buf, pos, n);
            let inner = list_encoding(kind, items, n);
            assert(buf.subrange(pos + 32, pos + 32 + inner.len()) =~= inner) by {
                let whole = buf.subrange(pos, pos + bytes.len());
                assert(whole.subrange(32, (32 + inner.len()) as int) =~= buf.subrange(
                    pos + 32,
                    pos + 32 + inner.len(),
                ));
                assert(bytes.subrange(32, (32 + inner.len()) as int) =~= inner);
            }
            lemma_list_ok(kind, n);
            lemma_list_decoding_of_encoding(kind, items, n, buf, pos + 32, n);
            assert(items.take(n as int) =~= items);
        },
        Kind::FixedArray(_, len) => {
            let items = value->FixedArray_0;
            lemma_list_ok(kind, len as nat);
            lemma_list_decoding_of_encoding(kind, items, len as nat, buf, pos, len as nat);
            assert(items.take(len as int) =~= items);
        },
        Kind::Tuple(ks) => {
            let items = value->Tuple_0;
            lemma_list_ok(kind, ks@.len());
            lemma_list_decoding_of_encoding(kind, items, ks@.len(), buf, pos, ks@.len());
            assert(items.take(ks@.len() as int) =~= items);
        },
    }
}

/// The first `i` values of a list are read back from the bytes of the
/// list, wherever in a buffer they stand.
pub proof fn lemma_list_decoding_of_encoding(
    list: Kind,
    values: Seq<ValueView>,
    n: nat,
    buf: Seq<u8>,
    base: int,
    i: nat,
)
    requires
        list_ok(list, n),
        all_fit(list, values, n),
        i <= n,
        0 <= base,
        base + list_encoding(list, values, n).len() <= buf.len() <= u64::MAX,
        buf.subrange(base, base + list_encoding(list, values, n).len()) == list_encoding(
            list,
            values,
            n,
        ),
    ensures
        list_decoding(list, buf, base, i) == Some(values.take(i as int)),
    decreases list, 0nat, i,
{
    if i == 0 {
        assert(values.take(0) =~= Seq::<ValueView>::empty());
    } else {
        let j = (i - 1) as nat;
        lemma_list_decoding_of_encoding(list, values, n, buf, base, j);
        lemma_all_fit_at(list, values, n, j as int);
        let start = heads_len(list, n);
        let all = list_encoding(list, values, n);
        let front = heads(list, values, n, start);
        let back = tails(list, values, n);
        let e = element_kind(list, j as int);
        let v = values[j as int];
        assert(kind_ok(e));
        lemma_heads_len(list, values, n, start);
        lemma_head_in_heads(list, values, n, start, j);
        let lo = heads_len(list, j) as int;
        let hi = heads_len(list, i) as int;
        assert(buf.subrange(base + lo, base + hi) =~= front.subrange(lo, hi)) by {
            assert(buf.subrange(base, base + all.len()).subrange(lo, hi) =~= buf.subrange(
                base + lo,
                base + hi,
            ));
            assert(all.subrange(lo, hi) =~= front.subrange(lo, hi));
        }
        assert(hi == lo + head_len(e));
        if is_dynamic(e) {
            let far = start + tails(list, values, j).len();
            lemma_value_in_tails(list, values, n, j);
            let end = start + tails(list, values, i).len();
            assert(end <= all.len());
            lemma_count_at_word(buf, base + lo, far);
            assert(element_at(list, buf, base, j) == Some(base + far));
            assert(buf.subrange(base + far, base + end) =~= encoding(e, v)) by {
                assert(buf.subrange(base, base + all.len()).subrange(far as int, end as int)
                    =~= buf.subrange(base + far, base + end));
                assert(all.subrange(far as int, end as int) =~= back.subrange(
                    far - start,
                    end - start,
                ));
            }
            lemma_decoding_of_encoding(e, v, buf, base + far);
        } else {
            lemma_encoding_len(e, v);
            assert(element_at(list, buf, base, j) == Some(base + lo));
            lemma_decoding_of_encoding(e, v, buf, base + lo);
        }
        assert(values.take(i as int) =~= values.take(j as int).push(v));
    }
}

/// Decoding the bytes of a call's arguments against the declared kinds
/// gives the arguments back.
pub proof fn lemma_round_trip(kinds: Vec<Kind>, values: Seq<ValueView>)
    requires
        kinds_ok(kinds@, kinds@.len()),
        values.len() == kinds@.len(),
        all_fit(Kind::Tuple(kinds), values, kinds@.len()),
        list_encoding(Kind::Tuple(kinds), values, kinds@.len()).len() <= u64::MAX,
    ensures
        list_decoding(
            Kind::Tuple(kinds),
            list_encoding(Kind::Tuple(kinds), values, kinds@.len()),
            0,
            kinds@.len(),
        ) == Some(values),
{
    let list = Kind::Tuple(kinds);
    let n = kinds@.len();
    let bytes = list_encoding(list, values, n);
    lemma_arguments_ok(kinds);
    assert(bytes.subrange(0, bytes.len() as int) =~= bytes);
    lemma_list_decoding_of_encoding(list, values, n, bytes, 0, n);
    assert(values.take(n as int) =~= values);
}

/// The call data of a call, behind its selector, decodes against the
/// declared kinds to the values that the argument texts stand for.
pub proof fn lemma_call_round_trip(signature: Seq<u8>, kinds: Vec<Kind>, arguments: Seq<String>)
    requires
        call_outcome(signature, kinds, arguments) is Ok,
    ensures
        list_decoding(
            Kind::Tuple(kinds),
            call_outcome(signature, kinds, arguments)->Ok_0.skip(
                selector_of(signature).len() as int,
            ),
            0,
            kinds@.len(),
        ) == Some(parsed_values(kinds@, arguments)),
{
    let n = kinds@.len();
    let values = parsed_values(kinds@, arguments);
    let bytes = list_encoding(Kind::Tuple(kinds), values, n);
    lemma_no_bad_kind(kinds@, n);
    lemma_parsed_fit(kinds, arguments, n);
    lemma_round_trip(kinds, values);
    assert((selector_of(signature) + bytes).skip(selector_of(signature).len() as int) =~= bytes);
}

} // verus!
