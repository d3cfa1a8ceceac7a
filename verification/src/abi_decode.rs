//! From bytes to values. Nothing is read outside the buffer: a count or an
//! offset that leads past its end is refused.

use vstd::prelude::*;
use crate::abi::{
    count_at, decoding, element_at, element_kind, head_len, heads_len, is_dynamic, is_list,
    kind_ok, list_decoding, views_of, Kind, Value, ValueView,
};
use crate::abi_encode::{lemma_list_ok, list_ok};
use crate::abi_kinds::{element, head_size, kind_dynamic, lemma_head_len_min, lemma_heads_len_grows};
use crate::abi_words::{all_zero, take_count};
use crate::wire::copy_range;

verus! {

/// Where the first values of a list stand, fewer of them stand too.
pub proof fn lemma_list_decoding_prefix(list: Kind, buf: Seq<u8>, base: int, m: nat, n: nat)
    requires
        m <= n,
        list_decoding(list, buf, base, n) is Some,
    ensures
        list_decoding(list, buf, base, m) is Some,
    decreases n,
{
    if m < n {
        lemma_list_decoding_prefix(list, buf, base, m, (n - 1) as nat);
    }
}

/// A value that stands at `pos` has there at least the room that its kind
/// takes in the heads.
pub proof fn lemma_decoding_room(kind: Kind, buf: Seq<u8>, pos: int)
    requires
        kind_ok(kind),
        decoding(kind, buf, pos) is Some,
    ensures
        0 <= pos,
        pos + head_len(kind) <= buf.len(),
    decreases kind, 1nat, 0nat,
{
    match kind {
        Kind::FixedArray(_, len) => {
            lemma_list_ok(kind, len as nat);
            lemma_list_decoding_room(kind, buf, pos, len as nat);
            lemma_head_len_min(kind);
            if is_dynamic(kind) {
                lemma_list_heads_min(kind, len as nat);
            }
        },
        Kind::Tuple(ks) => {
            lemma_list_ok(kind, ks@.len());
            lemma_list_decoding_room(kind, buf, pos, ks@.len());
            lemma_head_len_min(kind);
            if is_dynamic(kind) {
                lemma_list_heads_min(kind, ks@.len());
            }
        },
        _ => {},
    }
}

/// The heads of a list of at least one well-formed kind take at least a
/// word.
pub proof fn lemma_list_heads_min(list: Kind, n: nat)
    requires
        list_ok(list, n),
        is_list(list, n),
        n >= 1,
    ensures
        heads_len(list, n) >= 32,
{
    lemma_heads_len_grows(list, 1, n);
    assert(heads_len(list, 1) == heads_len(list, 0) + head_len(element_kind(list, 0)));
    lemma_head_len_min(element_kind(list, 0));
}

/// A list of at least one value that stands at `base` has there the room
/// of its heads.
pub proof fn lemma_list_decoding_room(list: Kind, buf: Seq<u8>, base: int, n: nat)
    requires
        list_ok(list, n),
        n >= 1,
        list_decoding(list, buf, base, n) is Some,
    ensures
        is_list(list, n),
        0 <= base,
        base + heads_len(list, n) <= buf.len(),
    decreases list, 0nat, n,
{
    let e = element_kind(list, n - 1);
    let head = base + heads_len(list, (n - 1) as nat);
    if n > 1 {
        lemma_list_decoding_room(list, buf, base, (n - 1) as nat);
    }
    assert(kind_ok(e));
    assert(heads_len(list, n) == heads_len(list, (n - 1) as nat) + head_len(e));
    if !is_dynamic(e) {
        lemma_decoding_room(e, buf, head);
    }
}

/// A copy of the word at `pos`.
fn take_word(buf: &[u8], pos: usize) -> (word: [u8; 32])
    requires
        pos + 32 <= buf@.len(),
    ensures
        word@ == buf@.subrange(pos as int, pos + 32),
{
    let total: usize = buf.len();
    let mut word: [u8; 32] = [0u8; 32];
    let mut i: usize = 0;
    while i < 32
        invariant
            i <= 32,
            pos + 32 <= buf@.len(),
            buf@.len() == total,
            forall|j: int| 0 <= j < i ==> word@[j] == buf@[pos + j],
        decreases 32 - i,
    {
        word[i] = buf[pos + i];
        i += 1;
    }
    proof {
        assert(word@ =~= buf@.subrange(pos as int, pos + 32));
    }
    word
}

/// A copy of the last twenty bytes of the word at `pos`.
fn take_address(buf: &[u8], pos: usize) -> (address: [u8; 20])
    requires
        pos + 32 <= buf@.len(),
    ensures
        address@ == buf@.subrange(pos + 12, pos + 32),
{
    let total: usize = buf.len();
    let mut address: [u8; 20] = [0u8; 20];
    let mut i: usize = 0;
    while i < 20
        invariant
            i <= 20,
            pos + 32 <= buf@.len(),
            buf@.len() == total,
            forall|j: int| 0 <= j < i ==> address@[j] == buf@[pos + 12 + j],
        decreases 20 - i,
    {
        address[i] = buf[pos + 12 + i];
        i += 1;
    }
    proof {
        assert(address@ =~= buf@.subrange(pos + 12, pos + 32));
    }
    address
}

/// Read the value of a kind that stands at `pos`.
pub fn take_value(buf: &[u8], kind: &Kind, pos: usize) -> (r: Option<Value>)
    requires
        kind_ok(*kind),
    ensures
        match decoding(*kind, buf@, pos as int) {
            Some(value) => r is Some && r->0@ == value,
            None => r is None,
        },
    decreases *kind, 1nat, 0nat,
{
    let ghost word = buf@.subrange(pos as int, pos + 32);
    let room: bool = buf.len() >= 32 && pos <= buf.len() - 32;
    match kind {
        Kind::Uint(_) => {
            if !room {
                return None;
            }
            Some(Value::Uint(take_word(buf, pos)))
        },
        Kind::Int(_) => {
            if !room {
                return None;
            }
            Some(Value::Int(take_word(buf, pos)))
        },
        Kind::Bool => {
            if !room {
                return None;
            }
            proof {
                assert(word.subrange(0, 31) =~= buf@.subrange(pos as int, pos + 31));
            }
            if all_zero(buf, pos, pos + 31) {
                Some(Value::Bool(buf[pos + 31] == 1))
            } else {
                None
            }
        },
        Kind::Address => {
            if !room {
                return None;
            }
            proof {
                assert(word.subrange(12, 32) =~= buf@.subrange(pos + 12, pos + 32));
            }
            Some(Value::Address(take_address(buf, pos)))
        },
        Kind::FixedBytes(len) => {
            if !room {
                return None;
            }
            proof {
                assert(word.subrange(0, *len as int) =~= buf@.subrange(pos as int, pos + *len));
            }
            Some(Value::FixedBytes(copy_range(buf, pos, pos + *len)))
        },
        Kind::Bytes => match take_count(buf, pos) {
            Some(len) => if len <= buf.len() - (pos + 32) {
                Some(Value::Bytes(copy_range(buf, pos + 32, pos + 32 + len)))
            } else {
                None
            },
            None => None,
        },
        Kind::Array(_) => {
            proof {
                if count_at(buf@, pos as int) is Some {
                    let n = count_at(buf@, pos as int)->0;
                    lemma_list_ok(*kind, n);
                    if n >= 1 && list_decoding(*kind, buf@, pos + 32, n) is Some {
                        lemma_list_decoding_room(*kind, buf@, pos + 32, n);
                        lemma_list_heads_count(*kind, n);
                    }
                }
            }
            match take_count(buf, pos) {
                Some(n) => match take_list(buf, kind, pos + 32, n) {
                    Some(items) => Some(Value::Array(items)),
                    None => None,
                },
                None => None,
            }
        },
        Kind::FixedArray(_, len) => {
            proof {
                lemma_list_ok(*kind, *len as nat);
            }
            match take_list(buf, kind, pos, *len) {
                Some(items) => Some(Value::FixedArray(items)),
                None => None,
            }
        },
        Kind::Tuple(ks) => {
            proof {
                lemma_list_ok(*kind, ks@.len());
            }
            match take_list(buf, kind, pos, ks.len()) {
                Some(items) => Some(Value::Tuple(items)),
                None => None,
            }
        },
    }
}

/// The heads of a list of well-formed kinds take at least a word for each
/// element.
pub proof fn lemma_list_heads_count(list: Kind, n: nat)
    requires
        list_ok(list, n),
        is_list(list, n),
    ensures
        heads_len(list, n) >= 32 * n,
    decreases n,
{
    if n > 0 {
        lemma_list_heads_count(list, (n - 1) as nat);
        lemma_head_len_min(element_kind(list, n - 1));
    }
}

/// Read the first `n` values of the list whose heads begin at `base`.
pub fn take_list(buf: &[u8], list: &Kind, base: usize, n: usize) -> (r: Option<Vec<Value>>)
    requires
        list_ok(*list, n as nat),
        is_list(*list, n as nat),
    ensures
        match list_decoding(*list, buf@, base as int, n as nat) {
            Some(values) => r is Some && views_of(r->0@) == values,
            None => r is None,
        },
    decreases *list, 0nat, n,
{
    let total: usize = buf.len();
    let mut out: Vec<Value> = Vec::new();
    let mut head: usize = base;
    let mut i: usize = 0;
    proof {
        assert(views_of(out@) =~= Seq::<ValueView>::empty());
    }
    while i < n
        invariant
            i <= n,
            list_ok(*list, n as nat),
            is_list(*list, n as nat),
            buf@.len() == total,
            head == base + heads_len(*list, i as nat),
            list_decoding(*list, buf@, base as int, i as nat) == Some(views_of(out@)),
        decreases n - i,
    {
        proof {
            if list_decoding(*list, buf@, base as int, n as nat) is Some {
                lemma_list_decoding_prefix(*list, buf@, base as int, (i + 1) as nat, n as nat);
            }
        }
        let kind = element(list, i);
        assert(kind_ok(*kind));
        let dynamic = kind_dynamic(kind);
        let pos: usize = if dynamic {
            let offset = match take_count(buf, head) {
                Some(offset) => offset,
                None => {
                    proof {
                        if count_at(buf@, head as int) is Some {
                            let far = base + count_at(buf@, head as int)->0;
                            if decoding(*kind, buf@, far) is Some {
                                lemma_decoding_room(*kind, buf@, far);
                            }
                        }
                    }
                    return None;
                },
            };
            if offset > usize::MAX - base {
                proof {
                    if decoding(*kind, buf@, base + offset) is Some {
                        lemma_decoding_room(*kind, buf@, base + offset);
                    }
                }
                return None;
            }
            base + offset
        } else {
            head
        };
        assert(element_at(*list, buf@, base as int, i as nat) == Some(pos as int));
        let value = match take_value(buf, kind, pos) {
            Some(value) => value,
            None => { return None; },
        };
        proof {
            lemma_decoding_room(*kind, buf@, pos as int);
        }
        let size = match head_size(kind) {
            Some(size) => size,
            // Not taken: the value that was read has room in the buffer.
            None => { return None; },
        };
        let ghost before = out@;
        out.push(value);
        proof {
            assert(views_of(out@) =~= views_of(before).push(value@));
        }
        head = head + size;
        i += 1;
    }
    Some(out)
}

} // verus!
