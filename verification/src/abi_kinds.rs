//! What can be told of a kind without a value: whether it is a kind of the
//! calling convention, whether it is dynamic, and how much room it takes in
//! the heads.

use vstd::prelude::*;
use crate::abi::{
    any_dynamic, element_kind, head_len, heads_len, is_dynamic, is_list, kind_ok, kinds_ok, Kind,
};

verus! {

/// In an array, every element takes the same room in the heads.
pub proof fn lemma_heads_len_of_array(list: Kind, n: nat)
    requires
        list is Array || list is FixedArray,
        is_list(list, n),
    ensures
        heads_len(list, n) == n * head_len(element_kind(list, 0)),
    decreases n,
{
    if n > 0 {
        lemma_heads_len_of_array(list, (n - 1) as nat);
        assert(heads_len(list, n) == heads_len(list, (n - 1) as nat) + head_len(
            element_kind(list, n - 1),
        ));
        assert(n * head_len(element_kind(list, 0)) == (n - 1) * head_len(element_kind(list, 0))
            + head_len(element_kind(list, 0))) by (nonlinear_arith);
    }
}

/// The room in the heads grows with the number of elements.
pub proof fn lemma_heads_len_grows(list: Kind, m: nat, n: nat)
    requires
        m <= n,
        is_list(list, n),
    ensures
        heads_len(list, m) <= heads_len(list, n),
    decreases n,
{
    if m < n {
        lemma_heads_len_grows(list, m, (n - 1) as nat);
    }
}

/// A tuple is well formed where its members are.
pub proof fn lemma_kinds_ok_at(kinds: Seq<Kind>, n: nat, i: int)
    requires
        kinds_ok(kinds, n),
        0 <= i < n <= kinds.len(),
    ensures
        kind_ok(kinds[i]),
    decreases n,
{
    if i < n - 1 {
        lemma_kinds_ok_at(kinds, (n - 1) as nat, i);
    }
}

/// The elements of a well-formed list kind are well formed.
pub proof fn lemma_element_ok(list: Kind, i: int)
    requires
        kind_ok(list),
        0 <= i,
        is_list(list, (i + 1) as nat),
    ensures
        kind_ok(element_kind(list, i)),
{
    if list is Tuple {
        lemma_kinds_ok_at(list->Tuple_0@, list->Tuple_0@.len(), i);
    }
}

/// A list kind is dynamic where one of its elements is.
pub proof fn lemma_any_dynamic_at(list: Kind, n: nat, i: int)
    requires
        0 <= i < n,
        is_list(list, n),
        is_dynamic(element_kind(list, i)),
    ensures
        any_dynamic(list, n),
    decreases n,
{
    if i < n - 1 {
        lemma_any_dynamic_at(list, (n - 1) as nat, i);
    }
}

/// An element of a static list kind is static.
pub proof fn lemma_element_static(list: Kind, i: int)
    requires
        list is FixedArray || list is Tuple,
        !is_dynamic(list),
        0 <= i,
        is_list(list, (i + 1) as nat),
    ensures
        !is_dynamic(element_kind(list, i)),
{
    if list is Tuple && is_dynamic(element_kind(list, i)) {
        lemma_any_dynamic_at(list, list->Tuple_0@.len(), i);
    }
}

/// Every well-formed kind takes at least one word in the heads.
pub proof fn lemma_head_len_min(kind: Kind)
    requires
        kind_ok(kind),
    ensures
        head_len(kind) >= 32,
    decreases kind,
{
    if !is_dynamic(kind) {
        match kind {
            Kind::FixedArray(e, len) => {
                lemma_head_len_min(*e);
                lemma_heads_len_grows(kind, 1, len as nat);
                assert(heads_len(kind, 1) == heads_len(kind, 0) + head_len(element_kind(kind, 0)));
            },
            Kind::Tuple(ks) => {
                lemma_kinds_ok_at(ks@, ks@.len(), 0);
                lemma_head_len_min(ks@[0]);
                lemma_heads_len_grows(kind, 1, ks@.len());
                assert(heads_len(kind, 1) == heads_len(kind, 0) + head_len(element_kind(kind, 0)));
            },
            _ => {},
        }
    }
}

/// The kind of the element at `i` of a list kind.
pub fn element(list: &Kind, i: usize) -> (kind: &Kind)
    requires
        is_list(*list, (i + 1) as nat),
    ensures
        *kind == element_kind(*list, i as int),
        decreases_to!(*list => *kind),
{
    match list {
        Kind::Array(e) => e,
        Kind::FixedArray(e, _) => e,
        Kind::Tuple(ks) => {
            assert(decreases_to!(*list => ks@));
            &ks[i]
        },
        // Not taken: the kind is a list kind.
        _ => list,
    }
}

/// Whether a kind is one of the calling convention.
pub fn check_kind(kind: &Kind) -> (ok: bool)
    ensures
        ok == kind_ok(*kind),
    decreases *kind,
{
    match kind {
        Kind::Uint(bits) => 8 <= *bits && *bits <= 256 && *bits % 8 == 0,
        Kind::Int(bits) => 8 <= *bits && *bits <= 256 && *bits % 8 == 0,
        Kind::Bool => true,
        Kind::Address => true,
        Kind::FixedBytes(len) => 1 <= *len && *len <= 32,
        Kind::Bytes => true,
        Kind::Array(e) => check_kind(e),
        Kind::FixedArray(e, len) => *len >= 1 && check_kind(e),
        Kind::Tuple(ks) => {
            assert(decreases_to!(*kind => ks@));
            ks.len() >= 1 && check_kinds(ks)
        },
    }
}

/// Whether all the kinds are kinds of the calling convention.
pub fn check_kinds(kinds: &Vec<Kind>) -> (ok: bool)
    ensures
        ok == kinds_ok(kinds@, kinds@.len()),
    decreases kinds@,
{
    let mut i: usize = 0;
    while i < kinds.len()
        invariant
            i <= kinds@.len(),
            kinds_ok(kinds@, i as nat),
        decreases kinds@.len() - i,
    {
        if !check_kind(&kinds[i]) {
            proof {
                if kinds_ok(kinds@, kinds@.len()) {
                    lemma_kinds_ok_at(kinds@, kinds@.len(), i as int);
                }
            }
            return false;
        }
        i += 1;
    }
    true
}

/// Whether values of a kind stand in the tails.
pub fn kind_dynamic(kind: &Kind) -> (dynamic: bool)
    ensures
        dynamic == is_dynamic(*kind),
    decreases *kind,
{
    match kind {
        Kind::Bytes => true,
        Kind::Array(_) => true,
        Kind::FixedArray(e, _) => kind_dynamic(e),
        Kind::Tuple(ks) => {
            assert(decreases_to!(*kind => ks@));
            let mut i: usize = 0;
            while i < ks.len()
                invariant
                    i <= ks@.len(),
                    *kind == Kind::Tuple(*ks),
                    decreases_to!(*kind => ks@),
                    !any_dynamic(*kind, i as nat),
                decreases ks@.len() - i,
            {
                if kind_dynamic(&ks[i]) {
                    proof {
                        lemma_any_dynamic_at(*kind, ks@.len(), i as int);
                    }
                    return true;
                }
                i += 1;
            }
            false
        },
        _ => false,
    }
}

/// The room that a value of a kind takes in the heads, where that number
/// fits a `usize`.
pub fn head_size(kind: &Kind) -> (size: Option<usize>)
    ensures
        match size {
            Some(n) => n == head_len(*kind),
            None => head_len(*kind) > usize::MAX,
        },
    decreases *kind, 1nat, 0nat,
{
    if kind_dynamic(kind) {
        return Some(32);
    }
    match kind {
        Kind::FixedArray(_, len) => heads_size(kind, *len),
        Kind::Tuple(ks) => heads_size(kind, ks.len()),
        _ => Some(32),
    }
}

/// The room that the first `n` elements of a list take in the heads, where
/// that number fits a `usize`.
pub fn heads_size(list: &Kind, n: usize) -> (size: Option<usize>)
    requires
        is_list(*list, n as nat),
    ensures
        match size {
            Some(total) => total == heads_len(*list, n as nat),
            None => heads_len(*list, n as nat) > usize::MAX,
        },
    decreases *list, 0nat, n,
{
    if n == 0 {
        return Some(0);
    }
    match list {
        Kind::Tuple(ks) => {
            let mut total: usize = 0;
            let mut i: usize = 0;
            while i < n
                invariant
                    i <= n <= ks@.len(),
                    *list == Kind::Tuple(*ks),
                    total == heads_len(*list, i as nat),
                decreases n - i,
            {
                let each = match head_size(element(list, i)) {
                    Some(each) => each,
                    None => {
                        proof {
                            lemma_heads_len_grows(*list, (i + 1) as nat, n as nat);
                        }
                        return None;
                    },
                };
                if each > usize::MAX - total {
                    proof {
                        lemma_heads_len_grows(*list, (i + 1) as nat, n as nat);
                    }
                    return None;
                }
                total = total + each;
                i += 1;
            }
            Some(total)
        },
        _ => {
            proof {
                lemma_heads_len_of_array(*list, n as nat);
            }
            let each = match head_size(element(list, 0)) {
                Some(each) => each,
                None => {
                    assert(n * head_len(element_kind(*list, 0)) >= head_len(
                        element_kind(*list, 0),
                    )) by (nonlinear_arith)
                        requires
                            n >= 1,
                    ;
                    return None;
                },
            };
            if each != 0 && n > usize::MAX / each {
                assert(n * each > usize::MAX) by (nonlinear_arith)
                    requires
                        each > 0,
                        n > usize::MAX / each,
                ;
                return None;
            }
            assert(n * each <= usize::MAX) by (nonlinear_arith)
                requires
                    each == 0 || n <= usize::MAX / each,
            ;
            Some(n * each)
        },
    }
}

/// Whether two kinds are alike: the same kind, of the same sizes, with
/// elements that are alike.
pub open spec fn same_kind(a: Kind, b: Kind) -> bool
    decreases a,
{
    match (a, b) {
        (Kind::Uint(m), Kind::Uint(n)) => m == n,
        (Kind::Int(m), Kind::Int(n)) => m == n,
        (Kind::Bool, Kind::Bool) => true,
        (Kind::Address, Kind::Address) => true,
        (Kind::FixedBytes(m), Kind::FixedBytes(n)) => m == n,
        (Kind::Bytes, Kind::Bytes) => true,
        (Kind::Array(e), Kind::Array(f)) => same_kind(*e, *f),
        (Kind::FixedArray(e, m), Kind::FixedArray(f, n)) => m == n && same_kind(*e, *f),
        (Kind::Tuple(ks), Kind::Tuple(ls)) => ks@.len() == ls@.len() && same_kinds(
            ks@,
            ls@,
            ks@.len(),
        ),
        _ => false,
    }
}

/// Whether the first `n` kinds of two lists are alike, place by place.
pub open spec fn same_kinds(a: Seq<Kind>, b: Seq<Kind>, n: nat) -> bool
    decreases a, n,
{
    if n == 0 || n > a.len() || n > b.len() {
        n == 0
    } else {
        same_kinds(a, b, (n - 1) as nat) && same_kind(a[n - 1], b[n - 1])
    }
}

/// A copy of a kind.
pub fn copy_kind(kind: &Kind) -> (copy: Kind)
    ensures
        same_kind(*kind, copy),
    decreases *kind,
{
    match kind {
        Kind::Uint(bits) => Kind::Uint(*bits),
        Kind::Int(bits) => Kind::Int(*bits),
        Kind::Bool => Kind::Bool,
        Kind::Address => Kind::Address,
        Kind::FixedBytes(len) => Kind::FixedBytes(*len),
        Kind::Bytes => Kind::Bytes,
        Kind::Array(e) => Kind::Array(Box::new(copy_kind(e))),
        Kind::FixedArray(e, len) => Kind::FixedArray(Box::new(copy_kind(e)), *len),
        Kind::Tuple(ks) => {
            assert(decreases_to!(*kind => ks@));
            let mut copies: Vec<Kind> = Vec::new();
            let mut i: usize = 0;
            while i < ks.len()
                invariant
                    i <= ks@.len(),
                    copies@.len() == i,
                    decreases_to!(*kind => ks@),
                    same_kinds(ks@, copies@, i as nat),
                decreases ks@.len() - i,
            {
                let ghost before = copies@;
                copies.push(copy_kind(&ks[i]));
                i += 1;
                proof {
                    lemma_same_kinds_longer(ks@, before, copies@, (i - 1) as nat);
                }
            }
            Kind::Tuple(copies)
        },
    }
}

/// Kinds that are alike stay alike where more kinds follow in the second
/// list.
proof fn lemma_same_kinds_longer(a: Seq<Kind>, front: Seq<Kind>, b: Seq<Kind>, n: nat)
    requires
        same_kinds(a, front, n),
        n <= front.len() <= b.len(),
        forall|i: int| 0 <= i < n ==> front[i] == b[i],
    ensures
        same_kinds(a, b, n),
    decreases n,
{
    if n > 0 {
        lemma_same_kinds_longer(a, front, b, (n - 1) as nat);
    }
}

} // verus!
