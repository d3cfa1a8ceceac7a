//! Call data: the selector of a function and its encoded arguments, from
//! values or from argument strings.

use vstd::prelude::*;
use vstd::string::StringSliceAdditionalSpecFns;
use crate::abi::{
    all_fit, fits, kind_ok, kinds_ok, list_decoding, list_encoding, views_of, Kind, Value,
    ValueView,
};
use crate::abi_decode::take_list;
use crate::abi_encode::{lemma_arguments_ok, put_list, value_fits};
use crate::abi_kinds::{check_kind, element};
use crate::crypto::{digest, keccak256};
use crate::envelope::Crypto;
use crate::error::ToolError;
use crate::wire::copy_range;

verus! {

/// The selector of a function: the first four bytes of the Keccak-256
/// digest of its signature, which is its name and, in parentheses and
/// joined by commas, the names of its parameter kinds.
pub open spec fn selector_of(signature: Seq<u8>) -> Seq<u8> {
    keccak256(signature).subrange(0, 4)
}

/// The selector of the function with the given signature.
pub fn selector(signature: &str) -> (out: Vec<u8>)
    ensures
        out@ == selector_of(signature.spec_bytes()),
        out@.len() == 4,
{
    let hash = digest(Crypto::Secp256k1, signature.as_bytes());
    copy_range(hash.as_slice(), 0, 4)
}

/// The index of the first of the first `n` kinds that is no kind of the
/// calling convention.
pub open spec fn first_bad_kind(kinds: Seq<Kind>, n: nat) -> Option<nat>
    decreases n,
{
    if n == 0 || n > kinds.len() {
        None
    } else {
        match first_bad_kind(kinds, (n - 1) as nat) {
            Some(i) => Some(i),
            None => if kind_ok(kinds[n - 1]) {
                None
            } else {
                Some((n - 1) as nat)
            },
        }
    }
}

/// The index of the first of the first `n` values that is not of its
/// declared kind.
pub open spec fn first_misfit(kinds: Seq<Kind>, values: Seq<ValueView>, n: nat) -> Option<nat>
    decreases n,
{
    if n == 0 || n > kinds.len() || n > values.len() {
        None
    } else {
        match first_misfit(kinds, values, (n - 1) as nat) {
            Some(i) => Some(i),
            None => if fits(kinds[n - 1], values[n - 1]) {
                None
            } else {
                Some((n - 1) as nat)
            },
        }
    }
}

/// No bad kind among the first `n` means that they are all well formed.
pub proof fn lemma_no_bad_kind(kinds: Seq<Kind>, n: nat)
    requires
        n <= kinds.len(),
    ensures
        first_bad_kind(kinds, n) is None <==> kinds_ok(kinds, n),
        first_bad_kind(kinds, n) is Some ==> first_bad_kind(kinds, n)->0 < n,
    decreases n,
{
    if n > 0 {
        lemma_no_bad_kind(kinds, (n - 1) as nat);
    }
}

/// No misfit among the first `n` means that they all fit.
pub proof fn lemma_no_misfit(kinds: Vec<Kind>, values: Seq<ValueView>, n: nat)
    requires
        n <= kinds@.len(),
        n <= values.len(),
    ensures
        first_misfit(kinds@, values, n) is None <==> all_fit(Kind::Tuple(kinds), values, n),
        first_misfit(kinds@, values, n) is Some ==> first_misfit(kinds@, values, n)->0 < n,
    decreases n,
{
    if n > 0 {
        lemma_no_misfit(kinds, values, (n - 1) as nat);
    }
}

/// Find the first kind that is no kind of the calling convention.
pub fn find_bad_kind(kinds: &Vec<Kind>) -> (found: Option<usize>)
    ensures
        match found {
            Some(i) => first_bad_kind(kinds@, kinds@.len()) == Some(i as nat),
            None => first_bad_kind(kinds@, kinds@.len()) is None,
        },
{
    let mut i: usize = 0;
    while i < kinds.len()
        invariant
            i <= kinds@.len(),
            first_bad_kind(kinds@, i as nat) is None,
        decreases kinds@.len() - i,
    {
        if !check_kind(&kinds[i]) {
            proof {
                lemma_bad_kind_stays(kinds@, (i + 1) as nat, kinds@.len());
            }
            return Some(i);
        }
        i += 1;
    }
    None
}

/// The first bad kind among fewer kinds is the first among more.
proof fn lemma_bad_kind_stays(kinds: Seq<Kind>, m: nat, n: nat)
    requires
        m <= n <= kinds.len(),
        first_bad_kind(kinds, m) is Some,
    ensures
        first_bad_kind(kinds, n) == first_bad_kind(kinds, m),
    decreases n,
{
    if m < n {
        lemma_bad_kind_stays(kinds, m, (n - 1) as nat);
    }
}

/// The first misfit among fewer values is the first among more.
proof fn lemma_misfit_stays(kinds: Seq<Kind>, values: Seq<ValueView>, m: nat, n: nat)
    requires
        m <= n <= kinds.len(),
        n <= values.len(),
        first_misfit(kinds, values, m) is Some,
    ensures
        first_misfit(kinds, values, n) == first_misfit(kinds, values, m),
    decreases n,
{
    if m < n {
        lemma_misfit_stays(kinds, values, m, (n - 1) as nat);
    }
}

/// Find the first value that is not of its declared kind.
fn find_misfit(list: &Kind, values: &Vec<Value>) -> (found: Option<usize>)
    requires
        *list is Tuple,
        list->Tuple_0@.len() == values@.len(),
    ensures
        match found {
            Some(i) => first_misfit(list->Tuple_0@, views_of(values@), values@.len()) == Some(
                i as nat,
            ),
            None => first_misfit(list->Tuple_0@, views_of(values@), values@.len()) is None,
        },
{
    let ghost kinds = list->Tuple_0@;
    let ghost views = views_of(values@);
    let mut i: usize = 0;
    while i < values.len()
        invariant
            i <= values@.len(),
            *list is Tuple,
            kinds == list->Tuple_0@,
            kinds.len() == values@.len(),
            views == views_of(values@),
            first_misfit(kinds, views, i as nat) is None,
        decreases values@.len() - i,
    {
        if !value_fits(element(list, i), &values[i]) {
            proof {
                lemma_misfit_stays(kinds, views, (i + 1) as nat, values@.len());
            }
            return Some(i);
        }
        i += 1;
    }
    None
}

/// Take the kind at `index` out of a list of declared kinds.
pub fn declared_at(list: Kind, index: usize) -> (kind: Kind)
    requires
        list is Tuple,
        index < list->Tuple_0@.len(),
    ensures
        kind == list->Tuple_0@[index as int],
{
    match list {
        Kind::Tuple(mut kinds) => kinds.swap_remove(index),
        // Not taken: the list is a tuple.
        other => other,
    }
}

/// The bytes of the arguments of a call: each value must be of the kind
/// declared at its place.
pub fn encode_params(kinds: Vec<Kind>, values: &Vec<Value>) -> (r: Result<Vec<u8>, ToolError>)
    ensures
        match r {
            Ok(bytes) => {
                &&& kinds_ok(kinds@, kinds@.len())
                &&& kinds@.len() == values@.len()
                &&& all_fit(Kind::Tuple(kinds), views_of(values@), kinds@.len())
                &&& bytes@ == list_encoding(Kind::Tuple(kinds), views_of(values@), kinds@.len())
            },
            Err(ToolError::UnknownType { index }) => first_bad_kind(kinds@, kinds@.len()) == Some(
                index as nat,
            ),
            Err(ToolError::ArityError { expected, found }) => {
                &&& kinds_ok(kinds@, kinds@.len())
                &&& expected == kinds@.len()
                &&& found == values@.len()
                &&& expected != found
            },
            Err(ToolError::TypeMismatch { index, declared }) => {
                &&& kinds_ok(kinds@, kinds@.len())
                &&& kinds@.len() == values@.len()
                &&& first_misfit(kinds@, views_of(values@), kinds@.len()) == Some(index as nat)
                &&& declared == kinds@[index as int]
            },
            Err(ToolError::Oversized) => {
                &&& kinds_ok(kinds@, kinds@.len())
                &&& kinds@.len() == values@.len()
                &&& all_fit(Kind::Tuple(kinds), views_of(values@), kinds@.len())
                &&& list_encoding(Kind::Tuple(kinds), views_of(values@), kinds@.len()).len()
                    > usize::MAX
            },
            Err(_) => false,
        },
{
    let mut out: Vec<u8> = Vec::new();
    match append_params(&mut out, kinds, values) {
        Ok(()) => {
            proof {
                assert(out@ =~= list_encoding(
                    Kind::Tuple(kinds),
                    views_of(values@),
                    kinds@.len(),
                ));
            }
            Ok(out)
        },
        Err(e) => Err(e),
    }
}

/// Append the bytes of the arguments of a call.
pub fn append_params(out: &mut Vec<u8>, kinds: Vec<Kind>, values: &Vec<Value>) -> (r: Result<
    (),
    ToolError,
>)
    ensures
        match r {
            Ok(_) => {
                &&& kinds_ok(kinds@, kinds@.len())
                &&& kinds@.len() == values@.len()
                &&& all_fit(Kind::Tuple(kinds), views_of(values@), kinds@.len())
                &&& final(out)@ == old(out)@ + list_encoding(
                    Kind::Tuple(kinds),
                    views_of(values@),
                    kinds@.len(),
                )
            },
            Err(ToolError::UnknownType { index }) => first_bad_kind(kinds@, kinds@.len()) == Some(
                index as nat,
            ),
            Err(ToolError::ArityError { expected, found }) => {
                &&& kinds_ok(kinds@, kinds@.len())
                &&& expected == kinds@.len()
                &&& found == values@.len()
                &&& expected != found
            },
            Err(ToolError::TypeMismatch { index, declared }) => {
                &&& kinds_ok(kinds@, kinds@.len())
                &&& kinds@.len() == values@.len()
                &&& first_misfit(kinds@, views_of(values@), kinds@.len()) == Some(index as nat)
                &&& declared == kinds@[index as int]
            },
            Err(ToolError::Oversized) => {
                &&& kinds_ok(kinds@, kinds@.len())
                &&& kinds@.len() == values@.len()
                &&& all_fit(Kind::Tuple(kinds), views_of(values@), kinds@.len())
                &&& list_encoding(Kind::Tuple(kinds), views_of(values@), kinds@.len()).len()
                    > usize::MAX
            },
            Err(_) => false,
        },
{
    proof {
        lemma_no_bad_kind(kinds@, kinds@.len());
    }
    match find_bad_kind(&kinds) {
        Some(index) => { return Err(ToolError::UnknownType { index }); },
        None => {},
    }
    if kinds.len() != values.len() {
        return Err(ToolError::ArityError { expected: kinds.len(), found: values.len() });
    }
    let n = values.len();
    let list = Kind::Tuple(kinds);
    proof {
        lemma_no_misfit(kinds, views_of(values@), n as nat);
        lemma_arguments_ok(kinds);
    }
    match find_misfit(&list, values) {
        Some(index) => {
            let declared = declared_at(list, index);
            return Err(ToolError::TypeMismatch { index, declared });
        },
        None => {},
    }
    if put_list(out, &list, values, n) {
        Ok(())
    } else {
        Err(ToolError::Oversized)
    }
}

/// The arguments that stand in `data`, read against the declared kinds.
/// Data that ends too early, or that holds a count or an offset that leads
/// past its end, is refused.
pub fn decode_params(kinds: Vec<Kind>, data: &[u8]) -> (r: Result<Vec<Value>, ToolError>)
    ensures
        match r {
            Ok(values) => {
                &&& kinds_ok(kinds@, kinds@.len())
                &&& list_decoding(Kind::Tuple(kinds), data@, 0, kinds@.len()) == Some(
                    views_of(values@),
                )
            },
            Err(ToolError::UnknownType { index }) => first_bad_kind(kinds@, kinds@.len()) == Some(
                index as nat,
            ),
            Err(ToolError::DecodeError) => {
                &&& kinds_ok(kinds@, kinds@.len())
                &&& list_decoding(Kind::Tuple(kinds), data@, 0, kinds@.len()) is None
            },
            Err(_) => false,
        },
{
    proof {
        lemma_no_bad_kind(kinds@, kinds@.len());
    }
    match find_bad_kind(&kinds) {
        Some(index) => { return Err(ToolError::UnknownType { index }); },
        None => {},
    }
    let n = kinds.len();
    let list = Kind::Tuple(kinds);
    proof {
        lemma_arguments_ok(kinds);
    }
    match take_list(data, &list, 0, n) {
        Some(values) => Ok(values),
        None => Err(ToolError::DecodeError),
    }
}

} // verus!
