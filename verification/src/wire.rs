//! The wire primitives of the transaction layout: base-128 integers and the
//! tagged fields built from them.

use vstd::prelude::*;

verus! {

/// A natural number in base 128, least significant digit first, with the top
/// bit set on every byte but the last.
pub open spec fn varint(v: nat) -> Seq<u8>
    decreases v,
{
    if v < 128 {
        seq![v as u8]
    } else {
        seq![(128 + v % 128) as u8] + varint(v / 128)
    }
}

/// The number that stands at the head of `s` in at most `budget` bytes, and
/// the count of bytes it takes. A number written with more bytes than it
/// needs is not read.
pub open spec fn varint_at(s: Seq<u8>, budget: nat) -> Option<(nat, nat)>
    decreases budget,
{
    if budget == 0 || s.len() == 0 {
        None
    } else if s[0] < 128 {
        Some((s[0] as nat, 1nat))
    } else {
        match varint_at(s.skip(1), (budget - 1) as nat) {
            Some((v, n)) => if v == 0 {
                None
            } else {
                Some(((s[0] - 128) as nat + 128 * v, n + 1))
            },
            None => None,
        }
    }
}

/// The 64-bit number at the head of `s`, if one stands there in its shortest
/// form, and the count of bytes it takes.
pub open spec fn u64_at(s: Seq<u8>) -> Option<(u64, nat)> {
    match varint_at(s, 10) {
        Some((v, n)) => if v <= u64::MAX {
            Some((v as u64, n))
        } else {
            None
        },
        None => None,
    }
}

/// 128 to the power of `k`.
pub open spec fn pow128(k: nat) -> nat
    decreases k,
{
    if k == 0 {
        1
    } else {
        128 * pow128((k - 1) as nat)
    }
}

/// A number below 128^k takes at most k bytes, and at least one.
pub proof fn lemma_varint_len(v: nat, k: nat)
    requires
        k >= 1,
        v < pow128(k),
    ensures
        1 <= varint(v).len() <= k,
    decreases k,
{
    reveal_with_fuel(pow128, 2);
    if v >= 128 {
        assert(k >= 2);
        assert(v / 128 < pow128((k - 1) as nat)) by (nonlinear_arith)
            requires
                v < 128 * pow128((k - 1) as nat),
        ;
        lemma_varint_len(v / 128, (k - 1) as nat);
    }
}

/// Every 64-bit number takes at most ten bytes.
pub proof fn lemma_varint_len_u64(v: u64)
    ensures
        1 <= varint(v as nat).len() <= 10,
{
    reveal_with_fuel(pow128, 11);
    assert(pow128(10) == 1180591620717411303424);
    lemma_varint_len(v as nat, 10);
}

/// What was written is read back, whatever follows it.
pub proof fn lemma_varint_at_written(v: nat, rest: Seq<u8>, budget: nat)
    requires
        varint(v).len() <= budget,
    ensures
        varint_at(varint(v) + rest, budget) == Some((v, varint(v).len())),
    decreases v,
{
    let s = varint(v) + rest;
    if v < 128 {
        assert(s[0] == v as u8);
    } else {
        let tail = varint(v / 128);
        assert(s[0] == (128 + v % 128) as u8);
        assert(s.skip(1) =~= tail + rest);
        lemma_varint_at_written(v / 128, rest, (budget - 1) as nat);
        assert(v / 128 != 0);
        assert((s[0] - 128) as nat + 128 * (v / 128) == v);
    }
}

/// What is read is what writing the number gives: no other bytes read as it.
pub proof fn lemma_varint_at_canonical(s: Seq<u8>, budget: nat)
    requires
        varint_at(s, budget) is Some,
    ensures
        ({
            let (v, n) = varint_at(s, budget)->0;
            &&& 1 <= n <= budget
            &&& n <= s.len()
            &&& s.subrange(0, n as int) == varint(v)
        }),
    decreases budget,
{
    let (v, n) = varint_at(s, budget)->0;
    if s[0] < 128 {
        assert(s.subrange(0, 1) =~= seq![s[0]]);
    } else {
        let t = s.skip(1);
        lemma_varint_at_canonical(t, (budget - 1) as nat);
        let (tv, tn) = varint_at(t, (budget - 1) as nat)->0;
        assert(v == (s[0] - 128) as nat + 128 * tv);
        assert(v >= 128);
        assert(v % 128 == (s[0] - 128) as nat && v / 128 == tv);
        assert(t.subrange(0, tn as int) =~= s.subrange(1, n as int));
        assert(s.subrange(0, n as int) =~= seq![s[0]] + s.subrange(1, n as int));
    }
}

/// Append the base-128 form of `v`.
pub fn put_varint(out: &mut Vec<u8>, v: u64)
    ensures
        final(out)@ == old(out)@ + varint(v as nat),
{
    let mut rest: u64 = v;
    while rest >= 128
        invariant
            old(out)@ + varint(v as nat) == out@ + varint(rest as nat),
        decreases rest,
    {
        let ghost before = out@;
        out.push((128 + rest % 128) as u8);
        proof {
            assert(before + varint(rest as nat) =~= out@ + varint((rest / 128) as nat));
        }
        rest = rest / 128;
    }
    let ghost before = out@;
    out.push(rest as u8);
    proof {
        assert(before + varint(rest as nat) =~= out@);
    }
}

/// Read the number at `pos` in at most `budget` bytes. The result holds the
/// number and the position behind it.
fn take_varint(bytes: &[u8], pos: usize, budget: u8) -> (r: Option<(u64, usize)>)
    requires
        pos <= bytes@.len(),
        budget <= 10,
    ensures
        match varint_at(bytes@.skip(pos as int), budget as nat) {
            Some((v, n)) => if v <= u64::MAX {
                r == Some((v as u64, (pos + n) as usize)) && pos + n <= bytes@.len()
            } else {
                r is None
            },
            None => r is None,
        },
    decreases budget,
{
    let ghost s = bytes@.skip(pos as int);
    if budget == 0 || pos >= bytes.len() {
        return None;
    }
    let b: u8 = bytes[pos];
    assert(s[0] == b);
    if b < 128 {
        return Some((b as u64, pos + 1));
    }
    proof {
        assert(s.skip(1) =~= bytes@.skip(pos + 1));
    }
    match take_varint(bytes, pos + 1, budget - 1) {
        None => None,
        Some((tail, end)) => {
            let low: u64 = (b - 128) as u64;
            if tail == 0 || tail > (u64::MAX - low) / 128 {
                None
            } else {
                Some((low + 128 * tail, end))
            }
        },
    }
}

/// Read the 64-bit number at `pos`, in its shortest form.
pub fn take_u64(bytes: &[u8], pos: usize) -> (r: Option<(u64, usize)>)
    requires
        pos <= bytes@.len(),
    ensures
        match u64_at(bytes@.skip(pos as int)) {
            Some((v, n)) => r == Some((v, (pos + n) as usize)) && pos + n <= bytes@.len(),
            None => r is None,
        },
{
    take_varint(bytes, pos, 10)
}

/// A numeric field: nothing for zero, else the key and the number.
#[verifier::opaque]
pub open spec fn uint_field(key: u8, v: nat) -> Seq<u8> {
    if v == 0 {
        Seq::empty()
    } else {
        seq![key] + varint(v)
    }
}

/// A field of bytes: nothing for no bytes, else the key, the count and the
/// bytes.
#[verifier::opaque]
pub open spec fn bytes_field(key: u8, b: Seq<u8>) -> Seq<u8> {
    if b.len() == 0 {
        Seq::empty()
    } else {
        seq![key] + (varint(b.len()) + b)
    }
}

/// A nested block: the key, the count and the bytes, also where the block is
/// empty.
#[verifier::opaque]
pub open spec fn block_field(key: u8, b: Seq<u8>) -> Seq<u8> {
    seq![key] + (varint(b.len()) + b)
}

/// Whether `s` begins with the byte `key`.
pub open spec fn starts_with_key(s: Seq<u8>, key: u8) -> bool {
    s.len() > 0 && s[0] == key
}

/// Nothing, or bytes whose first is at least `key`.
pub open spec fn head_at_least(s: Seq<u8>, key: u8) -> bool {
    s.len() == 0 || s[0] >= key
}

/// The numeric field with `key` at the head of `s`, and the count of bytes
/// it takes: zero where `s` begins otherwise. A field that spells out zero
/// is refused.
#[verifier::opaque]
pub open spec fn uint_field_at(s: Seq<u8>, key: u8) -> Option<(u64, nat)> {
    if starts_with_key(s, key) {
        match u64_at(s.skip(1)) {
            Some((v, n)) => if v == 0 {
                None
            } else {
                Some((v, n + 1))
            },
            None => None,
        }
    } else {
        Some((0u64, 0nat))
    }
}

/// The count and the bytes at the head of `s`, and how many bytes both take.
pub open spec fn counted_at(s: Seq<u8>) -> Option<(Seq<u8>, nat)> {
    match u64_at(s) {
        Some((len, n)) => if n + len > s.len() {
            None
        } else {
            Some((s.subrange(n as int, (n + len) as int), n + len as nat))
        },
        None => None,
    }
}

/// The field of bytes with `key` at the head of `s`, and the count of bytes
/// it takes: no bytes where `s` begins otherwise. A field that spells out
/// no bytes is refused.
#[verifier::opaque]
pub open spec fn bytes_field_at(s: Seq<u8>, key: u8) -> Option<(Seq<u8>, nat)> {
    if starts_with_key(s, key) {
        match counted_at(s.skip(1)) {
            Some((b, n)) => if b.len() == 0 {
                None
            } else {
                Some((b, n + 1))
            },
            None => None,
        }
    } else {
        Some((Seq::empty(), 0nat))
    }
}

/// The nested block with `key` at the head of `s`, which must stand there.
#[verifier::opaque]
pub open spec fn block_field_at(s: Seq<u8>, key: u8) -> Option<(Seq<u8>, nat)> {
    if starts_with_key(s, key) {
        match counted_at(s.skip(1)) {
            Some((b, n)) => Some((b, n + 1)),
            None => None,
        }
    } else {
        None
    }
}

/// A written count and its bytes are read back, whatever follows them.
pub proof fn lemma_counted_written(b: Seq<u8>, rest: Seq<u8>)
    requires
        b.len() <= u64::MAX,
    ensures
        counted_at((varint(b.len()) + b) + rest) == Some((b, varint(b.len()).len() + b.len())),
{
    let head = varint(b.len());
    let s = (head + b) + rest;
    lemma_varint_len_u64(b.len() as u64);
    assert(s =~= head + (b + rest));
    lemma_varint_at_written(b.len(), b + rest, 10);
    assert(s.subrange(head.len() as int, (head.len() + b.len()) as int) =~= b);
}

/// A count and bytes that are read are the written form of the bytes.
pub proof fn lemma_counted_canonical(s: Seq<u8>)
    requires
        counted_at(s) is Some,
    ensures
        ({
            let (b, n) = counted_at(s)->0;
            &&& n <= s.len()
            &&& b.len() <= u64::MAX
            &&& s.subrange(0, n as int) == varint(b.len()) + b
        }),
{
    let (b, n) = counted_at(s)->0;
    let (len, k) = u64_at(s)->0;
    lemma_varint_at_canonical(s, 10);
    assert(s.subrange(0, n as int) =~= s.subrange(0, k as int) + s.subrange(k as int, n as int));
}

/// A written numeric field is read back, where what follows does not begin
/// with the same key.
pub proof fn lemma_uint_field_written(key: u8, v: u64, rest: Seq<u8>)
    requires
        !starts_with_key(rest, key),
    ensures
        uint_field_at(uint_field(key, v as nat) + rest, key) == Some(
            (v, uint_field(key, v as nat).len()),
        ),
        (uint_field(key, v as nat) + rest).skip(uint_field(key, v as nat).len() as int) == rest,
{
    reveal(uint_field);
    reveal(uint_field_at);
    let f = uint_field(key, v as nat);
    let s = f + rest;
    assert(s.skip(f.len() as int) =~= rest);
    if v == 0 {
        assert(s =~= rest);
    } else {
        assert(s.skip(1) =~= varint(v as nat) + rest);
        lemma_varint_len_u64(v);
        lemma_varint_at_written(v as nat, rest, 10);
    }
}

/// A numeric field that is read is the written form of its number.
pub proof fn lemma_uint_field_canonical(s: Seq<u8>, key: u8)
    requires
        uint_field_at(s, key) is Some,
    ensures
        ({
            let (v, n) = uint_field_at(s, key)->0;
            &&& n <= s.len()
            &&& s.subrange(0, n as int) == uint_field(key, v as nat)
            &&& s == uint_field(key, v as nat) + s.skip(n as int)
            &&& n == 0 ==> !starts_with_key(s, key)
        }),
{
    reveal(uint_field);
    reveal(uint_field_at);
    let (v, n) = uint_field_at(s, key)->0;
    if starts_with_key(s, key) {
        let t = s.skip(1);
        lemma_varint_at_canonical(t, 10);
        assert(t.subrange(0, n - 1) =~= s.subrange(1, n as int));
        assert(s.subrange(0, n as int) =~= seq![key] + s.subrange(1, n as int));
    } else {
        assert(s.subrange(0, 0) =~= Seq::<u8>::empty());
    }
    assert(s =~= s.subrange(0, n as int) + s.skip(n as int));
}

/// A written field of bytes is read back, where what follows does not begin
/// with the same key.
pub proof fn lemma_bytes_field_written(key: u8, b: Seq<u8>, rest: Seq<u8>)
    requires
        b.len() <= u64::MAX,
        !starts_with_key(rest, key),
    ensures
        bytes_field_at(bytes_field(key, b) + rest, key) == Some((b, bytes_field(key, b).len())),
        (bytes_field(key, b) + rest).skip(bytes_field(key, b).len() as int) == rest,
{
    reveal(bytes_field);
    reveal(bytes_field_at);
    let f = bytes_field(key, b);
    let s = f + rest;
    assert(s.skip(f.len() as int) =~= rest);
    if b.len() == 0 {
        assert(s =~= rest);
        assert(b =~= Seq::<u8>::empty());
    } else {
        assert(s.skip(1) =~= (varint(b.len()) + b) + rest);
        lemma_counted_written(b, rest);
    }
}

/// A field of bytes that is read is the written form of its bytes.
pub proof fn lemma_bytes_field_canonical(s: Seq<u8>, key: u8)
    requires
        bytes_field_at(s, key) is Some,
    ensures
        ({
            let (b, n) = bytes_field_at(s, key)->0;
            &&& n <= s.len()
            &&& b.len() <= u64::MAX
            &&& s == bytes_field(key, b) + s.skip(n as int)
            &&& n == bytes_field(key, b).len()
            &&& n == 0 ==> !starts_with_key(s, key)
        }),
{
    reveal(bytes_field);
    reveal(bytes_field_at);
    let (b, n) = bytes_field_at(s, key)->0;
    if starts_with_key(s, key) {
        let t = s.skip(1);
        lemma_counted_canonical(t);
        assert(t.subrange(0, n - 1) =~= s.subrange(1, n as int));
        assert(s.subrange(0, n as int) =~= seq![key] + s.subrange(1, n as int));
        assert(s.subrange(0, n as int) == bytes_field(key, b));
    } else {
        assert(s.subrange(0, 0) =~= Seq::<u8>::empty());
    }
    assert(s =~= s.subrange(0, n as int) + s.skip(n as int));
}

/// A written block is read back.
pub proof fn lemma_block_field_written(key: u8, b: Seq<u8>, rest: Seq<u8>)
    requires
        b.len() <= u64::MAX,
    ensures
        block_field_at(block_field(key, b) + rest, key) == Some((b, block_field(key, b).len())),
        (block_field(key, b) + rest).skip(block_field(key, b).len() as int) == rest,
{
    reveal(block_field);
    reveal(block_field_at);
    let f = block_field(key, b);
    let s = f + rest;
    assert(s.skip(f.len() as int) =~= rest);
    assert(s.skip(1) =~= (varint(b.len()) + b) + rest);
    lemma_counted_written(b, rest);
}

/// A block that is read is the written form of its bytes.
pub proof fn lemma_block_field_canonical(s: Seq<u8>, key: u8)
    requires
        block_field_at(s, key) is Some,
    ensures
        ({
            let (b, n) = block_field_at(s, key)->0;
            &&& n <= s.len()
            &&& b.len() <= u64::MAX
            &&& s == block_field(key, b) + s.skip(n as int)
            &&& n == block_field(key, b).len()
        }),
{
    reveal(block_field);
    reveal(block_field_at);
    let (b, n) = block_field_at(s, key)->0;
    let t = s.skip(1);
    lemma_counted_canonical(t);
    assert(t.subrange(0, n - 1) =~= s.subrange(1, n as int));
    assert(s.subrange(0, n as int) =~= seq![key] + s.subrange(1, n as int));
    assert(s =~= s.subrange(0, n as int) + s.skip(n as int));
}

/// A stretch of a buffer: from `start` up to `end`.
pub struct Span {
    pub start: usize,
    pub end: usize,
}

/// Append `b`.
pub fn put_bytes(out: &mut Vec<u8>, b: &[u8])
    ensures
        final(out)@ == old(out)@ + b@,
{
    let mut i: usize = 0;
    while i < b.len()
        invariant
            i <= b@.len(),
            out@ == old(out)@ + b@.subrange(0, i as int),
        decreases b@.len() - i,
    {
        out.push(b[i]);
        i += 1;
        proof {
            assert(out@ =~= old(out)@ + b@.subrange(0, i as int));
        }
    }
    proof {
        assert(b@.subrange(0, i as int) =~= b@);
    }
}

/// Append a numeric field.
pub fn put_uint_field(out: &mut Vec<u8>, key: u8, v: u64)
    ensures
        final(out)@ == old(out)@ + uint_field(key, v as nat),
{
    proof {
        reveal(uint_field);
    }
    if v != 0 {
        out.push(key);
        put_varint(out, v);
        proof {
            assert(out@ =~= old(out)@ + uint_field(key, v as nat));
        }
    } else {
        proof {
            assert(out@ =~= old(out)@ + uint_field(key, v as nat));
        }
    }
}

/// Append a field of bytes.
pub fn put_bytes_field(out: &mut Vec<u8>, key: u8, b: &[u8])
    ensures
        final(out)@ == old(out)@ + bytes_field(key, b@),
{
    proof {
        reveal(bytes_field);
        reveal(block_field);
    }
    if b.len() != 0 {
        put_block_field(out, key, b);
    } else {
        proof {
            assert(out@ =~= old(out)@ + bytes_field(key, b@));
        }
    }
}

/// Append a nested block.
pub fn put_block_field(out: &mut Vec<u8>, key: u8, b: &[u8])
    ensures
        final(out)@ == old(out)@ + block_field(key, b@),
{
    proof {
        reveal(block_field);
    }
    out.push(key);
    put_varint(out, b.len() as u64);
    put_bytes(out, b);
    proof {
        assert(out@ =~= old(out)@ + block_field(key, b@));
    }
}

/// A number that was read, and the position behind it.
pub struct Numbered {
    pub value: u64,
    pub end: usize,
}

/// Read the numeric field with `key` at `pos`. The result holds the number,
/// zero where no such field stands there, and the position behind it.
pub fn take_uint_field(bytes: &[u8], pos: usize, key: u8) -> (r: Option<Numbered>)
    requires
        pos <= bytes@.len(),
    ensures
        match uint_field_at(bytes@.skip(pos as int), key) {
            Some((v, n)) => {
                &&& r is Some
                &&& r->0.value == v
                &&& r->0.end == pos + n
                &&& r->0.end <= bytes@.len()
            },
            None => r is None,
        },
{
    proof {
        reveal(uint_field_at);
    }
    let ghost s = bytes@.skip(pos as int);
    if pos < bytes.len() && bytes[pos] == key {
        proof {
            assert(s[0] == bytes@[pos as int]);
            assert(s.skip(1) =~= bytes@.skip(pos + 1));
        }
        match take_u64(bytes, pos + 1) {
            Some((v, end)) => if v == 0 {
                None
            } else {
                Some(Numbered { value: v, end })
            },
            None => None,
        }
    } else {
        proof {
            if pos < bytes@.len() {
                assert(s[0] == bytes@[pos as int]);
            }
        }
        Some(Numbered { value: 0, end: pos })
    }
}

/// Read a count and that many bytes at `pos`. The result holds where the
/// bytes begin and where they end.
fn take_counted(bytes: &[u8], pos: usize) -> (r: Option<Span>)
    requires
        pos <= bytes@.len(),
    ensures
        match counted_at(bytes@.skip(pos as int)) {
            Some((b, n)) => {
                &&& r is Some
                &&& r->0.start <= r->0.end <= bytes@.len()
                &&& r->0.end == pos + n
                &&& bytes@.subrange(r->0.start as int, r->0.end as int) == b
            },
            None => r is None,
        },
{
    let ghost s = bytes@.skip(pos as int);
    match take_u64(bytes, pos) {
        Some((len, start)) => {
            if len > (bytes.len() - start) as u64 {
                None
            } else {
                let end: usize = start + len as usize;
                proof {
                    let n = (start - pos) as nat;
                    assert(s.subrange(n as int, (n + len) as int) =~= bytes@.subrange(
                        start as int,
                        end as int,
                    ));
                }
                Some(Span { start, end })
            }
        },
        None => None,
    }
}

/// Read the field of bytes with `key` at `pos`. The result holds where the
/// bytes begin and end, both `pos` where no such field stands there.
pub fn take_bytes_field(bytes: &[u8], pos: usize, key: u8) -> (r: Option<Span>)
    requires
        pos <= bytes@.len(),
    ensures
        match bytes_field_at(bytes@.skip(pos as int), key) {
            Some((b, n)) => {
                &&& r is Some
                &&& r->0.start <= r->0.end <= bytes@.len()
                &&& r->0.end == pos + n
                &&& bytes@.subrange(r->0.start as int, r->0.end as int) == b
            },
            None => r is None,
        },
{
    proof {
        reveal(bytes_field_at);
    }
    let ghost s = bytes@.skip(pos as int);
    if pos < bytes.len() && bytes[pos] == key {
        proof {
            assert(s[0] == bytes@[pos as int]);
            assert(s.skip(1) =~= bytes@.skip(pos + 1));
        }
        match take_counted(bytes, pos + 1) {
            Some(Span { start, end }) => if start == end {
                None
            } else {
                Some(Span { start, end })
            },
            None => None,
        }
    } else {
        proof {
            if pos < bytes@.len() {
                assert(s[0] == bytes@[pos as int]);
            }
            assert(bytes@.subrange(pos as int, pos as int) =~= Seq::<u8>::empty());
        }
        Some(Span { start: pos, end: pos })
    }
}

/// Read the nested block with `key` at `pos`. The result holds where the
/// block begins and ends.
pub fn take_block_field(bytes: &[u8], pos: usize, key: u8) -> (r: Option<Span>)
    requires
        pos <= bytes@.len(),
    ensures
        match block_field_at(bytes@.skip(pos as int), key) {
            Some((b, n)) => {
                &&& r is Some
                &&& r->0.start <= r->0.end <= bytes@.len()
                &&& r->0.end == pos + n
                &&& bytes@.subrange(r->0.start as int, r->0.end as int) == b
            },
            None => r is None,
        },
{
    proof {
        reveal(block_field_at);
    }
    let ghost s = bytes@.skip(pos as int);
    if pos < bytes.len() && bytes[pos] == key {
        proof {
            assert(s[0] == bytes@[pos as int]);
            assert(s.skip(1) =~= bytes@.skip(pos + 1));
        }
        take_counted(bytes, pos + 1)
    } else {
        proof {
            if pos < bytes@.len() {
                assert(s[0] == bytes@[pos as int]);
            }
        }
        None
    }
}

/// A copy of the bytes from `start` up to `end`.
pub fn copy_range(bytes: &[u8], start: usize, end: usize) -> (out: Vec<u8>)
    requires
        start <= end <= bytes@.len(),
    ensures
        out@ == bytes@.subrange(start as int, end as int),
{
    let mut out: Vec<u8> = Vec::new();
    let mut i: usize = start;
    while i < end
        invariant
            start <= i <= end <= bytes@.len(),
            out@ == bytes@.subrange(start as int, i as int),
        decreases end - i,
    {
        out.push(bytes[i]);
        i += 1;
        proof {
            assert(out@ =~= bytes@.subrange(start as int, i as int));
        }
    }
    out
}

} // verus!
