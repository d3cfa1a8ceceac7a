//! The transaction records and their canonical wire layout.
//!
//! A record is written as a run of tagged fields in a fixed order. A field
//! is a one-byte key followed by a base-128 number, or by a base-128 count
//! and that many bytes. A field whose value is zero or empty is left out, so
//! that every record has exactly one written form, and reading accepts that
//! form only.

use vstd::prelude::*;
use vstd::utf8::{
    decode_utf8, decode_utf8_encode_utf8, encode_utf8, encode_utf8_decode_utf8,
    encode_utf8_valid_utf8, valid_utf8,
};
use vstd::slice::slice_subrange;
use crate::address::Address;
use crate::error::ToolError;
use crate::wire::{
    bytes_field, bytes_field_at, copy_range, head_at_least, lemma_bytes_field_canonical,
    lemma_bytes_field_written, lemma_uint_field_canonical, lemma_uint_field_written,
    put_bytes_field, put_uint_field, starts_with_key, take_bytes_field, take_uint_field,
    uint_field, uint_field_at,
};

verus! {

/// The key of the target: field 1, bytes.
pub const KEY_TO: u8 = 10;

/// The key of the nonce: field 2, bytes.
pub const KEY_NONCE: u8 = 18;

/// The key of the quota: field 3, a number.
pub const KEY_QUOTA: u8 = 24;

/// The key of the last valid block: field 4, a number.
pub const KEY_VALID_UNTIL_BLOCK: u8 = 32;

/// The key of the data: field 5, bytes.
pub const KEY_DATA: u8 = 42;

/// The key of the value: field 6, bytes.
pub const KEY_VALUE: u8 = 50;

/// The key of the chain: field 7, a number.
pub const KEY_CHAIN_ID: u8 = 56;

/// The key of the version: field 8, a number.
pub const KEY_VERSION: u8 = 64;

/// An unsigned transaction.
#[derive(Debug, PartialEq, Eq)]
pub struct Transaction {
    /// The contract that is called; `None` creates a contract.
    pub to: Option<Address>,
    /// A token that tells this transaction from a replay of another.
    pub nonce: String,
    /// The most that the transaction may spend.
    pub quota: u64,
    /// The last block height at which the transaction may be included.
    pub valid_until_block: u64,
    /// The encoded call, or the code of a new contract.
    pub data: Vec<u8>,
    /// The amount that is transferred, as a big-endian number.
    pub value: Vec<u8>,
    /// The network that the transaction is meant for.
    pub chain_id: u32,
    /// The version of the transaction format.
    pub version: u32,
}

/// A transaction as plain values.
pub struct TransactionView {
    pub to: Option<Seq<u8>>,
    pub nonce: Seq<char>,
    pub quota: u64,
    pub valid_until_block: u64,
    pub data: Seq<u8>,
    pub value: Seq<u8>,
    pub chain_id: u32,
    pub version: u32,
}

impl TransactionView {
    /// A target, where there is one, has twenty bytes, and every field fits
    /// a 64-bit count.
    pub open spec fn wf(self) -> bool {
        &&& self.to is Some ==> self.to->0.len() == 20
        &&& encode_utf8(self.nonce).len() <= u64::MAX
        &&& self.data.len() <= u64::MAX
        &&& self.value.len() <= u64::MAX
    }
}

impl View for Transaction {
    type V = TransactionView;

    open spec fn view(&self) -> TransactionView {
        TransactionView {
            to: match self.to {
                Some(a) => Some(a@),
                None => None,
            },
            nonce: self.nonce@,
            quota: self.quota,
            valid_until_block: self.valid_until_block,
            data: self.data@,
            value: self.value@,
            chain_id: self.chain_id,
            version: self.version,
        }
    }
}

/// The bytes of the target field: the address, or nothing.
pub open spec fn target_bytes(to: Option<Seq<u8>>) -> Seq<u8> {
    match to {
        Some(b) => b,
        None => Seq::empty(),
    }
}

/// The written form of a transaction: its fields in the order target,
/// nonce, quota, last valid block, data, value, chain and version.
pub open spec fn transaction_bytes(tx: TransactionView) -> Seq<u8> {
    bytes_field(KEY_TO, target_bytes(tx.to)) + (bytes_field(KEY_NONCE, encode_utf8(tx.nonce)) + (
    uint_field(KEY_QUOTA, tx.quota as nat) + (uint_field(
        KEY_VALID_UNTIL_BLOCK,
        tx.valid_until_block as nat,
    ) + (bytes_field(KEY_DATA, tx.data) + (bytes_field(KEY_VALUE, tx.value) + (uint_field(
        KEY_CHAIN_ID,
        tx.chain_id as nat,
    ) + uint_field(KEY_VERSION, tx.version as nat)))))))
}

/// The count of bytes that a field takes that was read, zero for one that
/// was not.
pub open spec fn taken<T>(f: Option<(T, nat)>) -> nat {
    match f {
        Some((_, n)) => n,
        None => 0,
    }
}

/// The number that a numeric field holds that was read.
pub open spec fn number_of(f: Option<(u64, nat)>) -> u64 {
    match f {
        Some((v, _)) => v,
        None => 0,
    }
}

/// The bytes that a field holds that was read.
pub open spec fn bytes_of(f: Option<(Seq<u8>, nat)>) -> Seq<u8> {
    match f {
        Some((b, _)) => b,
        None => Seq::empty(),
    }
}

/// The transaction that `s` is the written form of, if it is one.
pub open spec fn read_transaction(s: Seq<u8>) -> Option<TransactionView> {
    let f1 = bytes_field_at(s, KEY_TO);
    let c1 = taken(f1);
    let f2 = bytes_field_at(s.skip(c1 as int), KEY_NONCE);
    let c2 = c1 + taken(f2);
    let f3 = uint_field_at(s.skip(c2 as int), KEY_QUOTA);
    let c3 = c2 + taken(f3);
    let f4 = uint_field_at(s.skip(c3 as int), KEY_VALID_UNTIL_BLOCK);
    let c4 = c3 + taken(f4);
    let f5 = bytes_field_at(s.skip(c4 as int), KEY_DATA);
    let c5 = c4 + taken(f5);
    let f6 = bytes_field_at(s.skip(c5 as int), KEY_VALUE);
    let c6 = c5 + taken(f6);
    let f7 = uint_field_at(s.skip(c6 as int), KEY_CHAIN_ID);
    let c7 = c6 + taken(f7);
    let f8 = uint_field_at(s.skip(c7 as int), KEY_VERSION);
    let c8 = c7 + taken(f8);
    if f1 is Some && f2 is Some && f3 is Some && f4 is Some && f5 is Some && f6 is Some && f7 is Some
        && f8 is Some && c8 == s.len() && (bytes_of(f1).len() == 0 || bytes_of(f1).len() == 20)
        && valid_utf8(bytes_of(f2)) && number_of(f7) <= u32::MAX && number_of(f8) <= u32::MAX {
        Some(
            TransactionView {
                to: if bytes_of(f1).len() == 0 {
                    None
                } else {
                    Some(bytes_of(f1))
                },
                nonce: decode_utf8(bytes_of(f2)),
                quota: number_of(f3),
                valid_until_block: number_of(f4),
                data: bytes_of(f5),
                value: bytes_of(f6),
                chain_id: number_of(f7) as u32,
                version: number_of(f8) as u32,
            },
        )
    } else {
        None
    }
}

/// A numeric field begins with its key or is nothing.
proof fn lemma_uint_head(key: u8, v: nat, rest: Seq<u8>, floor: u8)
    requires
        key >= floor,
        head_at_least(rest, floor),
    ensures
        head_at_least(uint_field(key, v) + rest, floor),
{
    reveal(uint_field);
    if v == 0 {
        assert(uint_field(key, v) + rest =~= rest);
    }
}

/// A field of bytes begins with its key or is nothing.
proof fn lemma_bytes_head(key: u8, b: Seq<u8>, rest: Seq<u8>, floor: u8)
    requires
        key >= floor,
        head_at_least(rest, floor),
    ensures
        head_at_least(bytes_field(key, b) + rest, floor),
{
    reveal(bytes_field);
    if b.len() == 0 {
        assert(bytes_field(key, b) + rest =~= rest);
    }
}

/// One field of bytes further: the field at `p` is read, and what follows
/// it is `rest`.
proof fn lemma_bytes_step(s: Seq<u8>, p: nat, key: u8, b: Seq<u8>, rest: Seq<u8>)
    requires
        p <= s.len(),
        s.skip(p as int) == bytes_field(key, b) + rest,
        b.len() <= u64::MAX,
        !starts_with_key(rest, key),
    ensures
        bytes_field_at(s.skip(p as int), key) == Some((b, bytes_field(key, b).len())),
        p + bytes_field(key, b).len() <= s.len(),
        s.skip((p + bytes_field(key, b).len()) as int) == rest,
{
    lemma_bytes_field_written(key, b, rest);
    let n = bytes_field(key, b).len();
    assert(s.skip(p as int).len() == n + rest.len());
    assert(s.skip((p + n) as int) =~= s.skip(p as int).skip(n as int));
}

/// One numeric field further: the field at `p` is read, and what follows it
/// is `rest`.
proof fn lemma_uint_step(s: Seq<u8>, p: nat, key: u8, v: u64, rest: Seq<u8>)
    requires
        p <= s.len(),
        s.skip(p as int) == uint_field(key, v as nat) + rest,
        !starts_with_key(rest, key),
    ensures
        uint_field_at(s.skip(p as int), key) == Some((v, uint_field(key, v as nat).len())),
        p + uint_field(key, v as nat).len() <= s.len(),
        s.skip((p + uint_field(key, v as nat).len()) as int) == rest,
{
    lemma_uint_field_written(key, v, rest);
    let n = uint_field(key, v as nat).len();
    assert(s.skip(p as int).len() == n + rest.len());
    assert(s.skip((p + n) as int) =~= s.skip(p as int).skip(n as int));
}

/// Reading the written form of a transaction gives the transaction.
pub proof fn lemma_read_written_transaction(tx: TransactionView)
    requires
        tx.wf(),
    ensures
        read_transaction(transaction_bytes(tx)) == Some(tx),
{
    let s = transaction_bytes(tx);
    let none = Seq::<u8>::empty();
    let e8 = uint_field(KEY_VERSION, tx.version as nat);
    let e7 = uint_field(KEY_CHAIN_ID, tx.chain_id as nat);
    let e6 = bytes_field(KEY_VALUE, tx.value);
    let e5 = bytes_field(KEY_DATA, tx.data);
    let e4 = uint_field(KEY_VALID_UNTIL_BLOCK, tx.valid_until_block as nat);
    let e3 = uint_field(KEY_QUOTA, tx.quota as nat);
    let e2 = bytes_field(KEY_NONCE, encode_utf8(tx.nonce));
    let e1 = bytes_field(KEY_TO, target_bytes(tx.to));
    let t8 = e8;
    let t7 = e7 + t8;
    let t6 = e6 + t7;
    let t5 = e5 + t6;
    let t4 = e4 + t5;
    let t3 = e3 + t4;
    let t2 = e2 + t3;
    assert(t8 == e8 + none) by {
        assert(e8 + none =~= e8);
    }
    assert(s.skip(0) == e1 + t2) by {
        assert(s.skip(0) =~= s);
    }
    assert(head_at_least(t8, KEY_VERSION)) by {
        lemma_uint_head(KEY_VERSION, tx.version as nat, none, KEY_VERSION);
    }
    lemma_uint_head(KEY_CHAIN_ID, tx.chain_id as nat, t8, KEY_CHAIN_ID);
    lemma_bytes_head(KEY_VALUE, tx.value, t7, KEY_VALUE);
    lemma_bytes_head(KEY_DATA, tx.data, t6, KEY_DATA);
    lemma_uint_head(KEY_VALID_UNTIL_BLOCK, tx.valid_until_block as nat, t5, KEY_VALID_UNTIL_BLOCK);
    lemma_uint_head(KEY_QUOTA, tx.quota as nat, t4, KEY_QUOTA);
    lemma_bytes_head(KEY_NONCE, encode_utf8(tx.nonce), t3, KEY_NONCE);
    let c1 = e1.len();
    let c2 = c1 + e2.len();
    let c3 = c2 + e3.len();
    let c4 = c3 + e4.len();
    let c5 = c4 + e5.len();
    let c6 = c5 + e6.len();
    let c7 = c6 + e7.len();
    let c8 = c7 + e8.len();
    lemma_bytes_step(s, 0, KEY_TO, target_bytes(tx.to), t2);
    lemma_bytes_step(s, c1, KEY_NONCE, encode_utf8(tx.nonce), t3);
    lemma_uint_step(s, c2, KEY_QUOTA, tx.quota, t4);
    lemma_uint_step(s, c3, KEY_VALID_UNTIL_BLOCK, tx.valid_until_block, t5);
    lemma_bytes_step(s, c4, KEY_DATA, tx.data, t6);
    lemma_bytes_step(s, c5, KEY_VALUE, tx.value, t7);
    lemma_uint_step(s, c6, KEY_CHAIN_ID, tx.chain_id as u64, t8);
    lemma_uint_step(s, c7, KEY_VERSION, tx.version as u64, none);
    assert(c8 == s.len()) by {
        assert(s.skip(c8 as int).len() == 0);
    }
    assert(bytes_field_at(s, KEY_TO) == Some((target_bytes(tx.to), c1))) by {
        assert(s.skip(0) =~= s);
    }
    encode_utf8_valid_utf8(tx.nonce);
    encode_utf8_decode_utf8(tx.nonce);
    lemma_read_from_fields(s, tx, c1, c2, c3, c4, c5, c6, c7);
}

/// The transaction that is read where each field is known.
proof fn lemma_read_from_fields(
    s: Seq<u8>,
    tx: TransactionView,
    c1: nat,
    c2: nat,
    c3: nat,
    c4: nat,
    c5: nat,
    c6: nat,
    c7: nat,
)
    requires
        tx.to is Some ==> tx.to->0.len() == 20,
        valid_utf8(encode_utf8(tx.nonce)),
        decode_utf8(encode_utf8(tx.nonce)) == tx.nonce,
        bytes_field_at(s, KEY_TO) == Some((target_bytes(tx.to), c1)),
        bytes_field_at(s.skip(c1 as int), KEY_NONCE) == Some(
            (encode_utf8(tx.nonce), (c2 - c1) as nat),
        ),
        uint_field_at(s.skip(c2 as int), KEY_QUOTA) == Some((tx.quota, (c3 - c2) as nat)),
        uint_field_at(s.skip(c3 as int), KEY_VALID_UNTIL_BLOCK) == Some(
            (tx.valid_until_block, (c4 - c3) as nat),
        ),
        bytes_field_at(s.skip(c4 as int), KEY_DATA) == Some((tx.data, (c5 - c4) as nat)),
        bytes_field_at(s.skip(c5 as int), KEY_VALUE) == Some((tx.value, (c6 - c5) as nat)),
        uint_field_at(s.skip(c6 as int), KEY_CHAIN_ID) == Some(
            (tx.chain_id as u64, (c7 - c6) as nat),
        ),
        uint_field_at(s.skip(c7 as int), KEY_VERSION) == Some(
            (tx.version as u64, (s.len() - c7) as nat),
        ),
        c1 <= c2 <= c3 <= c4 <= c5 <= c6 <= c7 <= s.len(),
    ensures
        read_transaction(s) == Some(tx),
{
    let got = read_transaction(s);
    assert(got is Some);
    assert(got->0.to == tx.to) by {
        if tx.to is None {
            assert(target_bytes(tx.to).len() == 0);
        }
    }
    assert(got->0 == tx);
}

/// Bytes that read as a transaction are the written form of that
/// transaction, which is well formed.
pub proof fn lemma_written_read_transaction(s: Seq<u8>)
    requires
        read_transaction(s) is Some,
    ensures
        read_transaction(s)->0.wf(),
        transaction_bytes(read_transaction(s)->0) == s,
{
    let tx = read_transaction(s)->0;
    let f1 = bytes_field_at(s, KEY_TO);
    let c1 = taken(f1);
    let u1 = s.skip(c1 as int);
    let f2 = bytes_field_at(u1, KEY_NONCE);
    let c2 = c1 + taken(f2);
    let u2 = s.skip(c2 as int);
    let f3 = uint_field_at(u2, KEY_QUOTA);
    let c3 = c2 + taken(f3);
    let u3 = s.skip(c3 as int);
    let f4 = uint_field_at(u3, KEY_VALID_UNTIL_BLOCK);
    let c4 = c3 + taken(f4);
    let u4 = s.skip(c4 as int);
    let f5 = bytes_field_at(u4, KEY_DATA);
    let c5 = c4 + taken(f5);
    let u5 = s.skip(c5 as int);
    let f6 = bytes_field_at(u5, KEY_VALUE);
    let c6 = c5 + taken(f6);
    let u6 = s.skip(c6 as int);
    let f7 = uint_field_at(u6, KEY_CHAIN_ID);
    let c7 = c6 + taken(f7);
    let u7 = s.skip(c7 as int);
    let f8 = uint_field_at(u7, KEY_VERSION);
    let c8 = c7 + taken(f8);
    let u8 = s.skip(c8 as int);
    lemma_bytes_field_canonical(s, KEY_TO);
    lemma_bytes_field_canonical(u1, KEY_NONCE);
    assert(u1.skip(taken(f2) as int) =~= u2);
    lemma_uint_field_canonical(u2, KEY_QUOTA);
    assert(u2.skip(taken(f3) as int) =~= u3);
    lemma_uint_field_canonical(u3, KEY_VALID_UNTIL_BLOCK);
    assert(u3.skip(taken(f4) as int) =~= u4);
    lemma_bytes_field_canonical(u4, KEY_DATA);
    assert(u4.skip(taken(f5) as int) =~= u5);
    lemma_bytes_field_canonical(u5, KEY_VALUE);
    assert(u5.skip(taken(f6) as int) =~= u6);
    lemma_uint_field_canonical(u6, KEY_CHAIN_ID);
    assert(u6.skip(taken(f7) as int) =~= u7);
    lemma_uint_field_canonical(u7, KEY_VERSION);
    assert(u7.skip(taken(f8) as int) =~= u8);
    assert(u8 =~= Seq::<u8>::empty());
    let e8 = uint_field(KEY_VERSION, tx.version as nat);
    assert(u7 =~= e8);
    decode_utf8_encode_utf8(bytes_of(f2));
    assert(target_bytes(tx.to) =~= bytes_of(f1));
}

/// No two well-formed transactions have the same written form.
pub proof fn lemma_transaction_bytes_injective(a: TransactionView, b: TransactionView)
    requires
        a.wf(),
        b.wf(),
        transaction_bytes(a) == transaction_bytes(b),
    ensures
        a == b,
{
    lemma_read_written_transaction(a);
    lemma_read_written_transaction(b);
}

/// Bytes other than the written form of a transaction stand for another
/// transaction, if for any: a change to the written form never goes
/// unnoticed.
pub proof fn lemma_changed_bytes_change_the_transaction(tx: TransactionView, changed: Seq<u8>)
    requires
        tx.wf(),
        changed != transaction_bytes(tx),
    ensures
        read_transaction(changed) != Some(tx),
{
    if read_transaction(changed) is Some {
        lemma_written_read_transaction(changed);
    }
}

/// Equal transactions have the same written form, and the written form
/// reads back as the transaction: writing is repeatable and loses nothing.
pub proof fn lemma_written_form_is_canonical(a: TransactionView, b: TransactionView)
    requires
        a.wf(),
        a == b,
    ensures
        transaction_bytes(a) == transaction_bytes(b),
        read_transaction(transaction_bytes(b)) == Some(a),
{
    lemma_read_written_transaction(a);
}

/// `std::string::FromUtf8Error`, carried from `String::from_utf8` to where
/// it is mapped.
#[verifier::external_type_specification]
#[verifier::external_body]
pub struct ExFromUtf8Error(std::string::FromUtf8Error);

/// `String::from_utf8`: succeeds on well-formed UTF-8 and on nothing else,
/// and then holds the characters that the bytes encode.
#[verifier::external_body]
fn text_of_utf8(bytes: Vec<u8>) -> (r: Result<String, std::string::FromUtf8Error>)
    ensures
        r is Ok <==> valid_utf8(bytes@),
        r is Ok ==> r->Ok_0@ == decode_utf8(bytes@),
{
    String::from_utf8(bytes)
}

impl Transaction {
    /// A transaction of the given fields. Whatever is held in memory is
    /// well formed.
    pub fn new(
        to: Option<Address>,
        nonce: String,
        quota: u64,
        valid_until_block: u64,
        data: Vec<u8>,
        value: Vec<u8>,
        chain_id: u32,
        version: u32,
    ) -> (tx: Transaction)
        ensures
            tx == (Transaction {
                to,
                nonce,
                quota,
                valid_until_block,
                data,
                value,
                chain_id,
                version,
            }),
            tx@.wf(),
    {
        // Read for the proof's sake: a length in memory fits a 64-bit count.
        let lengths: [usize; 3] = [nonce.as_str().as_bytes().len(), data.len(), value.len()];
        Transaction { to, nonce, quota, valid_until_block, data, value, chain_id, version }
    }

    /// The canonical written form.
    pub fn serialize(&self) -> (out: Vec<u8>)
        ensures
            out@ == transaction_bytes(self@),
    {
        let mut out: Vec<u8> = Vec::new();
        match &self.to {
            Some(address) => put_bytes_field(&mut out, KEY_TO, address.bytes.as_slice()),
            None => {
                proof {
                    reveal(bytes_field);
                    assert(out@ =~= bytes_field(KEY_TO, target_bytes(self@.to)));
                }
            },
        }
        assert(out@ =~= bytes_field(KEY_TO, target_bytes(self@.to)));
        put_bytes_field(&mut out, KEY_NONCE, self.nonce.as_str().as_bytes());
        put_uint_field(&mut out, KEY_QUOTA, self.quota);
        put_uint_field(&mut out, KEY_VALID_UNTIL_BLOCK, self.valid_until_block);
        put_bytes_field(&mut out, KEY_DATA, self.data.as_slice());
        put_bytes_field(&mut out, KEY_VALUE, self.value.as_slice());
        put_uint_field(&mut out, KEY_CHAIN_ID, self.chain_id as u64);
        put_uint_field(&mut out, KEY_VERSION, self.version as u64);
        proof {
            assert(out@ =~= transaction_bytes(self@));
        }
        out
    }

    /// Read the fields in their order, and refuse whatever is left over.
    fn parse(bytes: &[u8]) -> (r: Option<Transaction>)
        ensures
            match r {
                Some(tx) => read_transaction(bytes@) == Some(tx@),
                None => read_transaction(bytes@) is None,
            },
    {
        let ghost s = bytes@;
        proof {
            assert(s.skip(0) =~= s);
        }
        let to = match take_bytes_field(bytes, 0, KEY_TO) {
            Some(span) => span,
            None => { return None; },
        };
        let ghost f1 = bytes_field_at(s, KEY_TO);
        assert(f1 is Some && taken(f1) == to.end);
        let nonce = match take_bytes_field(bytes, to.end, KEY_NONCE) {
            Some(span) => span,
            None => { return None; },
        };
        let ghost f2 = bytes_field_at(s.skip(to.end as int), KEY_NONCE);
        assert(f2 is Some && to.end + taken(f2) == nonce.end);
        let quota = match take_uint_field(bytes, nonce.end, KEY_QUOTA) {
            Some(found) => found,
            None => { return None; },
        };
        let ghost f3 = uint_field_at(s.skip(nonce.end as int), KEY_QUOTA);
        assert(f3 is Some && nonce.end + taken(f3) == quota.end && number_of(f3) == quota.value);
        let valid_until_block = match take_uint_field(bytes, quota.end, KEY_VALID_UNTIL_BLOCK) {
            Some(found) => found,
            None => { return None; },
        };
        let ghost f4 = uint_field_at(s.skip(quota.end as int), KEY_VALID_UNTIL_BLOCK);
        assert(f4 is Some && quota.end + taken(f4) == valid_until_block.end && number_of(f4)
            == valid_until_block.value);
        let data = match take_bytes_field(bytes, valid_until_block.end, KEY_DATA) {
            Some(span) => span,
            None => { return None; },
        };
        let ghost f5 = bytes_field_at(s.skip(valid_until_block.end as int), KEY_DATA);
        assert(f5 is Some && valid_until_block.end + taken(f5) == data.end);
        let value = match take_bytes_field(bytes, data.end, KEY_VALUE) {
            Some(span) => span,
            None => { return None; },
        };
        let ghost f6 = bytes_field_at(s.skip(data.end as int), KEY_VALUE);
        assert(f6 is Some && data.end + taken(f6) == value.end);
        let chain_id = match take_uint_field(bytes, value.end, KEY_CHAIN_ID) {
            Some(found) => found,
            None => { return None; },
        };
        let ghost f7 = uint_field_at(s.skip(value.end as int), KEY_CHAIN_ID);
        assert(f7 is Some && value.end + taken(f7) == chain_id.end && number_of(f7)
            == chain_id.value);
        let version = match take_uint_field(bytes, chain_id.end, KEY_VERSION) {
            Some(found) => found,
            None => { return None; },
        };
        let ghost f8 = uint_field_at(s.skip(chain_id.end as int), KEY_VERSION);
        assert(f8 is Some && chain_id.end + taken(f8) == version.end && number_of(f8)
            == version.value);
        if version.end != bytes.len() || chain_id.value > 0xffff_ffff || version.value > 0xffff_ffff {
            return None;
        }
        let target = if to.start == to.end {
            None
        } else {
            match Address::from_slice(slice_subrange(bytes, to.start, to.end)) {
                Some(address) => Some(address),
                None => { return None; },
            }
        };
        let text = match text_of_utf8(copy_range(bytes, nonce.start, nonce.end)) {
            Ok(text) => text,
            Err(_) => { return None; },
        };
        Some(
            Transaction {
                to: target,
                nonce: text,
                quota: quota.value,
                valid_until_block: valid_until_block.value,
                data: copy_range(bytes, data.start, data.end),
                value: copy_range(bytes, value.start, value.end),
                chain_id: chain_id.value as u32,
                version: version.value as u32,
            },
        )
    }

    /// Read a transaction from its written form. Bytes that are not the
    /// written form of any transaction are refused: an unknown or repeated
    /// field, a field out of order, a count that runs past the end, a number
    /// in more bytes than it needs or too wide for its field, a field that
    /// spells out zero or nothing, a target that is not twenty bytes, a
    /// nonce that is not UTF-8.
    pub fn deserialize(bytes: &[u8]) -> (r: Result<Transaction, ToolError>)
        ensures
            match r {
                Ok(tx) => read_transaction(bytes@) == Some(tx@),
                Err(e) => read_transaction(bytes@) is None && e == ToolError::MalformedTransaction,
            },
            r is Ok ==> r->Ok_0@.wf() && transaction_bytes(r->Ok_0@) == bytes@,
            r is Err ==> forall|t: TransactionView|
                t.wf() ==> #[trigger] transaction_bytes(t) != bytes@,
    {
        match Transaction::parse(bytes) {
            Some(tx) => {
                proof {
                    lemma_written_read_transaction(bytes@);
                }
                Ok(tx)
            },
            None => {
                proof {
                    assert forall|t: TransactionView| t.wf() implies #[trigger] transaction_bytes(t)
                        != bytes@ by {
                        lemma_read_written_transaction(t);
                    }
                }
                Err(ToolError::MalformedTransaction)
            },
        }
    }
}

} // verus!
