//! The signed envelope: an unsigned transaction with the signature over its
//! written form, and the layout in which both travel.

use vstd::prelude::*;
use vstd::slice::slice_subrange;
use crate::error::ToolError;
use crate::transaction::{
    bytes_of, lemma_read_written_transaction, lemma_written_read_transaction, number_of,
    read_transaction, taken, transaction_bytes, Transaction, TransactionView,
};
use crate::wire::{
    block_field, block_field_at, bytes_field, bytes_field_at, copy_range,
    lemma_block_field_canonical, lemma_block_field_written, lemma_bytes_field_canonical,
    lemma_bytes_field_written, lemma_uint_field_canonical, lemma_uint_field_written,
    put_block_field, put_bytes_field, put_uint_field, starts_with_key, take_block_field,
    take_bytes_field, take_uint_field, uint_field, uint_field_at,
};

verus! {

/// The key of the transaction: field 1, a nested block.
pub const KEY_TRANSACTION: u8 = 10;

/// The key of the family's tag: field 2, a number.
pub const KEY_CRYPTO: u8 = 16;

/// The key of the signature: field 3, bytes.
pub const KEY_SIGNATURE: u8 = 26;

/// The two algorithm families. A family is a digest, a signature scheme and
/// a rule that derives an address from a public key.
#[derive(Debug, Clone, Copy, PartialEq, Eq, Structural)]
pub enum Crypto {
    /// Keccak-256 with recoverable ECDSA over secp256k1.
    Secp256k1,
    /// Keyed BLAKE2b-256 with Ed25519.
    Ed25519,
}

/// The number that stands for a family on the wire.
pub open spec fn crypto_tag(crypto: Crypto) -> u64 {
    match crypto {
        Crypto::Secp256k1 => 0,
        Crypto::Ed25519 => 1,
    }
}

/// The length of a family's signatures: 64 bytes and a recovery byte for
/// the first, 64 bytes and the 32-byte public key for the second.
pub open spec fn signature_len(crypto: Crypto) -> nat {
    match crypto {
        Crypto::Secp256k1 => 65,
        Crypto::Ed25519 => 96,
    }
}

impl Crypto {
    /// The number that stands for the family on the wire.
    pub fn tag(&self) -> (tag: u64)
        ensures
            tag == crypto_tag(*self),
    {
        match self {
            Crypto::Secp256k1 => 0,
            Crypto::Ed25519 => 1,
        }
    }

    /// The family that `tag` stands for.
    pub fn from_tag(tag: u64) -> (crypto: Option<Crypto>)
        ensures
            crypto is Some <==> tag <= 1,
            crypto is Some ==> crypto_tag(crypto->0) == tag,
    {
        if tag == 0 {
            Some(Crypto::Secp256k1)
        } else if tag == 1 {
            Some(Crypto::Ed25519)
        } else {
            None
        }
    }

    /// The length of the family's signatures.
    pub fn signature_len(&self) -> (len: usize)
        ensures
            len == signature_len(*self),
    {
        match self {
            Crypto::Secp256k1 => 65,
            Crypto::Ed25519 => 96,
        }
    }
}

/// A signature and the family that made it.
#[derive(Debug, PartialEq, Eq)]
pub struct Signature {
    pub crypto: Crypto,
    pub bytes: Vec<u8>,
}

/// A signature as plain values.
pub struct SignatureView {
    pub crypto: Crypto,
    pub bytes: Seq<u8>,
}

impl SignatureView {
    /// The signature has the length of its family.
    pub open spec fn wf(self) -> bool {
        self.bytes.len() == signature_len(self.crypto)
    }
}

impl View for Signature {
    type V = SignatureView;

    open spec fn view(&self) -> SignatureView {
        SignatureView { crypto: self.crypto, bytes: self.bytes@ }
    }
}

/// An unsigned transaction together with a signature.
#[derive(Debug, PartialEq, Eq)]
pub struct UnverifiedTransaction {
    pub transaction: Transaction,
    pub signature: Signature,
}

/// An envelope as plain values.
pub struct EnvelopeView {
    pub transaction: TransactionView,
    pub signature: SignatureView,
}

impl EnvelopeView {
    /// Both parts are well formed, and the written transaction fits a
    /// 64-bit count.
    pub open spec fn wf(self) -> bool {
        &&& self.transaction.wf()
        &&& self.signature.wf()
        &&& transaction_bytes(self.transaction).len() <= u64::MAX
    }
}

impl View for UnverifiedTransaction {
    type V = EnvelopeView;

    open spec fn view(&self) -> EnvelopeView {
        EnvelopeView { transaction: self.transaction@, signature: self.signature@ }
    }
}

/// The written form of an envelope: the written transaction as a nested
/// block, then the family's tag, then the signature.
pub open spec fn envelope_bytes(e: EnvelopeView) -> Seq<u8> {
    block_field(KEY_TRANSACTION, transaction_bytes(e.transaction)) + (uint_field(
        KEY_CRYPTO,
        crypto_tag(e.signature.crypto) as nat,
    ) + bytes_field(KEY_SIGNATURE, e.signature.bytes))
}

/// The family that a tag stands for.
pub open spec fn crypto_of_tag(tag: u64) -> Crypto {
    if tag == 0 {
        Crypto::Secp256k1
    } else {
        Crypto::Ed25519
    }
}

/// The envelope that `s` is the written form of, if it is one.
pub open spec fn read_envelope(s: Seq<u8>) -> Option<EnvelopeView> {
    let f1 = block_field_at(s, KEY_TRANSACTION);
    let c1 = taken(f1);
    let f2 = uint_field_at(s.skip(c1 as int), KEY_CRYPTO);
    let c2 = c1 + taken(f2);
    let f3 = bytes_field_at(s.skip(c2 as int), KEY_SIGNATURE);
    let c3 = c2 + taken(f3);
    let tx = read_transaction(bytes_of(f1));
    if f1 is Some && f2 is Some && f3 is Some && c3 == s.len() && tx is Some && number_of(f2) <= 1
        && bytes_of(f3).len() == signature_len(crypto_of_tag(number_of(f2))) {
        Some(
            EnvelopeView {
                transaction: tx->0,
                signature: SignatureView {
                    crypto: crypto_of_tag(number_of(f2)),
                    bytes: bytes_of(f3),
                },
            },
        )
    } else {
        None
    }
}

/// Reading the written form of an envelope gives the envelope.
pub proof fn lemma_read_written_envelope(e: EnvelopeView)
    requires
        e.wf(),
    ensures
        read_envelope(envelope_bytes(e)) == Some(e),
{
    let s = envelope_bytes(e);
    let none = Seq::<u8>::empty();
    let inner = transaction_bytes(e.transaction);
    let tag = crypto_tag(e.signature.crypto);
    let e1 = block_field(KEY_TRANSACTION, inner);
    let e2 = uint_field(KEY_CRYPTO, tag as nat);
    let e3 = bytes_field(KEY_SIGNATURE, e.signature.bytes);
    let t2 = e2 + e3;
    assert(e3 + none =~= e3);
    assert(!starts_with_key(e3, KEY_CRYPTO)) by {
        reveal(bytes_field);
    }
    lemma_block_field_written(KEY_TRANSACTION, inner, t2);
    lemma_uint_field_written(KEY_CRYPTO, tag, e3);
    lemma_bytes_field_written(KEY_SIGNATURE, e.signature.bytes, none);
    let c1 = e1.len();
    let c2 = c1 + e2.len();
    let c3 = c2 + e3.len();
    assert(s.skip(c2 as int) =~= t2.skip(e2.len() as int));
    assert(s.skip(c3 as int).len() == 0);
    lemma_read_written_transaction(e.transaction);
    let got = read_envelope(s);
    assert(got is Some);
    assert(got->0.signature == e.signature);
    assert(got->0 == e);
}

/// Bytes that read as an envelope are the written form of that envelope,
/// which is well formed.
pub proof fn lemma_written_read_envelope(s: Seq<u8>)
    requires
        read_envelope(s) is Some,
    ensures
        read_envelope(s)->0.wf(),
        envelope_bytes(read_envelope(s)->0) == s,
{
    let e = read_envelope(s)->0;
    let f1 = block_field_at(s, KEY_TRANSACTION);
    let c1 = taken(f1);
    let u1 = s.skip(c1 as int);
    let f2 = uint_field_at(u1, KEY_CRYPTO);
    let c2 = c1 + taken(f2);
    let u2 = s.skip(c2 as int);
    let f3 = bytes_field_at(u2, KEY_SIGNATURE);
    let c3 = c2 + taken(f3);
    let u3 = s.skip(c3 as int);
    lemma_block_field_canonical(s, KEY_TRANSACTION);
    lemma_uint_field_canonical(u1, KEY_CRYPTO);
    assert(u1.skip(taken(f2) as int) =~= u2);
    lemma_bytes_field_canonical(u2, KEY_SIGNATURE);
    assert(u2.skip(taken(f3) as int) =~= u3);
    assert(u3 =~= Seq::<u8>::empty());
    assert(u2 =~= bytes_field(KEY_SIGNATURE, e.signature.bytes));
    lemma_written_read_transaction(bytes_of(f1));
}

/// No two well-formed envelopes have the same written form.
pub proof fn lemma_envelope_bytes_injective(a: EnvelopeView, b: EnvelopeView)
    requires
        a.wf(),
        b.wf(),
        envelope_bytes(a) == envelope_bytes(b),
    ensures
        a == b,
{
    lemma_read_written_envelope(a);
    lemma_read_written_envelope(b);
}

impl UnverifiedTransaction {
    /// The canonical written form.
    pub fn serialize(&self) -> (out: Vec<u8>)
        ensures
            out@ == envelope_bytes(self@),
    {
        let inner = self.transaction.serialize();
        let mut out: Vec<u8> = Vec::new();
        put_block_field(&mut out, KEY_TRANSACTION, inner.as_slice());
        put_uint_field(&mut out, KEY_CRYPTO, self.signature.crypto.tag());
        put_bytes_field(&mut out, KEY_SIGNATURE, self.signature.bytes.as_slice());
        proof {
            assert(out@ =~= envelope_bytes(self@));
        }
        out
    }

    /// Read the three fields in their order, and refuse whatever is left
    /// over.
    fn parse(bytes: &[u8]) -> (r: Option<UnverifiedTransaction>)
        ensures
            match r {
                Some(e) => read_envelope(bytes@) == Some(e@),
                None => read_envelope(bytes@) is None,
            },
    {
        let ghost s = bytes@;
        proof {
            assert(s.skip(0) =~= s);
        }
        let inner = match take_block_field(bytes, 0, KEY_TRANSACTION) {
            Some(span) => span,
            None => { return None; },
        };
        let ghost f1 = block_field_at(s, KEY_TRANSACTION);
        assert(f1 is Some && taken(f1) == inner.end);
        let tag = match take_uint_field(bytes, inner.end, KEY_CRYPTO) {
            Some(found) => found,
            None => { return None; },
        };
        let ghost f2 = uint_field_at(s.skip(inner.end as int), KEY_CRYPTO);
        assert(f2 is Some && inner.end + taken(f2) == tag.end && number_of(f2) == tag.value);
        let signed = match take_bytes_field(bytes, tag.end, KEY_SIGNATURE) {
            Some(span) => span,
            None => { return None; },
        };
        let ghost f3 = bytes_field_at(s.skip(tag.end as int), KEY_SIGNATURE);
        assert(f3 is Some && tag.end + taken(f3) == signed.end);
        if signed.end != bytes.len() {
            return None;
        }
        let crypto = match Crypto::from_tag(tag.value) {
            Some(crypto) => crypto,
            None => { return None; },
        };
        if signed.end - signed.start != crypto.signature_len() {
            return None;
        }
        let transaction = match Transaction::deserialize(
            slice_subrange(bytes, inner.start, inner.end),
        ) {
            Ok(transaction) => transaction,
            Err(_) => { return None; },
        };
        Some(
            UnverifiedTransaction {
                transaction,
                signature: Signature {
                    crypto,
                    bytes: copy_range(bytes, signed.start, signed.end),
                },
            },
        )
    }

    /// Read an envelope from its written form. Bytes that are not the
    /// written form of any envelope are refused: a missing or malformed
    /// transaction, a tag that names no family, a signature that has not the
    /// length of its family, or anything out of order or left over.
    pub fn deserialize(bytes: &[u8]) -> (r: Result<UnverifiedTransaction, ToolError>)
        ensures
            match r {
                Ok(e) => read_envelope(bytes@) == Some(e@),
                Err(e) => read_envelope(bytes@) is None && e == ToolError::MalformedTransaction,
            },
            r is Ok ==> r->Ok_0@.wf() && envelope_bytes(r->Ok_0@) == bytes@,
            r is Err ==> forall|e: EnvelopeView| e.wf() ==> #[trigger] envelope_bytes(e) != bytes@,
    {
        match UnverifiedTransaction::parse(bytes) {
            Some(envelope) => {
                proof {
                    lemma_written_read_envelope(bytes@);
                }
                Ok(envelope)
            },
            None => {
                proof {
                    assert forall|e: EnvelopeView| e.wf() implies #[trigger] envelope_bytes(e)
                        != bytes@ by {
                        lemma_read_written_envelope(e);
                    }
                }
                Err(ToolError::MalformedTransaction)
            },
        }
    }
}

} // verus!
