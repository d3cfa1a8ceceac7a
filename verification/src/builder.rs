//! From a caller's choices to a signed transaction that is ready to send.

use vstd::prelude::*;
use crate::abi::Kind;
use crate::abi_text::{call_outcome, encode};
use crate::address::{is_address_text, Address};
use crate::client::transaction_option::{OptionView, TransactionOption};
use crate::client::{remove_0x, without_0x};
use crate::crypto::{
    address_of, derive_address, digest, digest_of, recover_or_verify, same_bytes, signature_of,
    signer_of, KeyPair,
};
use crate::envelope::{envelope_bytes, read_envelope, EnvelopeView, UnverifiedTransaction};
use crate::error::ToolError;
use crate::text::{
    from_hex, hex_text, hex_value, is_hex_text, lemma_hex_round_trip,
    lemma_prefixed_hex_round_trip, to_hex, to_prefixed_hex,
};
use crate::transaction::{transaction_bytes, Transaction, TransactionView};
use crate::abi::zeros;

verus! {

/// The number of blocks for which a transaction stays valid behind the
/// height at which it was built, where the caller names no other.
pub const VALID_WINDOW: u64 = 88;

/// Where the block height of a transaction comes from.
#[derive(Debug, Clone, Copy, PartialEq, Eq, Structural)]
pub enum HeightSource {
    /// The caller chose this height.
    Chosen(u64),
    /// The height has to be asked of the chain.
    AskChain,
}

/// Whether the chain has to be asked for its height before the
/// transaction can be built.
pub fn height_source(option: &TransactionOption) -> (source: HeightSource)
    ensures
        source == match option@.current_height {
            Some(height) => HeightSource::Chosen(height),
            None => HeightSource::AskChain,
        },
{
    match option.current_height() {
        Some(height) => HeightSource::Chosen(height),
        None => HeightSource::AskChain,
    }
}

/// The height from which the validity window counts: the caller's choice,
/// else what the chain answered.
pub open spec fn height_of(chosen: Option<u64>, answered: Option<u64>) -> Option<u64> {
    match chosen {
        Some(height) => Some(height),
        None => answered,
    }
}

/// The transaction that the caller's choices stand for, or the first
/// reason why they stand for none: code that is not hexadecimal, an address
/// that is neither empty nor twenty bytes, no quota, no height, a height
/// whose window ends beyond 64 bits, a value that is not hexadecimal or
/// longer than 32 bytes.
pub open spec fn unsigned_of(
    option: OptionView,
    nonce: Seq<char>,
    answered: Option<u64>,
    chain_id: u32,
    version: u32,
) -> Result<TransactionView, ToolError> {
    let height = height_of(option.current_height, answered);
    let amount = match option.value {
        Some(text) => hex_value(without_0x(text)),
        None => Seq::<u8>::empty(),
    };
    if !is_hex_text(without_0x(option.code)) {
        Err(ToolError::InvalidHex)
    } else if without_0x(option.address).len() != 0 && !is_address_text(option.address) {
        Err(ToolError::MalformedAddress)
    } else if option.quota is None {
        Err(ToolError::MissingQuota)
    } else if height is None {
        Err(ToolError::MissingHeight)
    } else if height->0 + VALID_WINDOW > u64::MAX {
        Err(ToolError::HeightOutOfRange)
    } else if option.value is Some && !(is_hex_text(without_0x(option.value->0)) && amount.len()
        <= 32) {
        Err(ToolError::InvalidHex)
    } else {
        Ok(
            TransactionView {
                to: if without_0x(option.address).len() == 0 {
                    None
                } else {
                    Some(hex_value(without_0x(option.address)))
                },
                nonce,
                quota: option.quota->0,
                valid_until_block: (height->0 + VALID_WINDOW) as u64,
                data: hex_value(without_0x(option.code)),
                value: word_of(amount),
                chain_id,
                version,
            },
        )
    }
}

/// At most 32 bytes, filled up in front with zeros to a word.
pub open spec fn word_of(bytes: Seq<u8>) -> Seq<u8> {
    zeros((32 - bytes.len()) as nat) + bytes
}

/// `uuid::Uuid::new_v4`: sixteen random bytes.
#[verifier::external_body]
fn random_uuid() -> (bytes: Vec<u8>)
    ensures
        bytes@.len() == 16,
{
    uuid::Uuid::new_v4().as_bytes().to_vec()
}

/// A fresh nonce: 32 hexadecimal digits drawn at random.
pub fn fresh_nonce() -> (nonce: String)
    ensures
        nonce@.len() == 32,
        is_hex_text(nonce@),
        exists|bytes: Seq<u8>| bytes.len() == 16 && nonce@ == #[trigger] hex_text(bytes),
{
    let bytes = random_uuid();
    proof {
        lemma_hex_round_trip(bytes@);
    }
    let nonce = to_hex(bytes.as_slice());
    assert(nonce@ == hex_text(bytes@));
    nonce
}

/// At most 32 bytes as 32, filled up in front with zeros.
fn amount_word(bytes: &[u8]) -> (word: Vec<u8>)
    requires
        bytes@.len() <= 32,
    ensures
        word@ == word_of(bytes@),
{
    let mut word: Vec<u8> = Vec::new();
    crate::abi_words::put_zeros(&mut word, 32 - bytes.len());
    crate::wire::put_bytes(&mut word, bytes);
    proof {
        assert(word@ =~= word_of(bytes@));
    }
    word
}

/// Build the unsigned transaction that the caller's choices stand for.
/// `answered` is the height that the chain gave, where it was asked.
pub fn build_unsigned(
    option: &TransactionOption,
    nonce: String,
    answered: Option<u64>,
    chain_id: u32,
    version: u32,
) -> (r: Result<Transaction, ToolError>)
    ensures
        match r {
            Ok(tx) => unsigned_of(option@, nonce@, answered, chain_id, version) == Ok::<
                TransactionView,
                ToolError,
            >(tx@),
            Err(e) => unsigned_of(option@, nonce@, answered, chain_id, version) == Err::<
                TransactionView,
                ToolError,
            >(e),
        },
        r is Ok ==> r->Ok_0@.wf(),
{
    let data = match from_hex(option.code()) {
        Ok(data) => data,
        Err(_) => { return Err(ToolError::InvalidHex); },
    };
    let to = if remove_0x(option.address()).unicode_len() == 0 {
        None
    } else {
        match Address::from_text(option.address()) {
            Ok(address) => Some(address),
            Err(_) => { return Err(ToolError::MalformedAddress); },
        }
    };
    let quota = match option.quota() {
        Some(quota) => quota,
        None => { return Err(ToolError::MissingQuota); },
    };
    let height = match option.current_height() {
        Some(height) => height,
        None => match answered {
            Some(height) => height,
            None => { return Err(ToolError::MissingHeight); },
        },
    };
    if height > u64::MAX - VALID_WINDOW {
        return Err(ToolError::HeightOutOfRange);
    }
    let value = match option.value() {
        Some(text) => match from_hex(text) {
            Ok(bytes) => {
                if bytes.len() > 32 {
                    return Err(ToolError::InvalidHex);
                }
                amount_word(bytes.as_slice())
            },
            Err(_) => { return Err(ToolError::InvalidHex); },
        },
        None => {
            let none: Vec<u8> = Vec::new();
            amount_word(none.as_slice())
        },
    };
    Ok(Transaction::new(to, nonce, quota, height + VALID_WINDOW, data, value, chain_id, version))
}

/// The digest that is signed: that of the written transaction, under the
/// family of the signer.
pub open spec fn signing_hash(crypto: crate::envelope::Crypto, tx: TransactionView) -> Seq<u8> {
    digest_of(crypto, transaction_bytes(tx))
}

/// Sign a transaction: the signature is that of the key pair over the
/// digest of the written transaction, and carries the key pair's family.
pub fn sign_transaction(transaction: Transaction, key_pair: &KeyPair) -> (envelope:
    UnverifiedTransaction)
    ensures
        envelope@.transaction == transaction@,
        envelope@.signature.crypto == key_pair@.crypto,
        envelope@.signature.bytes == signature_of(
            key_pair@.crypto,
            key_pair@.private,
            signing_hash(key_pair@.crypto, transaction@),
        ),
        envelope@.signature.wf(),
        envelope_signer(envelope@) == Some(key_pair@.public),
{
    let bytes = transaction.serialize();
    let hash = digest(key_pair.crypto(), bytes.as_slice());
    let signature = key_pair.sign(hash.as_slice());
    UnverifiedTransaction { transaction, signature }
}

/// An envelope whose signature was checked, with the digest of the written
/// envelope, the public key of the signer and the signer's address.
#[derive(Debug, PartialEq, Eq)]
pub struct SignedTransaction {
    pub transaction_with_sig: UnverifiedTransaction,
    pub tx_hash: Vec<u8>,
    pub signer: Vec<u8>,
    pub sender: Address,
}

/// A checked envelope as plain values.
pub struct SignedView {
    pub envelope: EnvelopeView,
    pub tx_hash: Seq<u8>,
    pub signer: Seq<u8>,
    pub sender: Seq<u8>,
}

impl View for SignedTransaction {
    type V = SignedView;

    open spec fn view(&self) -> SignedView {
        SignedView {
            envelope: self.transaction_with_sig@,
            tx_hash: self.tx_hash@,
            signer: self.signer@,
            sender: self.sender@,
        }
    }
}

/// The public key of the signer of an envelope, where the signature
/// belongs to the written transaction.
pub open spec fn envelope_signer(envelope: EnvelopeView) -> Option<Seq<u8>> {
    if envelope.signature.wf() {
        signer_of(envelope.signature, signing_hash(envelope.signature.crypto, envelope.transaction))
    } else {
        None
    }
}

/// What checking an envelope gives, where its signature holds.
pub open spec fn checked(envelope: EnvelopeView) -> SignedView {
    SignedView {
        envelope,
        tx_hash: digest_of(envelope.signature.crypto, envelope_bytes(envelope)),
        signer: envelope_signer(envelope)->0,
        sender: address_of(envelope.signature.crypto, envelope_signer(envelope)->0),
    }
}

impl SignedTransaction {
    /// Check the signature of an envelope against the digest of its
    /// written transaction, and find out the signer.
    pub fn verify(envelope: UnverifiedTransaction) -> (r: Result<SignedTransaction, ToolError>)
        ensures
            r is Ok <==> envelope_signer(envelope@) is Some,
            r is Ok ==> r->Ok_0@ == checked(envelope@),
            r is Err ==> r->Err_0 == ToolError::InvalidSignature,
    {
        let crypto = envelope.signature.crypto;
        let bytes = envelope.transaction.serialize();
        let hash = digest(crypto, bytes.as_slice());
        let signer = match recover_or_verify(&envelope.signature, hash.as_slice()) {
            Ok(signer) => signer,
            Err(_) => { return Err(ToolError::InvalidSignature); },
        };
        let whole = envelope.serialize();
        let tx_hash = digest(crypto, whole.as_slice());
        let sender = derive_address(crypto, signer.as_slice());
        Ok(SignedTransaction { transaction_with_sig: envelope, tx_hash, signer, sender })
    }

    /// The text in which the envelope travels: "0x" and the written
    /// envelope in hexadecimal digits.
    pub fn to_transport(&self) -> (text: String)
        ensures
            text@ == transport_text(self@.envelope),
    {
        self.transaction_with_sig.to_transport()
    }
}

/// The text in which an envelope travels.
pub open spec fn transport_text(envelope: EnvelopeView) -> Seq<char> {
    "0x"@ + hex_text(envelope_bytes(envelope))
}

impl UnverifiedTransaction {
    /// The text in which the envelope travels: "0x" and the written
    /// envelope in hexadecimal digits.
    pub fn to_transport(&self) -> (text: String)
        ensures
            text@ == transport_text(self@),
    {
        let bytes = self.serialize();
        to_prefixed_hex(bytes.as_slice())
    }

    /// Read an envelope from the text in which it travels. The prefix may
    /// be "0x", "0X" or missing, and the digits of either case.
    pub fn from_transport(text: &str) -> (r: Result<UnverifiedTransaction, ToolError>)
        ensures
            match r {
                Ok(envelope) => is_hex_text(without_0x(text@)) && read_envelope(
                    hex_value(without_0x(text@)),
                ) == Some(envelope@),
                Err(ToolError::InvalidHex) => !is_hex_text(without_0x(text@)),
                Err(ToolError::MalformedTransaction) => is_hex_text(without_0x(text@))
                    && read_envelope(hex_value(without_0x(text@))) is None,
                Err(_) => false,
            },
    {
        let bytes = match from_hex(text) {
            Ok(bytes) => bytes,
            Err(_) => { return Err(ToolError::InvalidHex); },
        };
        match UnverifiedTransaction::deserialize(bytes.as_slice()) {
            Ok(envelope) => Ok(envelope),
            Err(_) => Err(ToolError::MalformedTransaction),
        }
    }
}

/// Sign a transaction and check the signature against the key pair that
/// made it: the result holds the envelope, the digest of the written
/// envelope, the key pair's public key as signer and the key pair's address
/// as sender.
pub fn sign_and_check(transaction: Transaction, key_pair: &KeyPair) -> (r: Result<
    SignedTransaction,
    ToolError,
>)
    ensures
        r is Ok,
        r->Ok_0@.envelope.transaction == transaction@,
        r->Ok_0@.envelope.signature.crypto == key_pair@.crypto,
        r->Ok_0@.envelope.signature.bytes == signature_of(
            key_pair@.crypto,
            key_pair@.private,
            signing_hash(key_pair@.crypto, transaction@),
        ),
        r->Ok_0@ == checked(r->Ok_0@.envelope),
        envelope_signer(r->Ok_0@.envelope) == Some(key_pair@.public),
        r->Ok_0@.signer == key_pair@.public,
        r->Ok_0@.sender == key_pair@.address,
{
    let envelope = sign_transaction(transaction, key_pair);
    let signed = match SignedTransaction::verify(envelope) {
        Ok(signed) => signed,
        // Not taken: the signature was made by the key pair a moment ago.
        Err(e) => { return Err(e); },
    };
    if !same_bytes(signed.signer.as_slice(), key_pair.public_key()) {
        // Not taken: the signer that was found is the key pair.
        return Err(ToolError::InvalidSignature);
    }
    let own = key_pair.address();
    assert(signed.sender@ == own@);
    Ok(signed)
}

/// What a call or a contract creation carries as its data.
pub enum Payload {
    /// A call of the function with this signature, whose arguments are
    /// written as text and declared with these kinds.
    Call { signature: String, kinds: Vec<Kind>, arguments: Vec<String> },
    /// Data that is sent as it is, such as the code of a new contract.
    Raw(Vec<u8>),
}

/// The data that a payload stands for, or the reason why it stands for
/// none.
pub open spec fn payload_outcome(payload: Payload) -> Result<Seq<u8>, ToolError> {
    match payload {
        Payload::Call { signature, kinds, arguments } => call_outcome(
            vstd::utf8::encode_utf8(signature@),
            kinds,
            arguments@,
        ),
        Payload::Raw(data) => Ok(data@),
    }
}

/// Build, sign and check a transaction. The data is the payload's raw
/// bytes, or the call data of its function and arguments. The result is
/// signed by the key pair: its signer is the key pair's public key and its
/// sender the key pair's address. Nothing is returned where the arguments
/// do not encode or the signature does not lead back to the key pair.
pub fn build_and_sign(
    to: Option<Address>,
    payload: Payload,
    nonce: String,
    quota: u64,
    valid_until_block: u64,
    value: Vec<u8>,
    chain_id: u32,
    version: u32,
    key_pair: &KeyPair,
) -> (r: Result<SignedTransaction, ToolError>)
    ensures
        r is Ok ==> {
            let tx = r->Ok_0@.envelope.transaction;
            &&& tx.to == match to {
                Some(a) => Some(a@),
                None => None,
            }
            &&& tx.nonce == nonce@
            &&& tx.quota == quota
            &&& tx.valid_until_block == valid_until_block
            &&& tx.value == value@
            &&& tx.chain_id == chain_id
            &&& tx.version == version
            &&& Ok::<Seq<u8>, ToolError>(tx.data) == payload_outcome(payload)
            &&& r->Ok_0@.envelope.signature.crypto == key_pair@.crypto
            &&& r->Ok_0@.envelope.signature.bytes == signature_of(
                key_pair@.crypto,
                key_pair@.private,
                signing_hash(key_pair@.crypto, tx),
            )
            &&& r->Ok_0@ == checked(r->Ok_0@.envelope)
            &&& envelope_signer(r->Ok_0@.envelope) == Some(key_pair@.public)
            &&& r->Ok_0@.signer == key_pair@.public
            &&& r->Ok_0@.sender == key_pair@.address
        },
        r is Ok <==> payload_outcome(payload) is Ok,
        r is Err ==> payload_outcome(payload) == Err::<Seq<u8>, ToolError>(r->Err_0),
{
    let data = match payload {
        Payload::Call { signature, kinds, arguments } => match encode(
            signature.as_str(),
            kinds,
            &arguments,
        ) {
            Ok(data) => data,
            Err(e) => { return Err(e); },
        },
        Payload::Raw(data) => data,
    };
    let transaction = Transaction::new(
        to,
        nonce,
        quota,
        valid_until_block,
        data,
        value,
        chain_id,
        version,
    );
    sign_and_check(transaction, key_pair)
}

/// Building from the same choices gives the same transaction and so the
/// same written form.
pub proof fn lemma_build_is_repeatable(
    option: OptionView,
    nonce: Seq<char>,
    answered: Option<u64>,
    chain_id: u32,
    version: u32,
    first: TransactionView,
    second: TransactionView,
)
    requires
        unsigned_of(option, nonce, answered, chain_id, version) == Ok::<
            TransactionView,
            ToolError,
        >(first),
        unsigned_of(option, nonce, answered, chain_id, version) == Ok::<
            TransactionView,
            ToolError,
        >(second),
    ensures
        first == second,
        transaction_bytes(first) == transaction_bytes(second),
{
}

/// The text in which a well-formed envelope travels reads back as the
/// envelope.
pub proof fn lemma_transport_round_trip(envelope: EnvelopeView)
    requires
        envelope.wf(),
    ensures
        is_hex_text(without_0x(transport_text(envelope))),
        read_envelope(hex_value(without_0x(transport_text(envelope)))) == Some(envelope),
{
    lemma_prefixed_hex_round_trip(envelope_bytes(envelope));
    crate::envelope::lemma_read_written_envelope(envelope);
}

} // verus!
