//! The two algorithm families: content digests, signatures, and the
//! addresses derived from public keys.

use vstd::prelude::*;
use vstd::slice::slice_subrange;
use crate::abi::be_value;
use crate::address::Address;
use crate::envelope::{signature_len, Crypto, Signature, SignatureView};
use crate::error::ToolError;
use crate::wire::{copy_range, put_bytes};

verus! {

/// The length of every digest.
pub const DIGEST_LEN: usize = 32;

/// The Keccak-256 digest of `data`.
pub uninterp spec fn keccak256(data: Seq<u8>) -> Seq<u8>;

/// The BLAKE2b digest of `data` in `out_len` bytes under `key`.
pub uninterp spec fn blake2b(data: Seq<u8>, out_len: usize, key: Seq<u8>) -> Seq<u8>;

/// The uncompressed public key, 65 bytes, of a secp256k1 secret key.
pub uninterp spec fn secp256k1_public_key(secret: Seq<u8>) -> Seq<u8>;

/// The recoverable signature, 64 bytes and the recovery byte, that a
/// secp256k1 secret key makes of a digest.
pub uninterp spec fn secp256k1_signature(secret: Seq<u8>, digest: Seq<u8>) -> Seq<u8>;

/// The uncompressed public key that a recoverable signature and a digest
/// lead back to, if they lead to one.
pub uninterp spec fn secp256k1_recovered(signature: Seq<u8>, digest: Seq<u8>) -> Option<Seq<u8>>;

/// The 64-byte Ed25519 secret key that a 32-byte seed expands to.
pub uninterp spec fn ed25519_secret(seed: Seq<u8>) -> Seq<u8>;

/// The detached signature, 64 bytes, that an Ed25519 secret key makes of a
/// message.
pub uninterp spec fn ed25519_signature(secret: Seq<u8>, message: Seq<u8>) -> Seq<u8>;

/// Whether a detached Ed25519 signature of a message holds under a public
/// key.
pub uninterp spec fn ed25519_verifies(signature: Seq<u8>, message: Seq<u8>, public: Seq<u8>) -> bool;

/// The order of the secp256k1 group, most significant byte first.
pub open spec fn secp256k1_order() -> Seq<u8> {
    seq![
        0xffu8, 0xff, 0xff, 0xff, 0xff, 0xff, 0xff, 0xff,
        0xff, 0xff, 0xff, 0xff, 0xff, 0xff, 0xff, 0xfe,
        0xba, 0xae, 0xdc, 0xe6, 0xaf, 0x48, 0xa0, 0x3b,
        0xbf, 0xd2, 0x5e, 0x8c, 0xd0, 0x36, 0x41, 0x41,
    ]
}

/// A secp256k1 secret key is 32 bytes that spell a number above zero and
/// below the order of the group.
pub open spec fn secp256k1_scalar_ok(secret: Seq<u8>) -> bool {
    &&& secret.len() == 32
    &&& 0 < be_value(secret) < be_value(secp256k1_order())
}

/// `secp256k1::Error`, carried from the calls below to where it is mapped.
#[verifier::external_type_specification]
#[verifier::external_body]
pub struct ExSecpError(secp256k1::Error);

/// `sha3::Keccak256::digest`: the 32-byte Keccak-256 digest of the input.
#[verifier::external_body]
fn keccak256_digest(data: &[u8]) -> (out: Vec<u8>)
    ensures
        out@ == keccak256(data@),
        out@.len() == 32,
{
    <sha3::Keccak256 as sha3::Digest>::digest(data).to_vec()
}

/// The digest lengths and key lengths that BLAKE2b takes: 16 to 64 bytes.
pub open spec fn blake2b_accepts(out_len: usize, key_len: nat) -> bool {
    16 <= out_len <= 64 && 16 <= key_len <= 64
}

/// `sodiumoxide::crypto::generichash::hash` with a length and a key: the
/// BLAKE2b digest of that length under that key. It refuses a length or a
/// key length outside 16 to 64, and nothing within.
#[verifier::external_body]
fn blake2b_digest(data: &[u8], out_len: usize, key: &[u8]) -> (out: Option<Vec<u8>>)
    ensures
        out is Some <==> blake2b_accepts(out_len, key@.len()),
        out is Some ==> out->0@ == blake2b(data@, out_len, key@) && out->0@.len() == out_len,
{
    sodiumoxide::crypto::generichash::hash(data, Some(out_len), Some(key)).ok().map(
        |digest| digest.as_ref().to_vec(),
    )
}

/// `secp256k1::SecretKey::from_secret_bytes`, then
/// `PublicKey::from_secret_key` and `serialize_uncompressed`: the secret is
/// accepted where it spells a number above zero and below the group order,
/// and the result is then its public key in 65 bytes.
#[verifier::external_body]
fn secp256k1_public(secret: &[u8]) -> (out: Result<Vec<u8>, secp256k1::Error>)
    requires
        secret@.len() == 32,
    ensures
        out is Ok <==> secp256k1_scalar_ok(secret@),
        out is Ok ==> out->Ok_0@ == secp256k1_public_key(secret@) && out->Ok_0@.len() == 65,
{
    let bytes: [u8; 32] = secret.try_into().map_err(|_| secp256k1::Error::InvalidSecretKey)?;
    let key = secp256k1::SecretKey::from_secret_bytes(bytes)?;
    Ok(secp256k1::PublicKey::from_secret_key(&key).serialize_uncompressed().to_vec())
}

/// `secp256k1::ecdsa::RecoverableSignature::sign_ecdsa_recoverable` and
/// `serialize_compact`: the signature of the digest under the secret key,
/// with nonces after RFC 6979, as 64 bytes followed by the recovery byte.
/// The signature is one for which `recover_ecdsa` on the same digest
/// determines the public key of the secret key.
#[verifier::external_body]
fn secp256k1_sign(secret: &[u8], digest: &[u8]) -> (out: Result<Vec<u8>, secp256k1::Error>)
    requires
        secret@.len() == 32,
        digest@.len() == 32,
    ensures
        out is Ok <==> secp256k1_scalar_ok(secret@),
        out is Ok ==> out->Ok_0@ == secp256k1_signature(secret@, digest@) && out->Ok_0@.len()
            == 65,
        out is Ok ==> secp256k1_recovered(out->Ok_0@, digest@) == Some(
            secp256k1_public_key(secret@),
        ),
{
    let bytes: [u8; 32] = secret.try_into().map_err(|_| secp256k1::Error::InvalidSecretKey)?;
    let hash: [u8; 32] = digest.try_into().map_err(|_| secp256k1::Error::InvalidMessage)?;
    let key = secp256k1::SecretKey::from_secret_bytes(bytes)?;
    let message = secp256k1::Message::from_digest(hash);
    let signed = secp256k1::ecdsa::RecoverableSignature::sign_ecdsa_recoverable(message, &key);
    let (id, compact) = signed.serialize_compact();
    let mut out = compact.to_vec();
    out.push(id.to_u8());
    Ok(out)
}

/// `secp256k1::ecdsa::RecoverableSignature::from_compact` and
/// `recover_ecdsa`: the public key, in 65 bytes, for which the signature
/// holds of the digest; an error where the recovery byte is above 3, the 64
/// bytes are no signature, or no key can be recovered.
#[verifier::external_body]
fn secp256k1_recover(signature: &[u8], digest: &[u8]) -> (out: Result<Vec<u8>, secp256k1::Error>)
    requires
        signature@.len() == 65,
        digest@.len() == 32,
    ensures
        out is Ok <==> secp256k1_recovered(signature@, digest@) is Some,
        out is Ok ==> out->Ok_0@ == secp256k1_recovered(signature@, digest@)->0 && out->Ok_0@.len()
            == 65,
{
    let hash: [u8; 32] = digest.try_into().map_err(|_| secp256k1::Error::InvalidMessage)?;
    let id = secp256k1::ecdsa::RecoveryId::try_from(i32::from(signature[64]))?;
    let signed = secp256k1::ecdsa::RecoverableSignature::from_compact(&signature[..64], id)?;
    let key = signed.recover_ecdsa(secp256k1::Message::from_digest(hash))?;
    Ok(key.serialize_uncompressed().to_vec())
}

/// `sodiumoxide::crypto::sign::ed25519::keypair_from_seed`: the 64-byte
/// secret key that the seed expands to, which begins with the seed itself.
#[verifier::external_body]
fn ed25519_expand(seed: &[u8]) -> (out: Option<Vec<u8>>)
    ensures
        out is Some <==> seed@.len() == 32,
        out is Some ==> out->0@ == ed25519_secret(seed@) && out->0@.len() == 64
            && out->0@.subrange(0, 32) == seed@,
{
    sodiumoxide::crypto::sign::ed25519::Seed::from_slice(seed).map(
        |seed| sodiumoxide::crypto::sign::ed25519::keypair_from_seed(&seed).1.as_ref().to_vec(),
    )
}

/// `sodiumoxide::crypto::sign::ed25519::sign_detached`: the 64-byte
/// signature of the message under the secret key. Under a secret key that
/// a seed expands to, it is a signature that `verify_detached` accepts for
/// the same message and the public key in the second half of the secret
/// key.
#[verifier::external_body]
fn ed25519_sign(secret: &[u8], message: &[u8]) -> (out: Option<Vec<u8>>)
    ensures
        out is Some <==> secret@.len() == 64,
        out is Some ==> out->0@ == ed25519_signature(secret@, message@) && out->0@.len() == 64,
        out is Some && ed25519_secret(secret@.subrange(0, 32)) == secret@ ==> ed25519_verifies(
            out->0@,
            message@,
            secret@.subrange(32, 64),
        ),
{
    sodiumoxide::crypto::sign::ed25519::SecretKey::from_slice(secret).map(
        |key| sodiumoxide::crypto::sign::ed25519::sign_detached(message, &key).to_bytes().to_vec(),
    )
}

/// `sodiumoxide::crypto::sign::ed25519::verify_detached`: whether the
/// signature of the message holds under the public key. Bytes that
/// `Signature::from_bytes` or `PublicKey::from_slice` refuses hold under no
/// key.
#[verifier::external_body]
fn ed25519_verify(signature: &[u8], message: &[u8], public: &[u8]) -> (ok: bool)
    ensures
        ok == ed25519_verifies(signature@, message@, public@),
{
    match (
        sodiumoxide::crypto::sign::ed25519::Signature::from_bytes(signature),
        sodiumoxide::crypto::sign::ed25519::PublicKey::from_slice(public),
    ) {
        (Ok(signed), Some(key)) => sodiumoxide::crypto::sign::ed25519::verify_detached(
            &signed,
            message,
            &key,
        ),
        _ => false,
    }
}

/// The key under which the second family takes its digests.
pub open spec fn blake2b_key() -> Seq<u8> {
    seq![67u8, 114, 121, 112, 116, 97, 112, 101, 67, 114, 121, 112, 116, 97, 112, 101]
}

/// The content digest of a family.
pub open spec fn digest_of(crypto: Crypto, data: Seq<u8>) -> Seq<u8> {
    match crypto {
        Crypto::Secp256k1 => keccak256(data),
        Crypto::Ed25519 => blake2b(data, 32, blake2b_key()),
    }
}

/// The address that a family derives from a public key: the last twenty
/// bytes of the key's digest.
pub open spec fn address_of(crypto: Crypto, public: Seq<u8>) -> Seq<u8> {
    digest_of(crypto, public).subrange(12, 32)
}

/// The content digest of `data` under a family: 32 bytes.
pub fn digest(crypto: Crypto, data: &[u8]) -> (out: Vec<u8>)
    ensures
        out@ == digest_of(crypto, data@),
        out@.len() == 32,
{
    match crypto {
        Crypto::Secp256k1 => keccak256_digest(data),
        Crypto::Ed25519 => {
            let key: [u8; 16] = [
                67, 114, 121, 112, 116, 97, 112, 101, 67, 114, 121, 112, 116, 97, 112, 101,
            ];
            assert(key@ =~= blake2b_key());
            match blake2b_digest(data, DIGEST_LEN, key.as_slice()) {
                Some(out) => out,
                // Not taken: a digest of 32 bytes under a key of 16 is accepted.
                None => Vec::new(),
            }
        },
    }
}

/// The address that a family derives from a public key.
pub fn derive_address(crypto: Crypto, public: &[u8]) -> (address: Address)
    ensures
        address@ == address_of(crypto, public@),
{
    let hash = digest(crypto, public);
    match Address::from_slice(slice_subrange(hash.as_slice(), 12, 32)) {
        Some(address) => address,
        // Not taken: the last twenty of 32 bytes are twenty bytes.
        None => Address { bytes: [0u8; 20] },
    }
}

/// `rand::fill` on a fresh buffer: `len` bytes from the thread's generator.
#[verifier::external_body]
fn random_bytes(len: usize) -> (out: Vec<u8>)
    ensures
        out@.len() == len,
{
    let mut out = vec![0u8; len];
    rand::fill(&mut out[..]);
    out
}

/// The length of a family's private keys.
pub open spec fn private_key_len(crypto: Crypto) -> nat {
    match crypto {
        Crypto::Secp256k1 => 32,
        Crypto::Ed25519 => 64,
    }
}

/// Whether bytes of the right length are a private key of a family: for
/// the first a number above zero and below the group order, for the second
/// a seed followed by what the seed expands to.
pub open spec fn private_key_ok(crypto: Crypto, private: Seq<u8>) -> bool {
    match crypto {
        Crypto::Secp256k1 => secp256k1_scalar_ok(private),
        Crypto::Ed25519 => private.len() == 64 && ed25519_secret(private.subrange(0, 32))
            == private,
    }
}

/// The public key of a private key: for the first family the two
/// coordinates, 64 bytes; for the second the last 32 bytes of the private
/// key.
pub open spec fn public_key_of(crypto: Crypto, private: Seq<u8>) -> Seq<u8> {
    match crypto {
        Crypto::Secp256k1 => secp256k1_public_key(private).subrange(1, 65),
        Crypto::Ed25519 => private.subrange(32, 64),
    }
}

/// The private key that a 32-byte seed stands for.
pub open spec fn private_key_of_seed(crypto: Crypto, seed: Seq<u8>) -> Seq<u8> {
    match crypto {
        Crypto::Secp256k1 => seed,
        Crypto::Ed25519 => ed25519_secret(seed),
    }
}

/// The signature that a private key makes of a digest. The second family
/// appends the public key to its signatures.
pub open spec fn signature_of(crypto: Crypto, private: Seq<u8>, digest: Seq<u8>) -> Seq<u8> {
    match crypto {
        Crypto::Secp256k1 => secp256k1_signature(private, digest),
        Crypto::Ed25519 => ed25519_signature(private, digest) + public_key_of(crypto, private),
    }
}

/// The public key of the signer of a digest: recovered from the signature
/// in the first family; in the second, read off the signature where the
/// signature holds under it.
pub open spec fn signer_of(signature: SignatureView, digest: Seq<u8>) -> Option<Seq<u8>> {
    match signature.crypto {
        Crypto::Secp256k1 => match secp256k1_recovered(signature.bytes, digest) {
            Some(key) => Some(key.subrange(1, 65)),
            None => None,
        },
        Crypto::Ed25519 => if ed25519_verifies(
            signature.bytes.subrange(0, 64),
            digest,
            signature.bytes.subrange(64, 96),
        ) {
            Some(signature.bytes.subrange(64, 96))
        } else {
            None
        },
    }
}

/// A key pair as plain values.
pub struct KeyPairView {
    pub crypto: Crypto,
    pub private: Seq<u8>,
    pub public: Seq<u8>,
    pub address: Seq<u8>,
}

/// The key pair of a private key.
pub open spec fn key_pair_of(crypto: Crypto, private: Seq<u8>) -> KeyPairView {
    KeyPairView {
        crypto,
        private,
        public: public_key_of(crypto, private),
        address: address_of(crypto, public_key_of(crypto, private)),
    }
}

/// The key material of one signer under one family.
pub struct KeyPair {
    crypto: Crypto,
    private: Vec<u8>,
    public: Vec<u8>,
    address: Address,
}

impl View for KeyPair {
    type V = KeyPairView;

    closed spec fn view(&self) -> KeyPairView {
        KeyPairView {
            crypto: self.crypto,
            private: self.private@,
            public: self.public@,
            address: self.address@,
        }
    }
}

impl KeyPair {
    #[verifier::type_invariant]
    spec fn valid(self) -> bool {
        &&& private_key_ok(self.crypto, self.private@)
        &&& self@ == key_pair_of(self.crypto, self.private@)
    }

    /// The key pair of a raw private key: 32 bytes for the first family, 64
    /// for the second.
    pub fn from_private_key(crypto: Crypto, bytes: &[u8]) -> (r: Result<KeyPair, ToolError>)
        ensures
            r is Ok <==> bytes@.len() == private_key_len(crypto) && private_key_ok(crypto, bytes@),
            r is Err ==> r->Err_0 == if bytes@.len() != private_key_len(crypto) {
                ToolError::InvalidKeyLength {
                    expected: private_key_len(crypto) as usize,
                    found: bytes@.len() as usize,
                }
            } else {
                ToolError::InvalidKeyMaterial
            },
            r is Ok ==> r->Ok_0@ == key_pair_of(crypto, bytes@),
    {
        match crypto {
            Crypto::Secp256k1 => {
                if bytes.len() != 32 {
                    return Err(ToolError::InvalidKeyLength { expected: 32, found: bytes.len() });
                }
                match secp256k1_public(bytes) {
                    Ok(point) => {
                        let public = copy_range(point.as_slice(), 1, 65);
                        let address = derive_address(crypto, public.as_slice());
                        let private = copy_range(bytes, 0, 32);
                        assert(private@ =~= bytes@);
                        Ok(KeyPair { crypto, private, public, address })
                    },
                    Err(_) => Err(ToolError::InvalidKeyMaterial),
                }
            },
            Crypto::Ed25519 => {
                if bytes.len() != 64 {
                    return Err(ToolError::InvalidKeyLength { expected: 64, found: bytes.len() });
                }
                let expanded = match ed25519_expand(slice_subrange(bytes, 0, 32)) {
                    Some(expanded) => expanded,
                    None => { return Err(ToolError::InvalidKeyMaterial); },
                };
                if !same_bytes(expanded.as_slice(), bytes) {
                    return Err(ToolError::InvalidKeyMaterial);
                }
                let public = copy_range(bytes, 32, 64);
                let address = derive_address(crypto, public.as_slice());
                let private = copy_range(bytes, 0, 64);
                assert(private@ =~= bytes@);
                Ok(KeyPair { crypto, private, public, address })
            },
        }
    }

    /// The key pair that a 32-byte seed stands for: in the first family the
    /// seed is the private key, in the second it is expanded to one.
    pub fn from_seed(crypto: Crypto, seed: &[u8]) -> (r: Result<KeyPair, ToolError>)
        ensures
            r is Ok <==> seed@.len() == 32 && private_key_ok(
                crypto,
                private_key_of_seed(crypto, seed@),
            ),
            r is Err ==> r->Err_0 == if seed@.len() != 32 {
                ToolError::InvalidKeyLength { expected: 32, found: seed@.len() as usize }
            } else {
                ToolError::InvalidKeyMaterial
            },
            r is Ok ==> r->Ok_0@ == key_pair_of(crypto, private_key_of_seed(crypto, seed@)),
            crypto == Crypto::Ed25519 && seed@.len() == 32 ==> r is Ok,
    {
        if seed.len() != 32 {
            return Err(ToolError::InvalidKeyLength { expected: 32, found: seed.len() });
        }
        match crypto {
            Crypto::Secp256k1 => KeyPair::from_private_key(crypto, seed),
            Crypto::Ed25519 => match ed25519_expand(seed) {
                Some(private) => {
                    assert(private@.subrange(0, 32) == seed@);
                    KeyPair::from_private_key(crypto, private.as_slice())
                },
                None => Err(ToolError::InvalidKeyMaterial),
            },
        }
    }

    /// A fresh key pair from the thread's random generator. The draw can
    /// miss the valid keys of the first family, though hardly ever does.
    pub fn generate(crypto: Crypto) -> (r: Result<KeyPair, ToolError>)
        ensures
            r is Err ==> r->Err_0 == ToolError::InvalidKeyMaterial,
            crypto == Crypto::Ed25519 ==> r is Ok,
            r is Ok ==> r->Ok_0@.crypto == crypto,
            r is Ok ==> exists|seed: Seq<u8>|
                seed.len() == 32 && private_key_ok(
                    crypto,
                    #[trigger] private_key_of_seed(crypto, seed),
                ) && r->Ok_0@ == key_pair_of(crypto, private_key_of_seed(crypto, seed)),
    {
        let seed = random_bytes(32);
        let r = KeyPair::from_seed(crypto, seed.as_slice());
        proof {
            if r is Ok {
                assert(private_key_ok(crypto, private_key_of_seed(crypto, seed@)));
            }
        }
        r
    }

    /// A second key pair from the same private key: it has the same public
    /// key and the same address.
    pub fn duplicate(&self) -> (copy: KeyPair)
        ensures
            copy@ == self@,
    {
        proof {
            use_type_invariant(self);
        }
        match KeyPair::from_private_key(self.crypto, self.private.as_slice()) {
            Ok(copy) => copy,
            // Not taken: the private key of a key pair is a valid one.
            Err(_) => KeyPair {
                crypto: self.crypto,
                private: copy_range(self.private.as_slice(), 0, self.private.len()),
                public: copy_range(self.public.as_slice(), 0, self.public.len()),
                address: self.address,
            },
        }
    }

    /// The family of the key pair.
    pub fn crypto(&self) -> (crypto: Crypto)
        ensures
            crypto == self@.crypto,
    {
        self.crypto
    }

    /// The private key.
    pub fn private_key(&self) -> (private: &[u8])
        ensures
            private@ == self@.private,
            private_key_ok(self@.crypto, private@),
    {
        proof {
            use_type_invariant(self);
        }
        self.private.as_slice()
    }

    /// The public key.
    pub fn public_key(&self) -> (public: &[u8])
        ensures
            public@ == self@.public,
            public@ == public_key_of(self@.crypto, self@.private),
    {
        proof {
            use_type_invariant(self);
        }
        self.public.as_slice()
    }

    /// The address derived from the public key.
    pub fn address(&self) -> (address: Address)
        ensures
            address@ == self@.address,
            address@ == address_of(self@.crypto, self@.public),
    {
        proof {
            use_type_invariant(self);
        }
        self.address
    }

    /// Sign a digest.
    pub fn sign(&self, digest: &[u8]) -> (signature: Signature)
        requires
            digest@.len() == 32,
        ensures
            signature@.crypto == self@.crypto,
            signature@.bytes == signature_of(self@.crypto, self@.private, digest@),
            signature@.wf(),
            signer_of(signature@, digest@) == Some(self@.public),
    {
        proof {
            use_type_invariant(self);
        }
        match self.crypto {
            Crypto::Secp256k1 => match secp256k1_sign(self.private.as_slice(), digest) {
                Ok(bytes) => Signature { crypto: self.crypto, bytes },
                // Not taken: the private key of a key pair is a valid one.
                Err(_) => Signature { crypto: self.crypto, bytes: Vec::new() },
            },
            Crypto::Ed25519 => match ed25519_sign(self.private.as_slice(), digest) {
                Some(detached) => {
                    let mut bytes = detached;
                    put_bytes(&mut bytes, self.public.as_slice());
                    proof {
                        assert(bytes@.subrange(0, 64) =~= detached@);
                        assert(bytes@.subrange(64, 96) =~= self.public@);
                    }
                    Signature { crypto: self.crypto, bytes }
                },
                // Not taken: the private key of a key pair has 64 bytes.
                None => Signature { crypto: self.crypto, bytes: Vec::new() },
            },
        }
    }
}

/// Whether two slices hold the same bytes.
pub fn same_bytes(a: &[u8], b: &[u8]) -> (same: bool)
    ensures
        same == (a@ == b@),
{
    if a.len() != b.len() {
        return false;
    }
    let mut i: usize = 0;
    while i < a.len()
        invariant
            a@.len() == b@.len(),
            i <= a@.len(),
            a@.subrange(0, i as int) == b@.subrange(0, i as int),
        decreases a@.len() - i,
    {
        if a[i] != b[i] {
            return false;
        }
        i += 1;
        proof {
            assert(a@.subrange(0, i as int) =~= a@.subrange(0, i - 1).push(a@[i - 1]));
            assert(b@.subrange(0, i as int) =~= b@.subrange(0, i - 1).push(b@[i - 1]));
        }
    }
    proof {
        assert(a@ =~= a@.subrange(0, i as int));
        assert(b@ =~= b@.subrange(0, i as int));
    }
    true
}

/// The public key of the signer of a digest, where the signature belongs
/// to the digest.
pub fn recover_or_verify(signature: &Signature, digest: &[u8]) -> (r: Result<Vec<u8>, ToolError>)
    ensures
        r is Ok <==> signature@.wf() && digest@.len() == 32 && signer_of(signature@, digest@)
            is Some,
        r is Ok ==> r->Ok_0@ == signer_of(signature@, digest@)->0,
        r is Err ==> r->Err_0 == ToolError::InvalidSignature,
{
    if digest.len() != 32 || signature.bytes.len() != signature.crypto.signature_len() {
        return Err(ToolError::InvalidSignature);
    }
    match signature.crypto {
        Crypto::Secp256k1 => match secp256k1_recover(signature.bytes.as_slice(), digest) {
            Ok(point) => Ok(copy_range(point.as_slice(), 1, 65)),
            Err(_) => Err(ToolError::InvalidSignature),
        },
        Crypto::Ed25519 => {
            let detached = slice_subrange(signature.bytes.as_slice(), 0, 64);
            let public = slice_subrange(signature.bytes.as_slice(), 64, 96);
            if ed25519_verify(detached, digest, public) {
                Ok(copy_range(signature.bytes.as_slice(), 64, 96))
            } else {
                Err(ToolError::InvalidSignature)
            }
        },
    }
}

/// The address of a key pair is that of its public key, and both depend
/// on the private key alone: the same private key gives the same address,
/// however often and wherever it is derived.
pub proof fn lemma_address_is_stable(crypto: Crypto, private: Seq<u8>, again: Seq<u8>)
    requires
        private == again,
    ensures
        key_pair_of(crypto, private).address == address_of(
            crypto,
            key_pair_of(crypto, private).public,
        ),
        key_pair_of(crypto, again) == key_pair_of(crypto, private),
{
}

/// The signature that a key pair makes of a digest leads back to the key
/// pair: the signer found from it is the key pair's public key, and the
/// address derived from that signer is the key pair's address.
pub proof fn lemma_signature_leads_back(
    pair: KeyPairView,
    signature: SignatureView,
    digest: Seq<u8>,
)
    requires
        pair == key_pair_of(pair.crypto, pair.private),
        signature.crypto == pair.crypto,
        signer_of(signature, digest) == Some(pair.public),
    ensures
        address_of(signature.crypto, signer_of(signature, digest)->0) == pair.address,
{
}

} // verus!
