use cita_tool::crypto::{derive_address, digest, recover_or_verify, KeyPair};
use cita_tool::envelope::{Crypto, Signature};
use cita_tool::error::ToolError;
use cita_tool::text::{from_hex, to_hex};

fn secret_one() -> Vec<u8> {
    let mut secret = vec![0u8; 32];
    secret[31] = 1;
    secret
}

#[test]
fn keccak_of_nothing_and_of_abc() {
    assert_eq!(
        to_hex(&digest(Crypto::Secp256k1, b"")),
        "c5d2460186f7233c927e7db2dcc703c0e500b653ca82273b7bfad8045d85a470"
    );
    assert_eq!(
        to_hex(&digest(Crypto::Secp256k1, b"abc")),
        "4e03657aea45a94fc7d47ba826c8d667c0d1e6e33a64a036ec44f58fa12d6c45"
    );
}

#[test]
fn blake2b_digest_has_32_bytes_and_depends_on_the_input() {
    let a = digest(Crypto::Ed25519, b"");
    let b = digest(Crypto::Ed25519, b"abc");
    assert_eq!(a.len(), 32);
    assert_eq!(b.len(), 32);
    assert_ne!(a, b);
    assert_ne!(b, b"abc".to_vec());
    assert_eq!(b, digest(Crypto::Ed25519, b"abc"));
    assert_ne!(b, digest(Crypto::Secp256k1, b"abc"));
}

#[test]
fn secp256k1_key_pair_of_the_number_one() {
    let pair = KeyPair::from_private_key(Crypto::Secp256k1, &secret_one()).unwrap();
    assert_eq!(pair.crypto(), Crypto::Secp256k1);
    assert_eq!(pair.private_key(), &secret_one()[..]);
    assert_eq!(
        to_hex(pair.public_key()),
        "79be667ef9dcbbac55a06295ce870b07029bfcdb2dce28d959f2815b16f81798\
         483ada7726a3c4655da4fbfc0e1108a8fd17b448a68554199c47d08ffb10d4b8"
    );
    assert_eq!(pair.address().to_text(), "0x7e5f4552091a69125d5dfcb7b8c2659029395bdf");
    assert_eq!(derive_address(Crypto::Secp256k1, pair.public_key()), pair.address());
}

#[test]
fn private_key_of_the_wrong_length_is_refused() {
    assert_eq!(
        KeyPair::from_private_key(Crypto::Secp256k1, &[1u8; 31]).err(),
        Some(ToolError::InvalidKeyLength { expected: 32, found: 31 })
    );
    assert_eq!(
        KeyPair::from_private_key(Crypto::Secp256k1, &[1u8; 64]).err(),
        Some(ToolError::InvalidKeyLength { expected: 32, found: 64 })
    );
    assert_eq!(
        KeyPair::from_private_key(Crypto::Secp256k1, &[]).err(),
        Some(ToolError::InvalidKeyLength { expected: 32, found: 0 })
    );
    assert_eq!(
        KeyPair::from_private_key(Crypto::Ed25519, &[1u8; 32]).err(),
        Some(ToolError::InvalidKeyLength { expected: 64, found: 32 })
    );
    assert_eq!(
        KeyPair::from_seed(Crypto::Ed25519, &[1u8; 31]).err(),
        Some(ToolError::InvalidKeyLength { expected: 32, found: 31 })
    );
}

#[test]
fn secp256k1_scalars_outside_the_group_are_refused() {
    assert_eq!(
        KeyPair::from_private_key(Crypto::Secp256k1, &[0u8; 32]).err(),
        Some(ToolError::InvalidKeyMaterial)
    );
    assert_eq!(
        KeyPair::from_private_key(Crypto::Secp256k1, &[0xffu8; 32]).err(),
        Some(ToolError::InvalidKeyMaterial)
    );
    let order =
        from_hex("fffffffffffffffffffffffffffffffebaaedce6af48a03bbfd25e8cd0364141").unwrap();
    assert_eq!(
        KeyPair::from_private_key(Crypto::Secp256k1, &order).err(),
        Some(ToolError::InvalidKeyMaterial)
    );
    let below =
        from_hex("fffffffffffffffffffffffffffffffebaaedce6af48a03bbfd25e8cd0364140").unwrap();
    assert!(KeyPair::from_private_key(Crypto::Secp256k1, &below).is_ok());
}

#[test]
fn ed25519_key_pair_from_seed_and_back() {
    let pair = KeyPair::from_seed(Crypto::Ed25519, &[9u8; 32]).unwrap();
    assert_eq!(pair.private_key().len(), 64);
    assert_eq!(&pair.private_key()[..32], &[9u8; 32][..]);
    assert_eq!(pair.public_key(), &pair.private_key()[32..]);
    let again = KeyPair::from_private_key(Crypto::Ed25519, pair.private_key()).unwrap();
    assert_eq!(again.public_key(), pair.public_key());
    assert_eq!(again.address(), pair.address());
    assert_eq!(derive_address(Crypto::Ed25519, pair.public_key()), pair.address());
}

#[test]
fn ed25519_private_key_with_a_foreign_public_half_is_refused() {
    let pair = KeyPair::from_seed(Crypto::Ed25519, &[9u8; 32]).unwrap();
    let mut bytes = pair.private_key().to_vec();
    bytes[40] ^= 1;
    assert_eq!(
        KeyPair::from_private_key(Crypto::Ed25519, &bytes).err(),
        Some(ToolError::InvalidKeyMaterial)
    );
}

#[test]
fn address_is_stable_across_calls_and_reconstruction() {
    for crypto in [Crypto::Secp256k1, Crypto::Ed25519] {
        let pair = KeyPair::generate(crypto).unwrap();
        let first = derive_address(crypto, pair.public_key());
        let second = derive_address(crypto, pair.public_key());
        assert_eq!(first, second);
        assert_eq!(first, pair.address());
        let rebuilt = KeyPair::from_private_key(crypto, pair.private_key()).unwrap();
        assert_eq!(rebuilt.public_key(), pair.public_key());
        assert_eq!(rebuilt.address(), pair.address());
    }
}

#[test]
fn generated_key_pairs_differ() {
    for crypto in [Crypto::Secp256k1, Crypto::Ed25519] {
        let a = KeyPair::generate(crypto).unwrap();
        let b = KeyPair::generate(crypto).unwrap();
        assert_ne!(a.private_key(), b.private_key());
        assert_ne!(a.address(), b.address());
    }
}

#[test]
fn signature_leads_back_to_the_signer() {
    for crypto in [Crypto::Secp256k1, Crypto::Ed25519] {
        let pair = KeyPair::generate(crypto).unwrap();
        let hash = digest(crypto, b"a transaction");
        let signature = pair.sign(&hash);
        assert_eq!(signature.crypto, crypto);
        let signer = recover_or_verify(&signature, &hash).unwrap();
        assert_eq!(&signer[..], pair.public_key());
        assert_eq!(derive_address(crypto, &signer), pair.address());
    }
}

#[test]
fn signature_lengths_follow_the_family() {
    let hash = digest(Crypto::Secp256k1, b"x");
    let a = KeyPair::from_private_key(Crypto::Secp256k1, &secret_one()).unwrap().sign(&hash);
    assert_eq!(a.bytes.len(), 65);
    assert!(a.bytes[64] <= 3);
    let b = KeyPair::from_seed(Crypto::Ed25519, &[3u8; 32]).unwrap();
    let signed = b.sign(&hash);
    assert_eq!(signed.bytes.len(), 96);
    assert_eq!(&signed.bytes[64..], b.public_key());
}

#[test]
fn signing_is_repeatable() {
    for crypto in [Crypto::Secp256k1, Crypto::Ed25519] {
        let pair = KeyPair::from_seed(crypto, &[5u8; 32]).unwrap();
        let hash = digest(crypto, b"same input");
        assert_eq!(pair.sign(&hash), pair.sign(&hash));
        assert_ne!(pair.sign(&hash), pair.sign(&digest(crypto, b"other input")));
    }
}

#[test]
fn signature_does_not_hold_for_another_digest() {
    for crypto in [Crypto::Secp256k1, Crypto::Ed25519] {
        let pair = KeyPair::from_seed(crypto, &[5u8; 32]).unwrap();
        let hash = digest(crypto, b"signed");
        let other = digest(crypto, b"not signed");
        let signature = pair.sign(&hash);
        match recover_or_verify(&signature, &other) {
            Ok(signer) => assert_ne!(&signer[..], pair.public_key()),
            Err(e) => assert_eq!(e, ToolError::InvalidSignature),
        }
    }
}

#[test]
fn malformed_signatures_are_refused() {
    let hash = digest(Crypto::Secp256k1, b"signed");
    let short = Signature { crypto: Crypto::Secp256k1, bytes: vec![1u8; 64] };
    assert_eq!(recover_or_verify(&short, &hash), Err(ToolError::InvalidSignature));
    let mut bad_id = vec![1u8; 65];
    bad_id[64] = 4;
    let bad_id = Signature { crypto: Crypto::Secp256k1, bytes: bad_id };
    assert_eq!(recover_or_verify(&bad_id, &hash), Err(ToolError::InvalidSignature));
    let zeros = Signature { crypto: Crypto::Secp256k1, bytes: vec![0u8; 65] };
    assert_eq!(recover_or_verify(&zeros, &hash), Err(ToolError::InvalidSignature));
    let wrong_family = Signature { crypto: Crypto::Ed25519, bytes: vec![1u8; 65] };
    assert_eq!(recover_or_verify(&wrong_family, &hash), Err(ToolError::InvalidSignature));
    let ones = Signature { crypto: Crypto::Ed25519, bytes: vec![0xffu8; 96] };
    assert_eq!(recover_or_verify(&ones, &hash), Err(ToolError::InvalidSignature));
    let pair = KeyPair::from_seed(Crypto::Ed25519, &[5u8; 32]).unwrap();
    let good = pair.sign(&hash);
    assert_eq!(recover_or_verify(&good, &hash[..31]), Err(ToolError::InvalidSignature));
}
