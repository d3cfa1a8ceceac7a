use cita_tool::abi::{Kind, Value};
use ethabi::token::{LenientTokenizer, Tokenizer};
use cita_tool::abi_text::{encode, parse_argument};
use cita_tool::address::Address;
use cita_tool::builder::{
    build_and_sign, build_unsigned, fresh_nonce, height_source, sign_transaction, HeightSource,
    Payload, SignedTransaction, VALID_WINDOW,
};
use cita_tool::client::transaction_option::TransactionOption;
use cita_tool::crypto::{derive_address, digest, recover_or_verify, KeyPair};
use cita_tool::envelope::{Crypto, UnverifiedTransaction};
use cita_tool::error::ToolError;
use cita_tool::text::{from_hex, to_hex};
use cita_tool::transaction::Transaction;

const TARGET: &str = "0x00000000000000000000000000000000000000aa";

fn families() -> [Crypto; 2] {
    [Crypto::Secp256k1, Crypto::Ed25519]
}

fn pair(crypto: Crypto) -> KeyPair {
    KeyPair::from_seed(crypto, &[0x42; 32]).unwrap()
}

fn option<'a>() -> TransactionOption<'a> {
    TransactionOption::new()
        .set_code("0xdeadbeef")
        .set_address(TARGET)
        .set_current_height(Some(100))
        .set_quota(Some(1_000_000))
}

fn built() -> Transaction {
    build_unsigned(&option(), "n1".to_string(), None, 1, 0).unwrap()
}

#[test]
fn unsigned_transaction_from_choices() {
    let tx = built();
    assert_eq!(tx.to, Some(Address::from_text(TARGET).unwrap()));
    assert_eq!(tx.nonce, "n1");
    assert_eq!(tx.quota, 1_000_000);
    assert_eq!(tx.valid_until_block, 188);
    assert_eq!(tx.valid_until_block, 100 + VALID_WINDOW);
    assert_eq!(tx.data, vec![0xde, 0xad, 0xbe, 0xef]);
    assert_eq!(tx.value, vec![0u8; 32]);
    assert_eq!(tx.chain_id, 1);
    assert_eq!(tx.version, 0);
}

#[test]
fn empty_address_creates_a_contract() {
    for address in ["0x", "0X", ""] {
        let choice = option().set_address(address);
        let tx = build_unsigned(&choice, String::new(), None, 1, 0).unwrap();
        assert_eq!(tx.to, None);
    }
    let fresh = TransactionOption::new().set_quota(Some(5)).set_current_height(Some(0));
    let tx = build_unsigned(&fresh, String::new(), None, 7, 1).unwrap();
    assert_eq!(tx.to, None);
    assert_eq!(tx.data, Vec::<u8>::new());
    assert_eq!(tx.valid_until_block, 88);
    assert_eq!(tx.chain_id, 7);
    assert_eq!(tx.version, 1);
}

#[test]
fn value_is_a_word_with_the_amount_at_its_end() {
    let choice = option().set_value(Some("0x10"));
    let tx = build_unsigned(&choice, String::new(), None, 1, 0).unwrap();
    let mut expected = vec![0u8; 32];
    expected[31] = 0x10;
    assert_eq!(tx.value, expected);
    let choice = option().set_value(Some("0102"));
    let tx = build_unsigned(&choice, String::new(), None, 1, 0).unwrap();
    expected[30] = 1;
    expected[31] = 2;
    assert_eq!(tx.value, expected);
    let full = "ff".repeat(32);
    let choice = option().set_value(Some(&full));
    let tx = build_unsigned(&choice, String::new(), None, 1, 0).unwrap();
    assert_eq!(tx.value, vec![0xffu8; 32]);
}

#[test]
fn height_comes_from_the_choice_or_from_the_chain() {
    assert_eq!(height_source(&option()), HeightSource::Chosen(100));
    let open = option().set_current_height(None);
    assert_eq!(height_source(&open), HeightSource::AskChain);
    let tx = build_unsigned(&open, String::new(), Some(500), 1, 0).unwrap();
    assert_eq!(tx.valid_until_block, 588);
    let tx = build_unsigned(&option(), String::new(), Some(500), 1, 0).unwrap();
    assert_eq!(tx.valid_until_block, 188);
    assert_eq!(
        build_unsigned(&open, String::new(), None, 1, 0),
        Err(ToolError::MissingHeight)
    );
}

#[test]
fn choices_that_stand_for_no_transaction() {
    let build = |choice: &TransactionOption| build_unsigned(choice, String::new(), None, 1, 0);
    assert_eq!(build(&option().set_code("0xzz")), Err(ToolError::InvalidHex));
    assert_eq!(build(&option().set_code("0xabc")), Err(ToolError::InvalidHex));
    assert_eq!(build(&option().set_address("0x1234")), Err(ToolError::MalformedAddress));
    assert_eq!(build(&option().set_address("zz")), Err(ToolError::MalformedAddress));
    assert_eq!(build(&option().set_quota(None)), Err(ToolError::MissingQuota));
    assert_eq!(
        build(&option().set_current_height(Some(u64::MAX - 87))),
        Err(ToolError::HeightOutOfRange)
    );
    assert_eq!(
        build(&option().set_current_height(Some(u64::MAX - 88))).map(|t| t.valid_until_block),
        Ok(u64::MAX)
    );
    assert_eq!(build(&option().set_value(Some("0xq"))), Err(ToolError::InvalidHex));
    let long = "01".repeat(33);
    assert_eq!(build(&option().set_value(Some(&long))), Err(ToolError::InvalidHex));
    assert_eq!(
        build(&option().set_code("0xzz").set_address("zz").set_quota(None)),
        Err(ToolError::InvalidHex)
    );
    assert_eq!(
        build(&option().set_address("zz").set_quota(None)),
        Err(ToolError::MalformedAddress)
    );
}

#[test]
fn building_twice_gives_the_same_bytes() {
    let first = build_unsigned(&option(), "fixed".to_string(), None, 1, 0).unwrap();
    let second = build_unsigned(&option(), "fixed".to_string(), None, 1, 0).unwrap();
    assert_eq!(first, second);
    assert_eq!(first.serialize(), second.serialize());
    let other = build_unsigned(&option(), "other".to_string(), None, 1, 0).unwrap();
    assert_ne!(first.serialize(), other.serialize());
}

#[test]
fn fresh_nonces_are_32_digits_and_differ() {
    let a = fresh_nonce();
    let b = fresh_nonce();
    assert_eq!(a.len(), 32);
    assert!(a.chars().all(|c| c.is_ascii_hexdigit() && !c.is_ascii_uppercase()));
    assert_eq!(from_hex(&a).map(|bytes| bytes.len()), Ok(16));
    assert_ne!(a, b);
}

#[test]
fn signed_transaction_carries_the_family_and_verifies() {
    for crypto in families() {
        let keys = pair(crypto);
        let envelope = sign_transaction(built(), &keys);
        assert_eq!(envelope.transaction, built());
        assert_eq!(envelope.signature.crypto, crypto);
        let hash = digest(crypto, &built().serialize());
        assert_eq!(envelope.signature, keys.sign(&hash));
        assert_eq!(recover_or_verify(&envelope.signature, &hash).unwrap(), keys.public_key());
        let whole = envelope.serialize();
        let signed = SignedTransaction::verify(envelope).unwrap();
        assert_eq!(signed.signer, keys.public_key());
        assert_eq!(signed.sender, keys.address());
        assert_eq!(signed.sender, derive_address(crypto, keys.public_key()));
        assert_eq!(signed.tx_hash, digest(crypto, &whole));
        assert_eq!(signed.transaction_with_sig.serialize(), whole);
    }
}

#[test]
fn every_key_pair_signs_what_it_can_verify() {
    for crypto in families() {
        for _ in 0..8 {
            let keys = KeyPair::generate(crypto).unwrap();
            let mut tx = built();
            tx.nonce = fresh_nonce();
            let signed = SignedTransaction::verify(sign_transaction(tx, &keys)).unwrap();
            assert_eq!(signed.signer, keys.public_key());
            assert_eq!(signed.sender, keys.address());
        }
    }
}

#[test]
fn a_changed_byte_breaks_the_signature() {
    for crypto in families() {
        let keys = pair(crypto);
        let envelope = sign_transaction(built(), &keys);
        let bytes = built().serialize();
        let hash = digest(crypto, &bytes);
        assert_eq!(recover_or_verify(&envelope.signature, &hash).unwrap(), keys.public_key());
        for at in 0..bytes.len() {
            let mut changed = bytes.clone();
            changed[at] ^= 0x01;
            let other = digest(crypto, &changed);
            assert_ne!(other, hash);
            match recover_or_verify(&envelope.signature, &other) {
                Ok(signer) => assert_ne!(signer, keys.public_key()),
                Err(e) => assert_eq!(e, ToolError::InvalidSignature),
            }
            if let Ok(tx) = Transaction::deserialize(&changed) {
                assert_ne!(tx, built());
                let forged = UnverifiedTransaction {
                    transaction: tx,
                    signature: keys.sign(&hash),
                };
                match SignedTransaction::verify(forged) {
                    Ok(signed) => assert_ne!(signed.signer, keys.public_key()),
                    Err(e) => assert_eq!(e, ToolError::InvalidSignature),
                }
            }
        }
    }
}

#[test]
fn a_signature_of_another_family_is_refused() {
    let keys = pair(Crypto::Secp256k1);
    let mut envelope = sign_transaction(built(), &keys);
    envelope.signature.crypto = Crypto::Ed25519;
    assert_eq!(SignedTransaction::verify(envelope), Err(ToolError::InvalidSignature));
    let keys = pair(Crypto::Ed25519);
    let mut envelope = sign_transaction(built(), &keys);
    envelope.signature.crypto = Crypto::Secp256k1;
    assert_eq!(SignedTransaction::verify(envelope), Err(ToolError::InvalidSignature));
}

#[test]
fn transport_text_reads_back_as_the_envelope() {
    for crypto in families() {
        let keys = pair(crypto);
        let signed = SignedTransaction::verify(sign_transaction(built(), &keys)).unwrap();
        let text = signed.to_transport();
        assert!(text.starts_with("0x"));
        assert_eq!(text, format!("0x{}", to_hex(&signed.transaction_with_sig.serialize())));
        assert_eq!(text, signed.transaction_with_sig.to_transport());
        let back = UnverifiedTransaction::from_transport(&text).unwrap();
        assert_eq!(back, signed.transaction_with_sig);
        let upper = format!("0X{}", text[2..].to_uppercase());
        assert_eq!(UnverifiedTransaction::from_transport(&upper).unwrap(), back);
        assert_eq!(UnverifiedTransaction::from_transport(&text[2..]).unwrap(), back);
    }
    assert_eq!(UnverifiedTransaction::from_transport("0xzz"), Err(ToolError::InvalidHex));
    assert_eq!(
        UnverifiedTransaction::from_transport("0x0a00"),
        Err(ToolError::MalformedTransaction)
    );
}

fn transfer_kinds() -> Vec<Kind> {
    vec![Kind::Address, Kind::Uint(256)]
}

fn transfer_arguments() -> Vec<String> {
    vec![TARGET.to_string(), "1000".to_string()]
}

#[test]
fn call_data_begins_with_the_selector() {
    let data =
        encode("transfer(address,uint256)", transfer_kinds(), &transfer_arguments()).unwrap();
    let hash = digest(Crypto::Secp256k1, b"transfer(address,uint256)");
    assert_eq!(&data[..4], &hash[..4]);
    assert_eq!(
        to_hex(&data),
        "a9059cbb\
         00000000000000000000000000000000000000000000000000000000000000aa\
         00000000000000000000000000000000000000000000000000000000000003e8"
    );
    let tokens = [
        ethabi::Token::Address(ethabi::Address::from_slice(&Address::from_text(TARGET).unwrap().bytes)),
        ethabi::Token::Uint(ethabi::Uint::from(1000u64)),
    ];
    let mut expected = ethabi::short_signature(
        "transfer",
        &[ethabi::ParamType::Address, ethabi::ParamType::Uint(256)],
    )
    .to_vec();
    expected.extend_from_slice(&ethabi::encode(&tokens));
    assert_eq!(data, expected);
    assert_eq!(to_hex(&encode("f()", vec![], &vec![]).unwrap()), to_hex(&digest(Crypto::Secp256k1, b"f()")[..4]));
}

#[test]
fn too_few_argument_strings_are_an_arity_error() {
    assert_eq!(
        encode("transfer(address,uint256)", transfer_kinds(), &vec![TARGET.to_string()]),
        Err(ToolError::ArityError { expected: 2, found: 1 })
    );
    assert_eq!(
        encode("transfer(address,uint256)", transfer_kinds(), &vec![]),
        Err(ToolError::ArityError { expected: 2, found: 0 })
    );
    let mut many = transfer_arguments();
    many.push("0x01".to_string());
    assert_eq!(
        encode("transfer(address,uint256)", transfer_kinds(), &many),
        Err(ToolError::ArityError { expected: 2, found: 3 })
    );
}

#[test]
fn an_argument_that_does_not_read_as_its_kind_is_a_type_mismatch() {
    assert_eq!(
        encode(
            "transfer(address,uint256)",
            transfer_kinds(),
            &vec![TARGET.to_string(), "one thousand".to_string()]
        ),
        Err(ToolError::TypeMismatch { index: 1, declared: Kind::Uint(256) })
    );
    assert_eq!(
        encode(
            "transfer(address,uint256)",
            transfer_kinds(),
            &vec!["0x1234".to_string(), "one thousand".to_string()]
        ),
        Err(ToolError::TypeMismatch { index: 0, declared: Kind::Address })
    );
    assert_eq!(
        encode("f(uint8)", vec![Kind::Uint(8)], &vec!["256".to_string()]),
        Err(ToolError::TypeMismatch { index: 0, declared: Kind::Uint(8) })
    );
    assert_eq!(
        encode("f(uint256[])", vec![Kind::Array(Box::new(Kind::Uint(256)))], &vec!["[1,x]".to_string()]),
        Err(ToolError::TypeMismatch { index: 0, declared: Kind::Array(Box::new(Kind::Uint(256))) })
    );
    assert_eq!(
        encode("f(uint7)", vec![Kind::Uint(7)], &vec![]),
        Err(ToolError::UnknownType { index: 0 })
    );
}

fn word(n: u64) -> [u8; 32] {
    let mut w = [0u8; 32];
    w[24..].copy_from_slice(&n.to_be_bytes());
    w
}

fn minus(n: u64) -> [u8; 32] {
    let mut w = [0xffu8; 32];
    w[24..].copy_from_slice(&(n as i64).wrapping_neg().to_be_bytes());
    w
}

#[test]
fn unsigned_numbers_as_text() {
    let u = Kind::Uint(256);
    assert_eq!(parse_argument(&u, "42"), Some(Value::Uint(word(42))));
    assert_eq!(parse_argument(&u, "0042"), Some(Value::Uint(word(42))));
    assert_eq!(parse_argument(&u, "0"), Some(Value::Uint(word(0))));
    assert_eq!(parse_argument(&u, "1000"), Some(Value::Uint(word(1000))));
    let digits = format!("{}2a", "0".repeat(62));
    assert_eq!(parse_argument(&u, &digits), Some(Value::Uint(word(42))));
    let upper = format!("{}2A", "0".repeat(62));
    assert_eq!(parse_argument(&u, &upper), Some(Value::Uint(word(42))));
    let ones = "1".repeat(64);
    assert_eq!(parse_argument(&u, &ones), Some(Value::Uint([0x11; 32])));
    assert_eq!(parse_argument(&u, &"f".repeat(64)), Some(Value::Uint([0xff; 32])));
    assert_eq!(parse_argument(&u, &"0".repeat(100)), Some(Value::Uint(word(0))));
    let max = "115792089237316195423570985008687907853269984665640564039457584007913129639935";
    assert_eq!(parse_argument(&u, max), Some(Value::Uint([0xff; 32])));
    let over = "115792089237316195423570985008687907853269984665640564039457584007913129639936";
    assert_eq!(parse_argument(&u, over), None);
    assert_eq!(parse_argument(&u, &"9".repeat(78)), None);
    for bad in ["", "0x2a", "0x10", "2a", "4 2", "+42", "-1", "1e3", "١"] {
        assert_eq!(parse_argument(&u, bad), None, "{:?}", bad);
    }
    assert_eq!(parse_argument(&Kind::Uint(8), "255"), Some(Value::Uint(word(255))));
    assert_eq!(parse_argument(&Kind::Uint(8), "256"), None);
    assert_eq!(parse_argument(&Kind::Uint(8), &digits), Some(Value::Uint(word(42))));
    assert_eq!(parse_argument(&Kind::Uint(8), &ones), None);
    let big = "340282366920938463463374607431768211456";
    let mut two_128 = [0u8; 32];
    two_128[15] = 1;
    assert_eq!(parse_argument(&u, big), Some(Value::Uint(two_128)));
    assert_eq!(parse_argument(&Kind::Uint(128), big), None);
}

#[test]
fn amounts_in_units_of_account() {
    let u = Kind::Uint(256);
    assert_eq!(parse_argument(&u, "5 wei"), Some(Value::Uint(word(5))));
    assert_eq!(parse_argument(&u, "1 gwei"), Some(Value::Uint(word(1_000_000_000))));
    assert_eq!(parse_argument(&u, "1.5 gwei"), Some(Value::Uint(word(1_500_000_000))));
    assert_eq!(parse_argument(&u, "2nano"), Some(Value::Uint(word(2_000_000_000))));
    assert_eq!(parse_argument(&u, "1 ether"), Some(Value::Uint(word(1_000_000_000_000_000_000))));
    assert_eq!(parse_argument(&u, "0.25 ether"), Some(Value::Uint(word(250_000_000_000_000_000))));
    assert_eq!(parse_argument(&Kind::Uint(32), "1 gwei"), Some(Value::Uint(word(1_000_000_000))));
    assert_eq!(parse_argument(&Kind::Uint(32), "5 gwei"), None);
    for bad in ["1.5 wei", "1 Ether", ".5 ether", "1. ether", "1 ether ", "ether", "1 eth", "-1 ether"] {
        assert_eq!(parse_argument(&u, bad), None, "{:?}", bad);
    }
}

#[test]
fn signed_numbers_as_text() {
    let i = Kind::Int(256);
    assert_eq!(parse_argument(&i, "42"), Some(Value::Int(word(42))));
    assert_eq!(parse_argument(&i, "0"), Some(Value::Int(word(0))));
    assert_eq!(parse_argument(&i, "-0"), Some(Value::Int(word(0))));
    assert_eq!(parse_argument(&i, "-5"), Some(Value::Int(minus(5))));
    assert_eq!(parse_argument(&i, "-1"), Some(Value::Int([0xff; 32])));
    assert_eq!(parse_argument(&i, &"f".repeat(64)), Some(Value::Int([0xff; 32])));
    let top = "57896044618658097711785492504343953926634992332820282019728792003956564819968";
    let below = "57896044618658097711785492504343953926634992332820282019728792003956564819967";
    let above = "57896044618658097711785492504343953926634992332820282019728792003956564819969";
    let mut lowest = [0u8; 32];
    lowest[0] = 0x80;
    let mut highest = [0xffu8; 32];
    highest[0] = 0x7f;
    assert_eq!(parse_argument(&i, below), Some(Value::Int(highest)));
    assert_eq!(parse_argument(&i, top), None);
    assert_eq!(parse_argument(&i, &format!("-{}", top)), Some(Value::Int(lowest)));
    assert_eq!(parse_argument(&i, &format!("-{}", above)), None);
    let max = "115792089237316195423570985008687907853269984665640564039457584007913129639935";
    assert_eq!(parse_argument(&i, max), None);
    assert_eq!(parse_argument(&i, &format!("-{}", max)), None);
    for bad in ["", "-", "--5", "+5", "- 5", "5-", "0x7f", "7f"] {
        assert_eq!(parse_argument(&i, bad), None, "{:?}", bad);
    }
    let small = Kind::Int(8);
    assert_eq!(parse_argument(&small, "127"), Some(Value::Int(word(127))));
    assert_eq!(parse_argument(&small, "128"), None);
    assert_eq!(parse_argument(&small, "-128"), Some(Value::Int(minus(128))));
    assert_eq!(parse_argument(&small, "-129"), None);
    assert_eq!(parse_argument(&small, "-1"), Some(Value::Int([0xff; 32])));
    assert_eq!(parse_argument(&Kind::Int(16), "-129"), Some(Value::Int(minus(129))));
    assert_eq!(parse_argument(&Kind::Int(16), "32768"), None);
    assert_eq!(parse_argument(&Kind::Int(16), "-32768"), Some(Value::Int(minus(32768))));
    assert_eq!(parse_argument(&Kind::Int(16), "-32769"), None);
}

#[test]
fn truth_values_addresses_and_bytes_as_text() {
    assert_eq!(parse_argument(&Kind::Bool, "true"), Some(Value::Bool(true)));
    assert_eq!(parse_argument(&Kind::Bool, "1"), Some(Value::Bool(true)));
    assert_eq!(parse_argument(&Kind::Bool, "false"), Some(Value::Bool(false)));
    assert_eq!(parse_argument(&Kind::Bool, "0"), Some(Value::Bool(false)));
    for bad in ["True", "2", "", "yes", "01", " 1"] {
        assert_eq!(parse_argument(&Kind::Bool, bad), None, "{:?}", bad);
    }
    assert_eq!(
        parse_argument(&Kind::Address, TARGET),
        Some(Value::Address(Address::from_text(TARGET).unwrap().bytes))
    );
    assert_eq!(
        parse_argument(&Kind::Address, &TARGET[2..]),
        Some(Value::Address(Address::from_text(TARGET).unwrap().bytes))
    );
    assert_eq!(parse_argument(&Kind::Address, "0xaa"), None);
    assert_eq!(parse_argument(&Kind::FixedBytes(2), "0xabcd"), Some(Value::FixedBytes(vec![0xab, 0xcd])));
    assert_eq!(parse_argument(&Kind::FixedBytes(2), "abcd"), Some(Value::FixedBytes(vec![0xab, 0xcd])));
    assert_eq!(parse_argument(&Kind::FixedBytes(2), "0xab"), None);
    assert_eq!(parse_argument(&Kind::FixedBytes(2), "0xabcdef"), None);
    assert_eq!(parse_argument(&Kind::Bytes, "0x"), Some(Value::Bytes(vec![])));
    assert_eq!(parse_argument(&Kind::Bytes, ""), Some(Value::Bytes(vec![])));
    assert_eq!(parse_argument(&Kind::Bytes, "0xabcdef"), Some(Value::Bytes(vec![0xab, 0xcd, 0xef])));
    assert_eq!(parse_argument(&Kind::Bytes, "xyz"), None);
    assert_eq!(parse_argument(&Kind::Bytes, "abc"), None);
}

fn uints(items: &[u64]) -> Vec<Value> {
    items.iter().map(|n| Value::Uint(word(*n))).collect()
}

#[test]
fn arrays_and_tuples_as_text() {
    let list = Kind::Array(Box::new(Kind::Uint(256)));
    assert_eq!(parse_argument(&list, "[]"), Some(Value::Array(vec![])));
    assert_eq!(parse_argument(&list, "[1]"), Some(Value::Array(uints(&[1]))));
    assert_eq!(parse_argument(&list, "[1,2]"), Some(Value::Array(uints(&[1, 2]))));
    assert_eq!(parse_argument(&list, "[1,2,3]"), Some(Value::Array(uints(&[1, 2, 3]))));
    for bad in ["", "[", "]", "1,2", "[1,2", "1,2]", "[1,]", "[,1]", "[1,,2]", "[1, 2]", "(1,2)", "[[1]]", "[1]]", "[true]"] {
        assert_eq!(parse_argument(&list, bad), None, "{:?}", bad);
    }
    let pair = Kind::FixedArray(Box::new(Kind::Bool), 2);
    assert_eq!(
        parse_argument(&pair, "[true,0]"),
        Some(Value::FixedArray(vec![Value::Bool(true), Value::Bool(false)]))
    );
    assert_eq!(parse_argument(&pair, "[true]"), None);
    assert_eq!(parse_argument(&pair, "[true,0,1]"), None);
    assert_eq!(parse_argument(&pair, "[]"), None);
    let nested = Kind::Array(Box::new(Kind::Array(Box::new(Kind::Uint(256)))));
    assert_eq!(
        parse_argument(&nested, "[[1,2],[],[3]]"),
        Some(Value::Array(vec![
            Value::Array(uints(&[1, 2])),
            Value::Array(vec![]),
            Value::Array(uints(&[3])),
        ]))
    );
    assert_eq!(parse_argument(&nested, "[]"), Some(Value::Array(vec![])));
    assert_eq!(parse_argument(&nested, "[[]]"), Some(Value::Array(vec![Value::Array(vec![])])));
    assert_eq!(parse_argument(&nested, "[[1,2],3]"), None);
    let tuple = Kind::Tuple(vec![Kind::Uint(256), Kind::Bool, Kind::Bytes]);
    assert_eq!(
        parse_argument(&tuple, "(7,true,0xab)"),
        Some(Value::Tuple(vec![Value::Uint(word(7)), Value::Bool(true), Value::Bytes(vec![0xab])]))
    );
    assert_eq!(parse_argument(&tuple, "(7,true)"), None);
    assert_eq!(parse_argument(&tuple, "(7,true,0xab,1)"), None);
    assert_eq!(parse_argument(&tuple, "[7,true,0xab]"), None);
    let mixed = Kind::Array(Box::new(Kind::Tuple(vec![
        Kind::Array(Box::new(Kind::Uint(8))),
        Kind::Int(8),
    ])));
    assert_eq!(
        parse_argument(&mixed, "[([1,2],-1),([],0)]"),
        Some(Value::Array(vec![
            Value::Tuple(vec![Value::Array(uints(&[1, 2])), Value::Int([0xff; 32])]),
            Value::Tuple(vec![Value::Array(vec![]), Value::Int(word(0))]),
        ]))
    );
}

fn to_param(kind: &Kind) -> ethabi::ParamType {
    match kind {
        Kind::Uint(b) => ethabi::ParamType::Uint(*b),
        Kind::Int(b) => ethabi::ParamType::Int(*b),
        Kind::Bool => ethabi::ParamType::Bool,
        Kind::Address => ethabi::ParamType::Address,
        Kind::FixedBytes(n) => ethabi::ParamType::FixedBytes(*n),
        Kind::Bytes => ethabi::ParamType::Bytes,
        Kind::Array(e) => ethabi::ParamType::Array(Box::new(to_param(e))),
        Kind::FixedArray(e, n) => ethabi::ParamType::FixedArray(Box::new(to_param(e)), *n),
        Kind::Tuple(ks) => ethabi::ParamType::Tuple(ks.iter().map(to_param).collect()),
    }
}

fn to_token(value: &Value) -> ethabi::Token {
    match value {
        Value::Uint(w) => ethabi::Token::Uint(ethabi::Uint::from_big_endian(w)),
        Value::Int(w) => ethabi::Token::Int(ethabi::Uint::from_big_endian(w)),
        Value::Bool(b) => ethabi::Token::Bool(*b),
        Value::Address(a) => ethabi::Token::Address(ethabi::Address::from_slice(a)),
        Value::FixedBytes(b) => ethabi::Token::FixedBytes(b.clone()),
        Value::Bytes(b) => ethabi::Token::Bytes(b.clone()),
        Value::Array(items) => ethabi::Token::Array(items.iter().map(to_token).collect()),
        Value::FixedArray(items) => ethabi::Token::FixedArray(items.iter().map(to_token).collect()),
        Value::Tuple(items) => ethabi::Token::Tuple(items.iter().map(to_token).collect()),
    }
}

#[test]
fn texts_are_read_as_the_lenient_tokenizer_reads_them() {
    let list = Kind::Array(Box::new(Kind::Uint(256)));
    let nested = Kind::Array(Box::new(Kind::Array(Box::new(Kind::Int(256)))));
    let tuple = Kind::Tuple(vec![Kind::Uint(256), Kind::Bool, Kind::Array(Box::new(Kind::Bool))]);
    let sixty_four = "1".repeat(64);
    let hex_word = format!("{}ff", "0".repeat(62));
    let cases: Vec<(Kind, &str)> = vec![
        (Kind::Uint(256), "0"),
        (Kind::Uint(256), "1000"),
        (Kind::Uint(256), "007"),
        (Kind::Uint(256), &sixty_four),
        (Kind::Uint(256), &hex_word),
        (Kind::Uint(256), "0x10"),
        (Kind::Uint(256), "ff"),
        (Kind::Uint(256), "-1"),
        (Kind::Uint(256), "1 2"),
        (Kind::Uint(256), "1 ether"),
        (Kind::Uint(256), "1ether"),
        (Kind::Uint(256), "1.5 gwei"),
        (Kind::Uint(256), "0.000000001 gwei"),
        (Kind::Uint(256), "1.0000000001 gwei"),
        (Kind::Uint(256), "5 wei"),
        (Kind::Uint(256), "1.5 wei"),
        (Kind::Uint(256), "3 nano"),
        (Kind::Uint(256), "2 nanoether"),
        (Kind::Uint(256), "1 Ether"),
        (Kind::Uint(256), "1  \t ether"),
        (Kind::Uint(256), ".5 ether"),
        (Kind::Uint(256), "1. ether"),
        (Kind::Uint(256), "1.5.5 ether"),
        (Kind::Uint(256), "1 ether "),
        (Kind::Uint(256), " 1 ether"),
        (Kind::Uint(256), "ether"),
        (Kind::Uint(256), "0012.500 ether"),
        (Kind::Uint(256), "115792089237316195423570985008687907853269984665640564039457 ether"),
        (Kind::Uint(256), "115792089237316195423570985008687907853269984665640564039458 ether"),
        (Kind::Int(256), "1 ether"),
        (Kind::Array(Box::new(Kind::Uint(256))), "[1 ether,2.5 gwei]"),
        (Kind::Int(256), "5"),
        (Kind::Int(256), "-5"),
        (Kind::Int(256), "-0"),
        (Kind::Int(256), &sixty_four),
        (Kind::Int(256), "0x10"),
        (Kind::Int(256), "+5"),
        (Kind::Int(256), "57896044618658097711785492504343953926634992332820282019728792003956564819967"),
        (Kind::Int(256), "57896044618658097711785492504343953926634992332820282019728792003956564819968"),
        (Kind::Int(256), "-57896044618658097711785492504343953926634992332820282019728792003956564819968"),
        (Kind::Int(256), "-57896044618658097711785492504343953926634992332820282019728792003956564819969"),
        (Kind::Bool, "true"),
        (Kind::Bool, "1"),
        (Kind::Bool, "false"),
        (Kind::Bool, "0"),
        (Kind::Bool, "2"),
        (Kind::Bool, "TRUE"),
        (Kind::Address, "0x00000000000000000000000000000000000000aa"),
        (Kind::Address, "00000000000000000000000000000000000000AA"),
        (Kind::Address, "0xaa"),
        (Kind::Bytes, "0xabcd"),
        (Kind::Bytes, "abcd"),
        (Kind::Bytes, ""),
        (Kind::Bytes, "abc"),
        (Kind::FixedBytes(2), "0xabcd"),
        (Kind::FixedBytes(2), "ab"),
        (Kind::Array(Box::new(Kind::Uint(256))), "[]"),
        (Kind::Array(Box::new(Kind::Uint(256))), "[1]"),
        (Kind::Array(Box::new(Kind::Uint(256))), "[1,2]"),
        (Kind::Array(Box::new(Kind::Uint(256))), "[1,2,x]"),
        (Kind::Array(Box::new(Kind::Uint(256))), "1,2"),
        (Kind::Array(Box::new(Kind::Uint(256))), "[1, 2]"),
        (Kind::FixedArray(Box::new(Kind::Bool), 2), "[1,0]"),
        (Kind::FixedArray(Box::new(Kind::Bool), 2), "[1]"),
        (Kind::Array(Box::new(Kind::Array(Box::new(Kind::Int(256))))), "[[1,-2],[],[3]]"),
        (Kind::Array(Box::new(Kind::Array(Box::new(Kind::Int(256))))), "[[]]"),
        (Kind::Tuple(vec![Kind::Uint(256), Kind::Bool, Kind::Array(Box::new(Kind::Bool))]), "(1,true,[0,1])"),
    ];
    let _ = (list, nested, tuple);
    for (kind, text) in cases {
        let theirs = LenientTokenizer::tokenize(&to_param(&kind), text).ok();
        let ours = parse_argument(&kind, text).map(|value| to_token(&value));
        assert_eq!(ours, theirs, "{:?} {:?}", kind, text);
    }
}

fn raw(crypto: Crypto, data: Vec<u8>) -> Result<SignedTransaction, ToolError> {
    build_and_sign(
        Some(Address::from_text(TARGET).unwrap()),
        Payload::Raw(data),
        "n1".to_string(),
        1_000_000,
        188,
        vec![0u8; 32],
        1,
        0,
        &pair(crypto),
    )
}

#[test]
fn build_and_sign_raw_data() {
    for crypto in families() {
        let signed = raw(crypto, vec![0xde, 0xad, 0xbe, 0xef]).unwrap();
        assert_eq!(signed.transaction_with_sig.transaction, built());
        assert_eq!(signed.transaction_with_sig.signature.crypto, crypto);
        assert_eq!(signed.signer, pair(crypto).public_key());
        assert_eq!(signed.sender, pair(crypto).address());
        assert_eq!(signed, SignedTransaction::verify(sign_transaction(built(), &pair(crypto))).unwrap());
        assert_eq!(signed, raw(crypto, vec![0xde, 0xad, 0xbe, 0xef]).unwrap());
        assert_ne!(signed, raw(crypto, vec![0xde, 0xad, 0xbe, 0xee]).unwrap());
    }
}

#[test]
fn build_and_sign_a_call() {
    for crypto in families() {
        let call = |arguments: Vec<String>| {
            build_and_sign(
                Some(Address::from_text(TARGET).unwrap()),
                Payload::Call {
                    signature: "transfer(address,uint256)".to_string(),
                    kinds: transfer_kinds(),
                    arguments,
                },
                "n2".to_string(),
                50_000,
                1_000,
                vec![],
                3,
                1,
                &pair(crypto),
            )
        };
        let signed = call(transfer_arguments()).unwrap();
        let tx = &signed.transaction_with_sig.transaction;
        assert_eq!(
            tx.data,
            encode("transfer(address,uint256)", transfer_kinds(), &transfer_arguments()).unwrap()
        );
        assert_eq!(&to_hex(&tx.data)[..8], "a9059cbb");
        assert_eq!(tx.nonce, "n2");
        assert_eq!(tx.quota, 50_000);
        assert_eq!(tx.valid_until_block, 1_000);
        assert_eq!(tx.value, Vec::<u8>::new());
        assert_eq!(tx.chain_id, 3);
        assert_eq!(tx.version, 1);
        assert_eq!(signed.signer, pair(crypto).public_key());
        assert_eq!(
            call(vec![TARGET.to_string()]),
            Err(ToolError::ArityError { expected: 2, found: 1 })
        );
        assert_eq!(
            call(vec![TARGET.to_string(), "x".to_string()]),
            Err(ToolError::TypeMismatch { index: 1, declared: Kind::Uint(256) })
        );
    }
}

#[test]
fn a_duplicate_key_pair_has_the_same_keys() {
    for crypto in families() {
        let keys = pair(crypto);
        let copy = keys.duplicate();
        assert_eq!(copy.crypto(), keys.crypto());
        assert_eq!(copy.private_key(), keys.private_key());
        assert_eq!(copy.public_key(), keys.public_key());
        assert_eq!(copy.address(), keys.address());
    }
}
