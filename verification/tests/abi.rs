use cita_tool::abi::{Kind, Value};
use cita_tool::abi_call::{decode_params, encode_params, selector};
use cita_tool::error::ToolError;
use cita_tool::text::to_hex;

fn word(n: u64) -> [u8; 32] {
    let mut w = [0u8; 32];
    w[24..].copy_from_slice(&n.to_be_bytes());
    w
}

fn uint(n: u64) -> Value {
    Value::Uint(word(n))
}

fn uint256() -> Kind {
    Kind::Uint(256)
}

fn copy_kind(kind: &Kind) -> Kind {
    match kind {
        Kind::Uint(b) => Kind::Uint(*b),
        Kind::Int(b) => Kind::Int(*b),
        Kind::Bool => Kind::Bool,
        Kind::Address => Kind::Address,
        Kind::FixedBytes(n) => Kind::FixedBytes(*n),
        Kind::Bytes => Kind::Bytes,
        Kind::Array(e) => Kind::Array(Box::new(copy_kind(e))),
        Kind::FixedArray(e, n) => Kind::FixedArray(Box::new(copy_kind(e)), *n),
        Kind::Tuple(ks) => Kind::Tuple(ks.iter().map(copy_kind).collect()),
    }
}

fn copy_kinds(kinds: &[Kind]) -> Vec<Kind> {
    kinds.iter().map(copy_kind).collect()
}

fn to_param(kind: &Kind) -> ethabi::ParamType {
    match kind {
        Kind::Uint(b) => ethabi::ParamType::Uint(*b),
        Kind::Int(b) => ethabi::ParamType::Int(*b),
        Kind::Bool => ethabi::ParamType::Bool,
        Kind::Address => ethabi::ParamType::Address,
        Kind::FixedBytes(n) => ethabi::ParamType::FixedBytes(*n),
        Kind::Bytes => ethabi::ParamType::Bytes,
        Kind::Array(e) => ethabi::ParamType::Array(Box::new(to_param(e))),
        Kind::FixedArray(e, n) => ethabi::ParamType::FixedArray(Box::new(to_param(e)), *n),
        Kind::Tuple(ks) => ethabi::ParamType::Tuple(ks.iter().map(to_param).collect()),
    }
}

fn to_token(value: &Value) -> ethabi::Token {
    match value {
        Value::Uint(w) => ethabi::Token::Uint(ethabi::Uint::from_big_endian(w)),
        Value::Int(w) => ethabi::Token::Int(ethabi::Uint::from_big_endian(w)),
        Value::Bool(b) => ethabi::Token::Bool(*b),
        Value::Address(a) => ethabi::Token::Address(ethabi::Address::from_slice(a)),
        Value::FixedBytes(b) => ethabi::Token::FixedBytes(b.clone()),
        Value::Bytes(b) => ethabi::Token::Bytes(b.clone()),
        Value::Array(items) => ethabi::Token::Array(items.iter().map(to_token).collect()),
        Value::FixedArray(items) => ethabi::Token::FixedArray(items.iter().map(to_token).collect()),
        Value::Tuple(items) => ethabi::Token::Tuple(items.iter().map(to_token).collect()),
    }
}

fn samples() -> Vec<(Vec<Kind>, Vec<Value>)> {
    let mut minus_two = [0xffu8; 32];
    minus_two[31] = 0xfe;
    vec![
        (vec![], vec![]),
        (vec![uint256()], vec![uint(69)]),
        (vec![Kind::Uint(8)], vec![uint(255)]),
        (vec![Kind::Int(16)], vec![Value::Int(minus_two)]),
        (vec![Kind::Bool, Kind::Bool], vec![Value::Bool(true), Value::Bool(false)]),
        (vec![Kind::Address, uint256()], vec![Value::Address([0x11; 20]), uint(1_000_000)]),
        (vec![Kind::FixedBytes(3)], vec![Value::FixedBytes(vec![1, 2, 3])]),
        (vec![Kind::FixedBytes(32)], vec![Value::FixedBytes(vec![9; 32])]),
        (vec![Kind::Bytes], vec![Value::Bytes(vec![])]),
        (vec![Kind::Bytes], vec![Value::Bytes(b"dave".to_vec())]),
        (vec![Kind::Bytes], vec![Value::Bytes(vec![7; 32])]),
        (vec![Kind::Bytes], vec![Value::Bytes(vec![7; 33])]),
        (vec![Kind::Array(Box::new(uint256()))], vec![Value::Array(vec![])]),
        (vec![Kind::Array(Box::new(uint256()))], vec![Value::Array(vec![uint(1), uint(2)])]),
        (
            vec![uint256(), Kind::Array(Box::new(Kind::Uint(32))), Kind::FixedBytes(10), Kind::Bytes],
            vec![
                uint(0x123),
                Value::Array(vec![uint(0x456), uint(0x789)]),
                Value::FixedBytes(b"1234567890".to_vec()),
                Value::Bytes(b"Hello, world!".to_vec()),
            ],
        ),
        (
            vec![Kind::Array(Box::new(Kind::Array(Box::new(uint256()))))],
            vec![Value::Array(vec![
                Value::Array(vec![uint(1), uint(2)]),
                Value::Array(vec![]),
                Value::Array(vec![uint(3)]),
            ])],
        ),
        (
            vec![Kind::FixedArray(Box::new(uint256()), 2), Kind::Bool],
            vec![Value::FixedArray(vec![uint(5), uint(6)]), Value::Bool(true)],
        ),
        (
            vec![Kind::FixedArray(Box::new(Kind::Bytes), 2)],
            vec![Value::FixedArray(vec![Value::Bytes(vec![1]), Value::Bytes(vec![2; 40])])],
        ),
        (
            vec![Kind::Tuple(vec![uint256(), Kind::Bytes, Kind::Address]), Kind::Uint(64)],
            vec![
                Value::Tuple(vec![uint(1), Value::Bytes(vec![0xaa; 5]), Value::Address([3; 20])]),
                uint(2),
            ],
        ),
        (
            vec![Kind::Tuple(vec![Kind::Bool, Kind::FixedArray(Box::new(Kind::Uint(8)), 3)])],
            vec![Value::Tuple(vec![
                Value::Bool(true),
                Value::FixedArray(vec![uint(1), uint(2), uint(3)]),
            ])],
        ),
        (
            vec![Kind::Array(Box::new(Kind::Tuple(vec![Kind::Bytes, uint256()])))],
            vec![Value::Array(vec![
                Value::Tuple(vec![Value::Bytes(vec![1, 2]), uint(10)]),
                Value::Tuple(vec![Value::Bytes(vec![]), uint(11)]),
            ])],
        ),
    ]
}

#[test]
fn encoding_agrees_with_ethabi() {
    for (kinds, values) in samples() {
        let tokens: Vec<ethabi::Token> = values.iter().map(to_token).collect();
        let expected = ethabi::encode(&tokens);
        let got = encode_params(copy_kinds(&kinds), &values).unwrap();
        assert_eq!(to_hex(&got), to_hex(&expected), "kinds {:?}", kinds);
    }
}

#[test]
fn decoding_gives_back_what_was_encoded() {
    for (kinds, values) in samples() {
        let bytes = encode_params(copy_kinds(&kinds), &values).unwrap();
        assert_eq!(decode_params(copy_kinds(&kinds), &bytes), Ok(values), "kinds {:?}", kinds);
    }
}

#[test]
fn decoding_agrees_with_ethabi() {
    for (kinds, values) in samples() {
        let tokens: Vec<ethabi::Token> = values.iter().map(to_token).collect();
        let bytes = ethabi::encode(&tokens);
        let params: Vec<ethabi::ParamType> = kinds.iter().map(to_param).collect();
        assert_eq!(ethabi::decode(&params, &bytes).unwrap(), tokens);
        assert_eq!(decode_params(copy_kinds(&kinds), &bytes), Ok(values), "kinds {:?}", kinds);
    }
}

#[test]
fn static_values_take_one_word_each() {
    let bytes = encode_params(
        vec![Kind::Address, uint256()],
        &vec![Value::Address([0x11; 20]), uint(0x2a)],
    )
    .unwrap();
    assert_eq!(
        to_hex(&bytes),
        "0000000000000000000000001111111111111111111111111111111111111111\
         000000000000000000000000000000000000000000000000000000000000002a"
    );
    let bytes = encode_params(
        vec![Kind::FixedBytes(2), Kind::Bool],
        &vec![Value::FixedBytes(vec![0xab, 0xcd]), Value::Bool(true)],
    )
    .unwrap();
    assert_eq!(
        to_hex(&bytes),
        "abcd000000000000000000000000000000000000000000000000000000000000\
         0000000000000000000000000000000000000000000000000000000000000001"
    );
}

#[test]
fn empty_dynamic_array_has_a_tail_of_one_zero_word() {
    let bytes =
        encode_params(vec![Kind::Array(Box::new(uint256()))], &vec![Value::Array(vec![])]).unwrap();
    assert_eq!(bytes.len(), 64);
    assert_eq!(&bytes[..32], &word(32)[..]);
    assert_eq!(&bytes[32..], &[0u8; 32][..]);
}

#[test]
fn dynamic_array_of_two_has_a_count_and_two_words() {
    let bytes = encode_params(
        vec![Kind::Array(Box::new(uint256()))],
        &vec![Value::Array(vec![uint(7), uint(8)])],
    )
    .unwrap();
    assert_eq!(bytes.len(), 32 + 32 + 2 * 32);
    assert_eq!(&bytes[..32], &word(32)[..]);
    assert_eq!(&bytes[32..64], &word(2)[..]);
    assert_eq!(&bytes[64..96], &word(7)[..]);
    assert_eq!(&bytes[96..], &word(8)[..]);
}

#[test]
fn dynamic_bytes_are_padded_to_whole_words() {
    let bytes = encode_params(vec![Kind::Bytes], &vec![Value::Bytes(b"dave".to_vec())]).unwrap();
    assert_eq!(
        to_hex(&bytes),
        "0000000000000000000000000000000000000000000000000000000000000020\
         0000000000000000000000000000000000000000000000000000000000000004\
         6461766500000000000000000000000000000000000000000000000000000000"
    );
}

#[test]
fn offsets_count_from_the_start_of_the_arguments() {
    let bytes = encode_params(
        vec![Kind::Bytes, uint256(), Kind::Bytes],
        &vec![Value::Bytes(vec![1; 33]), uint(5), Value::Bytes(vec![2])],
    )
    .unwrap();
    assert_eq!(&bytes[..32], &word(96)[..]);
    assert_eq!(&bytes[32..64], &word(5)[..]);
    assert_eq!(&bytes[64..96], &word(96 + 32 + 64)[..]);
    assert_eq!(&bytes[96..128], &word(33)[..]);
    assert_eq!(bytes.len(), 96 + 32 + 64 + 32 + 32);
}

#[test]
fn too_few_or_too_many_values_are_an_arity_error() {
    assert_eq!(
        encode_params(vec![uint256(), Kind::Bool], &vec![uint(1)]),
        Err(ToolError::ArityError { expected: 2, found: 1 })
    );
    assert_eq!(
        encode_params(vec![uint256()], &vec![]),
        Err(ToolError::ArityError { expected: 1, found: 0 })
    );
    assert_eq!(
        encode_params(vec![], &vec![uint(1)]),
        Err(ToolError::ArityError { expected: 0, found: 1 })
    );
}

#[test]
fn a_value_of_another_kind_is_a_type_mismatch() {
    assert_eq!(
        encode_params(vec![uint256(), Kind::Bool], &vec![uint(1), uint(2)]),
        Err(ToolError::TypeMismatch { index: 1, declared: Kind::Bool })
    );
    assert_eq!(
        encode_params(vec![Kind::Uint(8), Kind::Bool], &vec![uint(256), uint(2)]),
        Err(ToolError::TypeMismatch { index: 0, declared: Kind::Uint(8) })
    );
    assert_eq!(
        encode_params(vec![Kind::FixedBytes(4)], &vec![Value::FixedBytes(vec![1, 2, 3])]),
        Err(ToolError::TypeMismatch { index: 0, declared: Kind::FixedBytes(4) })
    );
    assert_eq!(
        encode_params(
            vec![Kind::FixedArray(Box::new(uint256()), 2)],
            &vec![Value::FixedArray(vec![uint(1)])]
        ),
        Err(ToolError::TypeMismatch {
            index: 0,
            declared: Kind::FixedArray(Box::new(uint256()), 2)
        })
    );
    assert_eq!(
        encode_params(
            vec![Kind::Array(Box::new(uint256()))],
            &vec![Value::Array(vec![uint(1), Value::Bool(true)])]
        ),
        Err(ToolError::TypeMismatch { index: 0, declared: Kind::Array(Box::new(uint256())) })
    );
    let mut not_extended = [0u8; 32];
    not_extended[31] = 0x80;
    assert_eq!(
        encode_params(vec![Kind::Int(8)], &vec![Value::Int(not_extended)]),
        Err(ToolError::TypeMismatch { index: 0, declared: Kind::Int(8) })
    );
}

#[test]
fn kinds_outside_the_convention_are_refused() {
    assert_eq!(
        encode_params(vec![uint256(), Kind::Uint(7)], &vec![uint(1), uint(2)]),
        Err(ToolError::UnknownType { index: 1 })
    );
    assert_eq!(
        encode_params(vec![Kind::Uint(264)], &vec![uint(1)]),
        Err(ToolError::UnknownType { index: 0 })
    );
    assert_eq!(
        encode_params(vec![Kind::FixedBytes(33)], &vec![]),
        Err(ToolError::UnknownType { index: 0 })
    );
    assert_eq!(
        decode_params(vec![Kind::FixedBytes(0)], &[0u8; 32]),
        Err(ToolError::UnknownType { index: 0 })
    );
    assert_eq!(
        decode_params(vec![Kind::Array(Box::new(Kind::FixedArray(Box::new(Kind::Bool), 0)))], &[]),
        Err(ToolError::UnknownType { index: 0 })
    );
    assert_eq!(
        decode_params(vec![Kind::Bool, Kind::Tuple(vec![])], &[]),
        Err(ToolError::UnknownType { index: 1 })
    );
}

#[test]
fn truncated_data_is_a_decode_error() {
    for (kinds, values) in samples() {
        let bytes = encode_params(copy_kinds(&kinds), &values).unwrap();
        if bytes.is_empty() {
            continue;
        }
        assert_eq!(
            decode_params(copy_kinds(&kinds), &bytes[..bytes.len() - 32]),
            Err(ToolError::DecodeError),
            "kinds {:?}",
            kinds
        );
        assert_eq!(decode_params(copy_kinds(&kinds), &[]), Err(ToolError::DecodeError));
    }
}

#[test]
fn offsets_and_counts_past_the_end_are_a_decode_error() {
    let mut far = word(32).to_vec();
    far.extend_from_slice(&word(1 << 40));
    far.extend_from_slice(&[0u8; 32]);
    assert_eq!(decode_params(vec![Kind::Bytes], &far), Err(ToolError::DecodeError));
    assert_eq!(
        decode_params(vec![Kind::Array(Box::new(uint256()))], &far),
        Err(ToolError::DecodeError)
    );
    let mut huge = [0xffu8; 32].to_vec();
    huge.extend_from_slice(&[0u8; 64]);
    assert_eq!(decode_params(vec![Kind::Bytes], &huge), Err(ToolError::DecodeError));
    let mut offset = word(u64::MAX).to_vec();
    offset.extend_from_slice(&[0u8; 64]);
    assert_eq!(decode_params(vec![Kind::Bytes], &offset), Err(ToolError::DecodeError));
    let mut count = word(32).to_vec();
    count.extend_from_slice(&word(u64::MAX));
    assert_eq!(
        decode_params(vec![Kind::Array(Box::new(Kind::Bool))], &count),
        Err(ToolError::DecodeError)
    );
}

#[test]
fn words_with_unused_bytes_are_read_as_ethabi_reads_them() {
    let mut dirty = [0u8; 32];
    for (i, byte) in dirty.iter_mut().enumerate() {
        *byte = i as u8 + 1;
    }
    let mut two = word(2);
    let kinds = || {
        vec![
            Kind::Uint(8),
            Kind::Uint(256),
            Kind::Int(8),
            Kind::Int(256),
            Kind::Address,
            Kind::FixedBytes(1),
            Kind::FixedBytes(32),
            Kind::Bool,
        ]
    };
    for data in [dirty, two, word(1), word(0), [0xff; 32]] {
        for kind in kinds() {
            let ours = decode_params(vec![copy_kind(&kind)], &data)
                .ok()
                .map(|values| values.iter().map(to_token).collect::<Vec<_>>());
            let theirs = ethabi::decode(&[to_param(&kind)], &data).ok();
            assert_eq!(ours, theirs, "{:?} {:?}", kind, data);
        }
    }
    assert_eq!(decode_params(vec![Kind::Bool], &two), Ok(vec![Value::Bool(false)]));
    two[0] = 1;
    assert_eq!(decode_params(vec![Kind::Bool], &two), Err(ToolError::DecodeError));
    assert_eq!(decode_params(vec![Kind::Uint(8)], &dirty), Ok(vec![Value::Uint(dirty)]));
    assert_eq!(
        decode_params(vec![Kind::Address], &dirty).map(|v| v.len()),
        Ok(1)
    );
    assert_eq!(
        decode_params(vec![Kind::FixedBytes(2)], &dirty),
        Ok(vec![Value::FixedBytes(vec![1, 2])])
    );
}

#[test]
fn data_behind_the_arguments_is_left_alone() {
    let mut bytes = word(9).to_vec();
    bytes.extend_from_slice(&[0xee; 40]);
    assert_eq!(decode_params(vec![uint256()], &bytes), Ok(vec![uint(9)]));
}

#[test]
fn selector_of_transfer() {
    assert_eq!(to_hex(&selector("transfer(address,uint256)")), "a9059cbb");
    assert_eq!(to_hex(&selector("baz(uint32,bool)")), "cdcd77c0");
    assert_eq!(
        selector("transfer(address,uint256)"),
        ethabi::short_signature("transfer", &[ethabi::ParamType::Address, ethabi::ParamType::Uint(256)])
            .to_vec()
    );
}
