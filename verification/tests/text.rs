use cita_tool::address::Address;
use cita_tool::error::ToolError;
use cita_tool::text::{from_hex, to_hex, to_prefixed_hex};

#[test]
fn to_hex_writes_two_lower_case_digits_per_byte() {
    assert_eq!(to_hex(&[]), "");
    assert_eq!(to_hex(&[0x00, 0x0f, 0xa0, 0xff]), "000fa0ff");
    assert_eq!(to_prefixed_hex(&[1, 2, 3, 15, 16]), "0x0102030f10");
    assert_eq!(to_prefixed_hex(&[]), "0x");
}

#[test]
fn from_hex_takes_either_case_and_an_optional_prefix() {
    assert_eq!(from_hex("0x0102030F10"), Ok(vec![1, 2, 3, 15, 16]));
    assert_eq!(from_hex("0X0102030f10"), Ok(vec![1, 2, 3, 15, 16]));
    assert_eq!(from_hex("fF"), Ok(vec![255]));
    assert_eq!(from_hex(""), Ok(vec![]));
    assert_eq!(from_hex("0x"), Ok(vec![]));
}

#[test]
fn from_hex_refuses_odd_lengths_and_other_characters() {
    assert_eq!(from_hex("123"), Err(ToolError::InvalidHex));
    assert_eq!(from_hex("0x1"), Err(ToolError::InvalidHex));
    assert_eq!(from_hex("zz"), Err(ToolError::InvalidHex));
    assert_eq!(from_hex("0x0x12"), Err(ToolError::InvalidHex));
    assert_eq!(from_hex("é1"), Err(ToolError::InvalidHex));
    assert_eq!(from_hex("1é"), Err(ToolError::InvalidHex));
    assert_eq!(from_hex(" 12"), Err(ToolError::InvalidHex));
}

#[test]
fn hex_text_reads_back_as_the_bytes() {
    let bytes: Vec<u8> = (0..=255).collect();
    assert_eq!(from_hex(&to_hex(&bytes)), Ok(bytes.clone()));
    assert_eq!(from_hex(&to_prefixed_hex(&bytes)), Ok(bytes.clone()));
    assert_eq!(from_hex(&to_hex(&bytes).to_uppercase()), Ok(bytes));
}

#[test]
fn address_text_round_trip() {
    let text = "0x7e5f4552091a69125d5dfcb7b8c2659029395bdf";
    let address = Address::from_text(text).unwrap();
    assert_eq!(address.bytes[0], 0x7e);
    assert_eq!(address.bytes[19], 0xdf);
    assert_eq!(address.to_text(), text);
    let upper = Address::from_text("0X7E5F4552091A69125D5DFCB7B8C2659029395BDF").unwrap();
    assert_eq!(upper, address);
    let bare = Address::from_text("7e5f4552091a69125d5dfcb7b8c2659029395bdf").unwrap();
    assert_eq!(bare, address);
}

#[test]
fn address_text_of_the_wrong_shape_is_refused() {
    assert_eq!(Address::from_text("0x"), Err(ToolError::MalformedAddress));
    assert_eq!(Address::from_text(""), Err(ToolError::MalformedAddress));
    assert_eq!(Address::from_text("0x7e5f"), Err(ToolError::MalformedAddress));
    assert_eq!(
        Address::from_text("0x7e5f4552091a69125d5dfcb7b8c2659029395bdf00"),
        Err(ToolError::MalformedAddress)
    );
    assert_eq!(
        Address::from_text("0x7e5f4552091a69125d5dfcb7b8c2659029395bdg"),
        Err(ToolError::MalformedAddress)
    );
}

#[test]
fn address_from_slice_wants_twenty_bytes() {
    assert!(Address::from_slice(&[7u8; 20]).is_some());
    assert_eq!(Address::from_slice(&[7u8; 20]).unwrap().bytes, [7u8; 20]);
    assert!(Address::from_slice(&[7u8; 19]).is_none());
    assert!(Address::from_slice(&[7u8; 21]).is_none());
    assert!(Address::from_slice(&[]).is_none());
}
