use mqtt_broker::codec::properties::{encode_properties, parse_properties};
use mqtt_broker::types::{Properties, UserProperty};
use mqtt_broker::codec::decoding::parse_header;
use mqtt_broker::codec::primitives::{
    encode_binary, encode_string, encode_variable_u32, parse_binary_data, parse_string,
    parse_variable_u32, ParseError,
};

fn header_size(input: &[u8]) -> u32 {
    let (header, used) = parse_header(input, 0).expect("the header should parse");
    assert_eq!(used, input.len());
    header.packet_size
}

#[test]
fn one_lower() {
    assert_eq!(header_size(&[0b1100_0000u8, 0b0000_0000u8]), 0u32);
}

#[test]
fn one_upper() {
    let mut input = vec![0b1100_0000u8, 0x7fu8];
    input.extend(std::iter::repeat(0u8).take(127));
    let (header, used) = parse_header(&input, 0).unwrap();
    assert_eq!(header.packet_size, 127);
    assert_eq!(used, 2);
}

#[test]
fn variable_integer_vectors() {
    let cases: [(&[u8], u32); 8] = [
        (&[0x00], 0),
        (&[0x7f], 127),
        (&[0x80, 0x01], 128),
        (&[0xff, 0x7f], 16_383),
        (&[0x80, 0x80, 0x01], 16_384),
        (&[0xff, 0xff, 0x7f], 2_097_151),
        (&[0x80, 0x80, 0x80, 0x01], 2_097_152),
        (&[0xff, 0xff, 0xff, 0x7f], 268_435_455),
    ];
    for (bytes, value) in cases.iter() {
        assert_eq!(parse_variable_u32(bytes, 0), Ok((*value, bytes.len())));
        assert_eq!(&encode_variable_u32(*value)[..], *bytes);
    }
}

#[test]
fn variable_integer_of_five_bytes_is_malformed() {
    assert_eq!(parse_variable_u32(&[0xff, 0xff, 0xff, 0xff, 0x7f], 0), Err(ParseError::Malformed));
}

#[test]
fn variable_integer_cut_short_is_incomplete() {
    assert_eq!(parse_variable_u32(&[0x80, 0x80], 0), Err(ParseError::Incomplete(1)));
}

#[test]
fn header_with_size_past_the_input_is_incomplete() {
    assert_eq!(parse_header(&[0b0011_0000u8, 3u8, 0u8], 0).map(|(_, n)| n), Err(ParseError::Incomplete(2)));
}

fn string_roundtrip(s: &str) {
    let bytes = encode_string(s);
    let length = (s.as_bytes().len() as u16).to_be_bytes();
    assert_eq!(&bytes[..2], &length[..]);
    assert_eq!(&bytes[2..], s.as_bytes());
    let (parsed, used) = parse_string(&bytes, 0).unwrap();
    assert_eq!(parsed, s);
    assert_eq!(used, bytes.len());
}

#[test]
fn short_string() {
    string_roundtrip("🚀");
}

#[test]
fn longer_string() {
    string_roundtrip("🚀longer string with spaces & weird signs ‰{¢‰");
}

#[test]
fn invalid_utf8_string_is_malformed() {
    assert_eq!(parse_string(&[0u8, 2u8, 0xc3, 0x28], 0), Err(ParseError::Malformed));
}

#[test]
fn binary_data_roundtrip() {
    let bytes = encode_binary(&[9u8, 8u8, 7u8]);
    assert_eq!(bytes, vec![0u8, 3u8, 9u8, 8u8, 7u8]);
    assert_eq!(parse_binary_data(&bytes, 0), Ok((vec![9u8, 8u8, 7u8], 5)));
}

#[test]
fn properties_roundtrip_with_user_properties() {
    let mut p = Properties::new();
    p.session_expiry_interval = Some(11);
    p.receive_maximum = Some(10);
    p.user_properties = Some(vec![
        UserProperty { key: "k".to_string(), value: "v".to_string() },
        UserProperty { key: "a".to_string(), value: "b".to_string() },
    ]);
    let bytes = encode_properties(&p);
    assert_eq!(&bytes[..9], &[22u8, 17, 0, 0, 0, 11, 33, 0, 10][..]);
    let (parsed, used) = parse_properties(&bytes, 0).unwrap();
    assert_eq!(used, bytes.len());
    assert_eq!(parsed, p);
}

#[test]
fn duplicate_property_is_malformed() {
    assert_eq!(parse_properties(&[4u8, 33, 0, 1, 33], 0).map(|(_, n)| n), Err(ParseError::Incomplete(2)));
    assert_eq!(parse_properties(&[6u8, 33, 0, 1, 33, 0, 2], 0).map(|(_, n)| n), Err(ParseError::Malformed));
}
