use mqtt_broker::codec::primitives::ParseError;
use mqtt_broker::lite::decoder::MqttPacketDecoder;
use mqtt_broker::lite::parser::{parse_mqtt, parse_properties};
use mqtt_broker::lite::protocol::{
    Connect, Disconnect, DisconnectReason, MqttPacket, Property, Publish, QoS, Subscribe, TopicFilter,
};

fn header_size_is_read(input: &[u8]) {
    assert_eq!(parse_mqtt(input), Ok((MqttPacket::PingReq, input.len())));
}

#[test]
fn lite_remaining_length_one_byte() {
    header_size_is_read(&[0b1100_0000u8, 0b0000_0000u8]);
    header_size_is_read(&[0b1100_0000u8, 0x7fu8]);
}

#[test]
fn lite_remaining_length_more_bytes() {
    header_size_is_read(&[0b1100_0000u8, 0x80u8, 0x01u8]);
    header_size_is_read(&[0b1100_0000u8, 0xffu8, 0x7fu8]);
    header_size_is_read(&[0b1100_0000u8, 0x80u8, 0x80u8, 0x01u8]);
    header_size_is_read(&[0b1100_0000u8, 0xffu8, 0xffu8, 0x7fu8]);
    header_size_is_read(&[0b1100_0000u8, 0x80u8, 0x80u8, 0x80u8, 0x01u8]);
    header_size_is_read(&[0b1100_0000u8, 0xffu8, 0xffu8, 0xffu8, 0x07fu8]);
}

#[test]
fn lite_pingreq() {
    assert_eq!(parse_mqtt(&[0b1100_0000u8, 0u8]), Ok((MqttPacket::PingReq, 2)));
}

#[test]
fn lite_pingresp() {
    assert_eq!(parse_mqtt(&[0b1101_0000u8, 0u8]), Ok((MqttPacket::PingResp, 2)));
}

#[test]
fn lite_simple_connect() {
    let input = [
        0b0001_0000u8, 32u8, 0u8, 4u8, 0b0100_1101, 0b0101_0001, 0b0101_0100, 0b0101_0100, 5u8,
        0b1100_0010, 0u8, 10u8, 0u8, 0u8, 7u8, 0x74u8, 0x65u8, 0x73u8, 0x74u8, 0x69u8, 0x6eu8,
        0x67u8, 0u8, 4u8, 0x55u8, 0x53u8, 0x45u8, 0x52u8, 0u8, 4u8, 0x50u8, 0x41u8, 0x53u8, 0x53u8,
    ];
    let expected = MqttPacket::Connect(Connect {
        protocol_name: "MQTT".to_string(),
        protocol_version: 5u8,
        client_identifier: "testing".to_string(),
        username: Some("USER".to_string()),
        password: Some("PASS".to_string()),
        will: None,
        clean_start: true,
        keep_alive: 10u16,
        properties: Default::default(),
    });
    assert_eq!(parse_mqtt(&input), Ok((expected, input.len())));
}

#[test]
fn lite_pingreq_with_non_empty_flags() {
    assert_eq!(parse_mqtt(&[0b1100_0001u8, 0u8]), Err(ParseError::Malformed));
}

#[test]
fn lite_unknown_packet_type_is_malformed() {
    assert_eq!(parse_mqtt(&[0b0010_0000u8, 0u8]), Err(ParseError::Malformed));
}

#[test]
fn lite_incomplete_input_reports_missing_bytes() {
    assert_eq!(parse_mqtt(&[]), Err(ParseError::Incomplete(1)));
    assert_eq!(parse_mqtt(&[0b1100_0000u8]), Err(ParseError::Incomplete(1)));
    assert_eq!(parse_mqtt(&[0b0001_0000u8, 10u8, 0u8]), Err(ParseError::Incomplete(1)));
    assert_eq!(parse_mqtt(&[0b0001_0000u8, 10u8, 0u8, 4u8, 77u8]), Err(ParseError::Incomplete(3)));
}

#[test]
fn lite_connect_with_other_protocol_name_is_malformed() {
    let input = [0b0001_0000u8, 10u8, 0u8, 4u8, 77, 81, 84, 88, 5u8, 2u8, 0u8, 10u8, 0u8];
    assert_eq!(parse_mqtt(&input), Err(ParseError::Malformed));
}

#[test]
fn lite_properties_keep_strings_and_user_properties() {
    // length 19: content type "a", receive maximum 1, user property ("k", "v"), session expiry
    let input = [19u8, 3, 0, 1, 97, 33, 0, 1, 38, 0, 1, 107, 0, 1, 118, 17, 0, 0, 0, 5];
    let (props, next) = parse_properties(&input, 0).unwrap();
    assert_eq!(next, input.len());
    assert_eq!(
        props,
        vec![
            Property::ContentType("a".to_string()),
            Property::UserProperty { key: "k".to_string(), value: "v".to_string() },
        ]
    );
}

#[test]
fn lite_repeated_string_property_is_malformed() {
    let input = [8u8, 3, 0, 1, 97, 3, 0, 1, 98];
    assert_eq!(parse_properties(&input, 0), Err(ParseError::Malformed));
}

#[test]
fn lite_repeated_numeric_property_is_read() {
    let input = [6u8, 33, 0, 1, 33, 0, 2];
    assert_eq!(parse_properties(&input, 0), Ok((vec![], 7)));
}

#[test]
fn lite_unknown_property_is_malformed() {
    assert_eq!(parse_properties(&[2u8, 99, 0], 0), Err(ParseError::Malformed));
}

#[test]
fn lite_property_past_its_set_is_unsupported() {
    assert_eq!(parse_properties(&[2u8, 2, 0, 0, 0, 1], 0), Err(ParseError::Unsupported));
}

#[test]
fn lite_publish_qos0() {
    let input = [0b0011_0001u8, 7u8, 0u8, 2u8, 97, 98, 0u8, 1u8, 2u8];
    let expected = MqttPacket::Publish(Publish {
        duplicate: false,
        qos: QoS::AtMostOnce,
        retain: true,
        topic_name: "ab".to_string(),
        packet_identifier: None,
        properties: vec![],
        payload: vec![1u8, 2u8],
    });
    assert_eq!(parse_mqtt(&input), Ok((expected, input.len())));
}

#[test]
fn lite_publish_flags_masked_with_six() {
    // flags 0b0010: the mask 0b0110 gives 2, read as QoS 2 with a packet identifier
    let input = [0b0011_1010u8, 7u8, 0u8, 1u8, 97, 0u8, 9u8, 0u8, 5u8];
    let expected = MqttPacket::Publish(Publish {
        duplicate: true,
        qos: QoS::ExactlyOnce,
        retain: false,
        topic_name: "a".to_string(),
        packet_identifier: Some(9),
        properties: vec![],
        payload: vec![5u8],
    });
    assert_eq!(parse_mqtt(&input), Ok((expected, input.len())));
    assert_eq!(parse_mqtt(&[0b0011_0100u8, 3u8, 0u8, 1u8, 97]), Err(ParseError::Malformed));
}

#[test]
fn lite_publish_payload_missing() {
    assert_eq!(parse_mqtt(&[0b0011_0000u8, 6u8, 0u8, 1u8, 97, 0u8]), Err(ParseError::Incomplete(2)));
}

#[test]
fn lite_subscribe() {
    let input = [0b1000_0010u8, 9u8, 0u8, 7u8, 0u8, 0u8, 3u8, 97, 47, 98, 0b0000_1101u8];
    let expected = MqttPacket::Subscribe(Subscribe {
        packet_identifier: 7,
        properties: vec![],
        topic_filters: vec![TopicFilter {
            topic_name: "a/b".to_string(),
            maximum_qos: QoS::AtLeastOnce,
            no_local: true,
            retain_as_published: true,
            retain_handling: 1,
        }],
    });
    assert_eq!(parse_mqtt(&input), Ok((expected, input.len())));
}

#[test]
fn lite_subscribe_qos3_is_malformed() {
    let input = [0b1000_0010u8, 7u8, 0u8, 7u8, 0u8, 0u8, 1u8, 97, 3u8];
    assert_eq!(parse_mqtt(&input), Err(ParseError::Malformed));
}

#[test]
fn lite_disconnect() {
    let input = [0b1110_0000u8, 2u8, 0u8, 0u8];
    let expected = MqttPacket::Disconnect(Disconnect {
        disconnect_reason: DisconnectReason::NormalDisconnection,
        properties: vec![],
    });
    assert_eq!(parse_mqtt(&input), Ok((expected, 4)));
    assert_eq!(parse_mqtt(&[0b1110_0000u8, 2u8, 4u8, 0u8]), Err(ParseError::Unsupported));
}

#[test]
fn lite_decoder_frames() {
    let mut decoder = MqttPacketDecoder {};
    assert!(matches!(decoder.decode(&[0b1100_0000u8]), Ok(None)));
    assert!(matches!(decoder.decode(&[0b0011_0000u8, 6u8, 0u8, 1u8, 97, 0u8]), Ok(None)));
    assert!(matches!(decoder.decode(&[0b1100_0000u8, 0u8, 0xd0u8]), Ok(Some((MqttPacket::PingReq, 2)))));
    assert!(decoder.decode(&[0b1100_0001u8, 0u8]).is_err());
    assert!(decoder.unsupported_input(&[0b1110_0000u8, 2u8, 4u8, 0u8]));
    assert!(!decoder.unsupported_input(&[0b1100_0001u8, 0u8]));
}
