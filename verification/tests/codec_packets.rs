use mqtt_broker::codec::decoding::{parse_header, parse_mqtt};
use mqtt_broker::codec::encoding::encode;
use mqtt_broker::codec::primitives::{
    encode_string, encode_variable_u32, parse_string, parse_variable_u32, ParseError,
};
use mqtt_broker::types::{
    ConnAck, Connect, ConnectReason, Disconnect, DisconnectReason, MqttPacket, Payload, PubAck,
    PubAckReason, Publish,
    QoS, RetainHandling, SubAck, Subscribe, SubscribeReason, TopicFilter, UnsubAck, Unsubscribe,
    UnsubscribeReason, Will,
};

fn roundtrip(input: &[u8], expected: MqttPacket) {
    let (packet, used) = parse_mqtt(input).expect("the packet should parse");
    assert_eq!(packet, expected);
    assert_eq!(used, input.len());
    let encoded = encode(&packet);
    assert_eq!(&input[..], &encoded[..]);
}

fn connack(session_present: bool, connect_reason: ConnectReason) -> ConnAck {
    ConnAck {
        session_present,
        connect_reason,
        session_expiry_interval: None,
        receive_maximum: None,
        maximum_qos: None,
        retain_available: None,
        maximum_packet_size: None,
        assigned_client_identifier: None,
        topic_alias_maximum: None,
        reason_string: None,
        user_properties: None,
        wildcard_subscription_available: None,
        subscription_identifiers_available: None,
        shared_subscription_available: None,
        server_keep_alive: None,
        response_information: None,
        server_reference: None,
        authentication_method: None,
        authentication_data: None,
    }
}

#[test]
fn pingreq() {
    roundtrip(&[0b1100_0000u8, 0u8], MqttPacket::PingReq);
}

#[test]
fn pingresp() {
    roundtrip(&[0b1101_0000u8, 0u8], MqttPacket::PingResp);
}

#[test]
fn simple_connect() {
    roundtrip(
        &[
            0b0001_0000u8, 32u8, 0u8, 4u8, 0b0100_1101, 0b0101_0001, 0b0101_0100, 0b0101_0100, 5u8,
            0b1100_0010, 0u8, 10u8, 0u8, 0u8, 7u8, 0x74u8, 0x65u8, 0x73u8, 0x74u8, 0x69u8, 0x6eu8,
            0x67u8, 0u8, 4u8, 0x55u8, 0x53u8, 0x45u8, 0x52u8, 0u8, 4u8, 0x50u8, 0x41u8, 0x53u8,
            0x53u8,
        ],
        MqttPacket::Connect(Connect {
            protocol_name: "MQTT".to_string(),
            protocol_version: 5u8,
            client_identifier: "testing".to_string(),
            username: Some("USER".to_string()),
            password: Some(b"PASS".to_vec()),
            will: None,
            clean_start: true,
            keep_alive: 10u16,
            session_expiry_interval: None,
            receive_maximum: None,
            maximum_packet_size: None,
            topic_alias_maximum: None,
            request_response_information: None,
            request_problem_information: None,
            user_properties: None,
            authentication: None,
        }),
    );
}

#[test]
fn connect_with_properties() {
    roundtrip(
        &[
            16, 96, 0, 4, 77, 81, 84, 84, 5, 198, 0, 10, 11, 17, 0, 0, 0, 11, 33, 0, 10, 34, 0, 10, 0,
            13, 104, 97, 118, 97, 114, 45, 116, 101, 115, 116, 105, 110, 103, 25, 1, 1, 2, 0, 0, 0, 1,
            3, 0, 10, 112, 108, 97, 105, 110, 47, 116, 101, 120, 116, 24, 0, 0, 0, 1, 0, 3, 102, 111,
            111, 0, 6, 116, 97, 108, 116, 97, 108, 0, 8, 85, 83, 69, 82, 78, 65, 77, 69, 0, 8, 80, 65,
            83, 83, 87, 79, 82, 68,
        ],
        MqttPacket::Connect(Connect {
            protocol_name: "MQTT".to_string(),
            protocol_version: 5,
            client_identifier: "havar-testing".to_string(),
            username: Some("USERNAME".to_string()),
            password: Some(b"PASSWORD".to_vec()),
            will: Some(Will {
                retain: false,
                qos: QoS::AtMostOnce,
                topic: "foo".to_string(),
                payload: Payload::String("taltal".to_string()),
                delay_interval: Some(1),
                message_expiry_interval: Some(1),
                content_type: Some("plain/text".to_string()),
                response_topic: None,
                correlation_data: None,
                user_properties: None,
            }),
            clean_start: true,
            keep_alive: 10,
            session_expiry_interval: Some(11),
            receive_maximum: Some(10),
            maximum_packet_size: None,
            topic_alias_maximum: Some(10),
            request_response_information: None,
            request_problem_information: None,
            user_properties: None,
            authentication: None,
        }),
    );
}

#[test]
fn simple_connack() {
    roundtrip(
        &[0b0010_0000u8, 3u8, 0b0000_00000u8, 0u8, 0u8],
        MqttPacket::ConnAck(connack(false, ConnectReason::Success)),
    );
}

#[test]
fn connack_with_session_present_and_error_reason() {
    roundtrip(
        &[0b0010_0000u8, 3u8, 1u8, 135u8, 0u8],
        MqttPacket::ConnAck(connack(true, ConnectReason::NotAuthorized)),
    );
}

#[test]
fn subscribe() {
    roundtrip(
        &[
            0b1000_0010u8, 21u8, 0u8, 1u8, 2u8, 11u8, 2u8, 0u8, 6u8, 0x66, 0x6F, 0x6F, 0x62, 0x61, 0x72,
            0b0000_0100, 0u8, 4u8, 0x72, 0x61, 0x6C, 0x6C, 0b0001_1010,
        ],
        MqttPacket::Subscribe(Subscribe {
            packet_identifier: 1u16,
            subscription_identifier: Some(2u32),
            user_properties: None,
            topic_filters: vec![
                TopicFilter {
                    filter: "foobar".to_string(),
                    maximum_qos: QoS::AtMostOnce,
                    no_local: true,
                    retain_handling: RetainHandling::SendRetained,
                    retain_as_published: false,
                },
                TopicFilter {
                    filter: "rall".to_string(),
                    maximum_qos: QoS::ExactlyOnce,
                    no_local: false,
                    retain_handling: RetainHandling::SendRetainedForNewSubscription,
                    retain_as_published: true,
                },
            ],
        }),
    );
}

#[test]
fn unsubscribe() {
    roundtrip(
        &[0b1010_0000u8, 11u8, 0u8, 1u8, 0u8, 0u8, 6u8, 0x66, 0x6F, 0x6F, 0x62, 0x61, 0x72],
        MqttPacket::Unsubscribe(Unsubscribe {
            packet_identifier: 1u16,
            user_properties: None,
            topic_filters: vec!["foobar".to_string()],
        }),
    );
}

#[test]
fn publish() {
    roundtrip(
        &[
            0b0011_1011u8, 14u8, 0u8, 6u8, 0x66, 0x6F, 0x6F, 0x62, 0x61, 0x72, 0u8, 42u8, 0u8, 1u8, 3u8,
            5u8,
        ],
        MqttPacket::Publish(Publish {
            duplicate: true,
            qos: QoS::AtLeastOnce,
            retain: true,
            topic_name: "foobar".to_string(),
            packet_identifier: Some(42u16),
            message_expiry_interval: None,
            topic_alias: None,
            response_topic: None,
            correlation_data: None,
            user_properties: None,
            subscription_identifier: None,
            content_type: None,
            payload: Payload::Unspecified(vec![1u8, 3u8, 5u8]),
        }),
    );
}

#[test]
fn suback() {
    roundtrip(
        &[0b1001_0000u8, 5u8, 0u8, 7u8, 0u8, 0u8, 0u8],
        MqttPacket::SubAck(SubAck {
            packet_identifier: 7,
            reason_string: None,
            user_properties: None,
            reasons: vec![SubscribeReason::GrantedQoS0, SubscribeReason::GrantedQoS0],
        }),
    );
}

#[test]
fn unsuback() {
    roundtrip(
        &[0b1011_0000u8, 5u8, 0u8, 9u8, 0u8, 0u8, 17u8],
        MqttPacket::UnsubAck(UnsubAck {
            packet_identifier: 9,
            reason_string: None,
            user_properties: None,
            reasons: vec![UnsubscribeReason::Success, UnsubscribeReason::NoSubscriptionExisted],
        }),
    );
}

#[test]
fn disconnect_session_taken_over() {
    roundtrip(
        &[0b1110_0000u8, 2u8, 142u8, 0u8],
        MqttPacket::Disconnect(Disconnect {
            disconnect_reason: DisconnectReason::SessionTakenOver,
            session_expiry_interval: None,
            reason_string: None,
            user_properties: None,
            server_reference: None,
        }),
    );
}

#[test]
fn disconnect_without_reason_is_normal() {
    let (packet, used) = parse_mqtt(&[0b1110_0000u8, 0u8]).unwrap();
    assert_eq!(used, 2);
    assert_eq!(
        packet,
        MqttPacket::Disconnect(Disconnect {
            disconnect_reason: DisconnectReason::NormalDisconnection,
            session_expiry_interval: None,
            reason_string: None,
            user_properties: None,
            server_reference: None,
        })
    );
}

#[test]
fn pingreq_with_non_empty_flags() {
    assert_eq!(parse_mqtt(&[0b1100_0001u8, 0u8]), Err(ParseError::Malformed));
}

#[test]
fn incomplete_packet_asks_for_more() {
    assert_eq!(parse_mqtt(&[0b0011_0000u8, 5u8, 0u8]), Err(ParseError::Incomplete(4)));
    assert_eq!(parse_mqtt(&[0b0011_0000u8]), Err(ParseError::Incomplete(1)));
}

#[test]
fn header_reports_missing_bytes() {
    let input = [48u8, 5, 0, 1, 97];
    assert!(matches!(parse_header(&input, 0), Err(ParseError::Incomplete(2))));
}

#[test]
fn qos2_flow_packets_are_unsupported() {
    assert_eq!(parse_mqtt(&[0b0101_0000u8, 2u8, 0u8, 1u8]), Err(ParseError::Unsupported));
}

#[test]
fn connect_with_other_protocol_name_is_malformed() {
    let input = [0b0001_0000u8, 10u8, 0u8, 4u8, 77, 81, 84, 88, 5u8, 2u8, 0u8, 10u8];
    assert_eq!(parse_mqtt(&input), Err(ParseError::Malformed));
}

#[test]
fn publish_with_qos_3_is_malformed() {
    let input = [0b0011_0110u8, 3u8, 0u8, 1u8, 0x66];
    assert_eq!(parse_mqtt(&input), Err(ParseError::Malformed));
}

#[test]
fn packet_followed_by_more_bytes_takes_only_its_own() {
    let input = [0b1100_0000u8, 0u8, 0b1101_0000u8, 0u8];
    assert_eq!(parse_mqtt(&input), Ok((MqttPacket::PingReq, 2)));
}


#[test]
fn puback_encodes_and_decodes() {
    let puback = || PubAck {
        packet_identifier: 1,
        reason: PubAckReason::Success,
        reason_string: None,
        user_properties: None,
    };
    roundtrip(&[0x40u8, 4u8, 0u8, 1u8, 0u8, 0u8], MqttPacket::PubAck(puback()));
    let refused = PubAck { reason: PubAckReason::NotAuthorized, reason_string: Some("no".to_string()), ..puback() };
    let bytes = encode(&MqttPacket::PubAck(refused));
    assert_eq!(bytes, vec![0x40u8, 9u8, 0u8, 1u8, 135u8, 5u8, 31u8, 0u8, 2u8, 110u8, 111u8]);
}

#[test]
fn connack_carries_server_keep_alive() {
    let mut c = connack(false, ConnectReason::Success);
    c.server_keep_alive = Some(60);
    roundtrip(&[0x20u8, 6u8, 0u8, 0u8, 3u8, 19u8, 0u8, 60u8], MqttPacket::ConnAck(c));
}
