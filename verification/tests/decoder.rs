use mqtt_broker::lite::protocol::{Connect, Subscribe};
use mqtt_broker::lite::server::{respond, Response};
use mqtt_broker::codec::serialize;
use mqtt_broker::lite::decoder::MqttPacketDecoder;
use mqtt_broker::lite::protocol::{
    to_bytes, ConnAck, ConnectReason, MqttPacket, Publish, QoS, SubAck, SubscribeReason,
};
use mqtt_broker::types;

#[test]
fn it_works() {
    assert_eq!(2 + 2, 4);
}

#[test]
fn lite_pingresp_bytes() {
    assert_eq!(to_bytes(&MqttPacket::PingResp), vec![0b1101_0000u8, 0u8]);
}

#[test]
fn lite_connack_bytes() {
    let packet = MqttPacket::ConnAck(ConnAck {
        session_present: true,
        connect_reason: ConnectReason::Success,
        properties: vec![],
    });
    assert_eq!(to_bytes(&packet), vec![0b0010_0000u8, 3u8, 1u8, 0u8, 0u8]);
}

#[test]
fn lite_publish_bytes() {
    let packet = MqttPacket::Publish(Publish {
        duplicate: true,
        qos: QoS::AtMostOnce,
        retain: true,
        topic_name: "ab".to_string(),
        packet_identifier: Some(0x0102),
        properties: vec![],
        payload: vec![7u8, 8u8],
    });
    assert_eq!(
        to_bytes(&packet),
        vec![0b0011_1001u8, 9u8, 0u8, 2u8, b'a', b'b', 0u8, 2u8, 0u8, 7u8, 8u8]
    );
}

#[test]
fn lite_suback_bytes() {
    let packet = MqttPacket::SubAck(SubAck {
        packet_identifier: 5,
        properties: vec![],
        reasons: vec![SubscribeReason::GrantedQoS0, SubscribeReason::GrantedQoS0],
    });
    assert_eq!(to_bytes(&packet), vec![0b1001_0000u8, 4u8, 5u8, 0u8, 0u8, 0u8]);
}

#[test]
fn lite_encoder_appends() {
    let mut decoder = MqttPacketDecoder {};
    let mut dst = vec![42u8];
    assert!(decoder.encode(MqttPacket::PingResp, &mut dst).is_ok());
    assert_eq!(dst, vec![42u8, 0b1101_0000u8, 0u8]);
}

#[test]
fn serialize_connack_and_pingresp() {
    let connack = types::MqttPacket::ConnAck(types::ConnAck {
        session_present: false,
        connect_reason: types::ConnectReason::Success,
        session_expiry_interval: None,
        receive_maximum: None,
        maximum_qos: None,
        retain_available: None,
        maximum_packet_size: None,
        assigned_client_identifier: None,
        topic_alias_maximum: None,
        reason_string: None,
        user_properties: None,
        wildcard_subscription_available: None,
        subscription_identifiers_available: None,
        shared_subscription_available: None,
        server_keep_alive: None,
        response_information: None,
        server_reference: None,
        authentication_method: None,
        authentication_data: None,
    });
    assert_eq!(serialize::to_bytes(&connack), vec![0b0010_0000u8, 3u8, 0u8, 0u8, 0u8]);
    assert_eq!(serialize::to_bytes(&types::MqttPacket::PingResp), vec![0b1101_0000u8, 0u8]);
}

#[test]
fn serialize_publish_ors_qos_into_low_bits() {
    let publish = types::MqttPacket::Publish(types::Publish {
        duplicate: false,
        qos: types::QoS::AtLeastOnce,
        retain: true,
        topic_name: "t".to_string(),
        packet_identifier: None,
        message_expiry_interval: None,
        topic_alias: None,
        response_topic: None,
        correlation_data: None,
        user_properties: None,
        subscription_identifier: None,
        content_type: None,
        payload: types::Payload::Unspecified(vec![1u8]),
    });
    assert_eq!(serialize::to_bytes(&publish), vec![0b0011_0001u8, 5u8, 0u8, 1u8, b't', 0u8, 1u8]);
}

#[test]
fn serialize_suback() {
    let suback = types::MqttPacket::SubAck(types::SubAck {
        packet_identifier: 3,
        reason_string: None,
        user_properties: None,
        reasons: vec![types::SubscribeReason::GrantedQoS0],
    });
    assert_eq!(serialize::to_bytes(&suback), vec![0b1001_0000u8, 3u8, 3u8, 0u8, 0u8]);
}

#[test]
fn lite_server_answers() {
    let connect = MqttPacket::Connect(Connect {
        protocol_name: "MQTT".to_string(),
        protocol_version: 5,
        client_identifier: "c".to_string(),
        username: None,
        password: None,
        will: None,
        clean_start: true,
        keep_alive: 0,
        properties: vec![],
    });
    match respond(&connect) {
        Response::Send(MqttPacket::ConnAck(c)) => {
            assert!(!c.session_present);
            assert_eq!(c.connect_reason, ConnectReason::Success);
        },
        _ => assert!(false),
    }
    assert!(matches!(respond(&MqttPacket::PingReq), Response::Send(MqttPacket::PingResp)));
    let subscribe = MqttPacket::Subscribe(Subscribe { packet_identifier: 8, properties: vec![], topic_filters: vec![] });
    match respond(&subscribe) {
        Response::Send(MqttPacket::SubAck(a)) => {
            assert_eq!(a.packet_identifier, 8);
            assert_eq!(a.reasons, vec![SubscribeReason::GrantedQoS0]);
        },
        _ => assert!(false),
    }
}
