use mqtt_broker::broker::client::{forwards_defined, forwards_for, route_connection, ConnectionRoute};
use mqtt_broker::broker::session::{session_in_use, MemorySessionProvider};
use std::collections::HashMap;
use std::sync::Arc;

use mqtt_broker::broker::client::{
    assign_client_identifier, connack_for, forward_publish, handle_connect, keep_alive_check,
    server_keep_alive, will_publish, ClientIdentifier, HandleConnectError, KeepAliveCheck,
    MAX_KEEP_ALIVE, MAX_TOPIC_ALIAS,
};
use mqtt_broker::broker::connection::{
    handle_subscribe, handle_unsubscribe, take_over_disconnect, Connection, PacketAction,
};
use mqtt_broker::broker::decimal::decimal_string;
use mqtt_broker::broker::publish::{PublishAction, PublishHandler};
use mqtt_broker::broker::session::{
    AddSubscriptionResult, ClientSubscription, MemorySession, SessionError,
};
use mqtt_broker::broker::store::{ClusterStore, MemoryClusterStore};
use mqtt_broker::codec::encoding::encode;
use mqtt_broker::codec::framed::{MqttPacketDecoder, MqttPacketDecoderError};
use mqtt_broker::topic_filter::TopicFilter;
use mqtt_broker::types::{
    Connect, DisconnectReason, MqttPacket, Payload, PubAckReason, Publish, QoS, RetainHandling,
    Subscribe, SubscribeReason, TopicFilter as SubscriptionOptions, UnsubAck, Unsubscribe,
    UnsubscribeReason, Will,
};

fn connect(client_identifier: &str, clean_start: bool) -> Connect {
    Connect {
        protocol_name: "MQTT".to_string(),
        protocol_version: 5u8,
        client_identifier: client_identifier.to_string(),
        username: None,
        password: None,
        will: None,
        clean_start,
        keep_alive: 0u16,
        session_expiry_interval: None,
        receive_maximum: None,
        maximum_packet_size: None,
        topic_alias_maximum: None,
        request_response_information: None,
        request_problem_information: None,
        user_properties: None,
        authentication: None,
    }
}

fn publish(topic_name: &str, topic_alias: Option<u16>, qos: QoS, packet_identifier: Option<u16>) -> Publish {
    Publish {
        topic_name: topic_name.to_string(),
        payload: Payload::Unspecified(vec![1, 2, 3, 4]),
        qos,
        retain: false,
        topic_alias,
        subscription_identifier: None,
        content_type: None,
        correlation_data: None,
        duplicate: false,
        message_expiry_interval: None,
        response_topic: None,
        packet_identifier,
        user_properties: None,
    }
}

fn subscription(filter: &str, maximum_qos: QoS, retain_as_published: bool) -> ClientSubscription {
    ClientSubscription {
        topic_filter: TopicFilter::new(filter).unwrap(),
        subscription_identifier: Some(7),
        maximum_qos,
        retain_as_published,
    }
}

fn new_connection() -> Connection {
    Connection::new(MemorySession::new(Arc::new(())), MAX_TOPIC_ALIAS)
}

// ---------------------------------------------------------------------------
// Connecting
// ---------------------------------------------------------------------------

#[test]
fn handle_connect_server_assigned_client_identifier() {
    let packet = Some(Ok(MqttPacket::Connect(connect("", true))));
    match handle_connect(packet) {
        Ok((ClientIdentifier::ServerAssigned { client_identifier }, _connect)) => {
            assert!(!client_identifier.is_empty());
            assert!(client_identifier.chars().all(|c| c.is_ascii_digit()));
        },
        _ => assert!(false, "ClientIdentifier should be Normal and match."),
    }
}

#[test]
fn handle_connect_normal_client_identifier() {
    let packet = Some(Ok(MqttPacket::Connect(connect("test", true))));
    match handle_connect(packet) {
        Ok((ClientIdentifier::Normal { client_identifier }, _connect)) => assert_eq!("test", &client_identifier),
        _ => assert!(false, "ClientIdentifier should be Normal and match."),
    }
}

#[test]
fn handle_connect_first_packet_not_connect() {
    match handle_connect(Some(Ok(MqttPacket::PingReq))) {
        Err(HandleConnectError::ConnectNotFirstPacket) => {},
        _ => assert!(false, "Should return error since first packet was not Connect."),
    }
    assert!(matches!(handle_connect(None), Err(HandleConnectError::ConnectNotFirstPacket)));
    assert!(matches!(
        handle_connect(Some(Err(MqttPacketDecoderError::DecodingError))),
        Err(HandleConnectError::ConnectNotFirstPacket)
    ));
}

#[test]
fn assigned_identifier_is_decimal() {
    let id = assign_client_identifier(&String::new(), 1234567890123456789u128);
    assert_eq!(id.get_client_identifier(), "1234567890123456789");
    assert!(matches!(id, ClientIdentifier::ServerAssigned { .. }));
    let id = assign_client_identifier(&"me".to_string(), 5);
    assert_eq!(id.get_client_identifier(), "me");
}

#[test]
fn decimal_of_extremes() {
    assert_eq!(decimal_string(0), "0");
    assert_eq!(decimal_string(9), "9");
    assert_eq!(decimal_string(10), "10");
    assert_eq!(decimal_string(u128::MAX), u128::MAX.to_string());
}

#[test]
fn connect_and_connack() {
    let mut conn = new_connection();
    let (id, c) = handle_connect(Some(Ok(MqttPacket::Connect(connect("test", true))))).unwrap();
    let action = conn.on_connect(id, c);
    assert!(!action.take_over);
    assert!(conn.connected);
    assert!(!action.connack.session_present);
    assert_eq!(action.connack.maximum_qos, Some(QoS::AtMostOnce));
    assert_eq!(action.connack.assigned_client_identifier, None);
    assert_eq!(action.connack.server_keep_alive, Some(MAX_KEEP_ALIVE));
    assert_eq!(conn.keep_alive_secs, MAX_KEEP_ALIVE);
}

#[test]
fn connack_names_the_assigned_identifier_on_clean_start() {
    let id = ClientIdentifier::ServerAssigned { client_identifier: "42".to_string() };
    let connack = connack_for(true, id, None);
    assert_eq!(connack.assigned_client_identifier, Some("42".to_string()));
    let id = ClientIdentifier::ServerAssigned { client_identifier: "42".to_string() };
    let connack = connack_for(false, id, Some(60));
    assert_eq!(connack.assigned_client_identifier, None);
    assert_eq!(connack.maximum_qos, None);
    assert_eq!(connack.server_keep_alive, Some(60));
}

#[test]
fn multiple_connect_should_close_connection() {
    let mut conn = new_connection();
    let (id, c) = handle_connect(Some(Ok(MqttPacket::Connect(connect("test", true))))).unwrap();
    let _ = conn.on_connect(id, c);
    let action = conn.on_packet(&mut MemoryClusterStore::new(), MqttPacket::Connect(connect("test", true)));
    assert!(matches!(action, PacketAction::Close));
    assert!(!conn.connected);
}

#[test]
fn reconnect_takes_over_the_open_connection() {
    let mut conn = new_connection();
    let _ = conn.on_connect(ClientIdentifier::Normal { client_identifier: "a".to_string() }, connect("a", true));
    let action = conn.on_connect(ClientIdentifier::Normal { client_identifier: "a".to_string() }, connect("a", false));
    assert!(action.take_over);
    assert_eq!(take_over_disconnect().disconnect_reason, DisconnectReason::SessionTakenOver);
}

#[test]
fn keep_alive_is_bounded_by_the_server() {
    assert_eq!(server_keep_alive(0), Some(MAX_KEEP_ALIVE));
    assert_eq!(server_keep_alive(61), Some(MAX_KEEP_ALIVE));
    assert_eq!(server_keep_alive(60), None);
    assert_eq!(server_keep_alive(1), None);
}

#[test]
fn keep_alive_expires_after_one_and_a_half_periods() {
    assert_eq!(keep_alive_check(15_001, 10), KeepAliveCheck::Expired);
    assert_eq!(keep_alive_check(15_000, 10), KeepAliveCheck::WaitMillis(0));
    assert_eq!(keep_alive_check(4_000, 10), KeepAliveCheck::WaitMillis(11_000));
}

#[test]
fn ping_is_answered() {
    let mut conn = new_connection();
    let _ = conn.on_connect(ClientIdentifier::Normal { client_identifier: "p".to_string() }, connect("p", true));
    match conn.on_packet(&mut MemoryClusterStore::new(), MqttPacket::PingReq) {
        PacketAction::Send(v) => assert_eq!(v, vec![MqttPacket::PingResp]),
        _ => assert!(false),
    }
}

// ---------------------------------------------------------------------------
// Wills
// ---------------------------------------------------------------------------

fn will() -> Will {
    Will {
        retain: true,
        qos: QoS::AtLeastOnce,
        topic: "last/words".to_string(),
        payload: Payload::Unspecified(vec![9]),
        delay_interval: Some(5),
        message_expiry_interval: Some(30),
        content_type: None,
        response_topic: None,
        correlation_data: None,
        user_properties: None,
    }
}

#[test]
fn will_is_published_once_after_the_client_vanishes() {
    let mut conn = new_connection();
    let mut c = connect("w", true);
    c.will = Some(will());
    let _ = conn.on_connect(ClientIdentifier::Normal { client_identifier: "w".to_string() }, c);
    assert_eq!(conn.on_stream_end(), Some(5));
    let published = conn.on_will_timeout().expect("the will should be published");
    assert_eq!(published.topic_name, "last/words");
    assert_eq!(published.packet_identifier, None);
    assert!(published.retain);
    assert!(conn.on_will_timeout().is_none());
}

#[test]
fn normal_disconnect_discards_the_will() {
    let mut conn = new_connection();
    let mut c = connect("w", true);
    c.will = Some(will());
    let _ = conn.on_connect(ClientIdentifier::Normal { client_identifier: "w".to_string() }, c);
    let action = conn.on_packet(&mut MemoryClusterStore::new(), MqttPacket::Disconnect(mqtt_broker::types::Disconnect {
        disconnect_reason: DisconnectReason::NormalDisconnection,
        session_expiry_interval: None,
        reason_string: None,
        user_properties: None,
        server_reference: None,
    }));
    assert!(matches!(action, PacketAction::Close));
    assert!(conn.will.is_none());
    assert!(conn.on_will_timeout().is_none());
}

#[test]
fn will_becomes_a_publish() {
    let p = will_publish(will());
    assert_eq!(p.qos, QoS::AtLeastOnce);
    assert_eq!(p.message_expiry_interval, Some(30));
    assert_eq!(p.payload, Payload::Unspecified(vec![9]));
    assert!(!p.duplicate);
}

// ---------------------------------------------------------------------------
// PUBLISH
// ---------------------------------------------------------------------------

#[test]
fn publish_topic_alias_tests() {
    let mut handler = PublishHandler::new(MemoryClusterStore::new(), 1);
    let mut topic_alias_map: HashMap<u16, String> = HashMap::new();

    match handler.handle(&mut topic_alias_map, publish("foobar", Some(1), QoS::AtMostOnce, Some(1))).0 {
        PublishAction::Forward { publish, puback } => {
            assert_eq!(publish.topic_name, "foobar");
            assert!(puback.is_none());
        },
        _ => assert!(false),
    }
    assert_eq!(Some("foobar"), topic_alias_map.get(&1).map(|v| v.as_str()));

    match handler.handle(&mut topic_alias_map, publish("", Some(1), QoS::AtMostOnce, Some(2))).0 {
        PublishAction::Forward { publish, .. } => assert_eq!("foobar", &publish.topic_name),
        _ => assert!(false),
    }

    match handler.handle(&mut topic_alias_map, publish("rall", Some(2), QoS::AtMostOnce, Some(3))).0 {
        PublishAction::Refuse { disconnect, message } => {
            assert_eq!(DisconnectReason::TopicAliasInvalid, disconnect.disconnect_reason);
            assert_eq!(message, "'topic_alias' is or > MAX_TOPIC_ALIAS.");
        },
        _ => assert!(false, "max_topic_alias is 1 and the 2nd topic alias should therefore fail."),
    }
}

#[test]
fn publish_with_unknown_alias_and_no_name_is_refused() {
    let mut handler = PublishHandler::new(MemoryClusterStore::new(), 10);
    let mut topic_alias_map: HashMap<u16, String> = HashMap::new();
    match handler.handle(&mut topic_alias_map, publish("", Some(4), QoS::AtMostOnce, None)).0 {
        PublishAction::Refuse { disconnect, message } => {
            assert_eq!(disconnect.disconnect_reason, DisconnectReason::ProtocolError);
            assert_eq!(
                message,
                "Couldn't find the topic name from provided topic alias = 4 and no topic name was provided."
            );
        },
        _ => assert!(false),
    }
    match handler.handle(&mut topic_alias_map, publish("", None, QoS::AtMostOnce, None)).0 {
        PublishAction::Refuse { disconnect, message } => {
            assert_eq!(disconnect.disconnect_reason, DisconnectReason::ProtocolError);
            assert_eq!(message, "Neither topic alias nor topic name was provided.");
        },
        _ => assert!(false),
    }
    match handler.handle(&mut topic_alias_map, publish("x", Some(0), QoS::AtMostOnce, None)).0 {
        PublishAction::Refuse { disconnect, .. } => {
            assert_eq!(disconnect.disconnect_reason, DisconnectReason::TopicAliasInvalid)
        },
        _ => assert!(false),
    }
}

#[test]
fn publish_qos1_puback_test() {
    let mut handler = PublishHandler::new(MemoryClusterStore::new(), 1);
    let mut topic_alias_map: HashMap<u16, String> = HashMap::new();
    match handler.handle(&mut topic_alias_map, publish("foobar", None, QoS::AtLeastOnce, Some(1))).0 {
        PublishAction::Forward { publish, puback } => {
            assert_eq!(publish.topic_name, "foobar");
            let pub_ack = puback.expect("client_side should have received a PubAck.");
            assert_eq!(1, pub_ack.packet_identifier);
            assert_eq!(PubAckReason::Success, pub_ack.reason);
        },
        _ => assert!(false),
    }
    assert_eq!(0, topic_alias_map.len());
}

#[test]
fn retained_publish_is_kept_and_an_empty_one_removes_it() {
    let mut handler = PublishHandler::new(MemoryClusterStore::new(), 1);
    let mut topic_alias_map: HashMap<u16, String> = HashMap::new();
    let mut p = publish("a/b", None, QoS::AtMostOnce, None);
    p.retain = true;
    assert!(handler.handle(&mut topic_alias_map, p).1.is_ok());
    let found = handler.broker_store.get_retained(&TopicFilter::new("a/+").unwrap()).unwrap();
    assert_eq!(found.len(), 1);
    assert_eq!(found[0].topic_name, "a/b");

    let mut empty = publish("a/b", None, QoS::AtMostOnce, None);
    empty.retain = true;
    empty.payload = Payload::Unspecified(vec![]);
    assert!(handler.handle(&mut topic_alias_map, empty).1.is_ok());
    assert!(handler.broker_store.get_retained(&TopicFilter::new("#").unwrap()).unwrap().is_empty());

    let not_retained = publish("c", None, QoS::AtMostOnce, None);
    assert!(handler.handle(&mut topic_alias_map, not_retained).1.is_ok());
    assert!(handler.broker_store.get_retained(&TopicFilter::new("#").unwrap()).unwrap().is_empty());

    let mut refused = publish("", None, QoS::AtMostOnce, None);
    refused.retain = true;
    assert!(matches!(handler.handle(&mut topic_alias_map, refused), (PublishAction::Refuse { .. }, Ok(()))));
    assert!(handler.broker_store.get_retained(&TopicFilter::new("#").unwrap()).unwrap().is_empty());
}

#[test]
fn retained_publish_through_the_connection() {
    let mut conn = new_connection();
    let mut store = MemoryClusterStore::new();
    let _ = conn.on_connect(ClientIdentifier::Normal { client_identifier: "r".to_string() }, connect("r", true));
    let mut p = publish("t/r", None, QoS::AtMostOnce, None);
    p.retain = true;
    assert!(matches!(conn.on_packet(&mut store, MqttPacket::Publish(p)), PacketAction::ForwardPublish { .. }));
    assert_eq!(store.get_retained(&TopicFilter::new("t/#").unwrap()).unwrap().len(), 1);
}

// ---------------------------------------------------------------------------
// Retained messages
// ---------------------------------------------------------------------------

#[test]
fn store_replaces_by_topic_and_filters_on_get() {
    let mut store = MemoryClusterStore::new();
    let mut first = publish("x/1", None, QoS::AtMostOnce, None);
    first.payload = Payload::Unspecified(vec![1]);
    let mut second = publish("x/1", None, QoS::AtMostOnce, None);
    second.payload = Payload::Unspecified(vec![2]);
    store.replace_retained("x/1", first).unwrap();
    store.replace_retained("x/1", second).unwrap();
    store.replace_retained("y", publish("y", None, QoS::AtMostOnce, None)).unwrap();
    let xs = store.get_retained(&TopicFilter::new("x/#").unwrap()).unwrap();
    assert_eq!(xs.len(), 1);
    assert_eq!(xs[0].payload, Payload::Unspecified(vec![2]));
    assert_eq!(store.get_retained(&TopicFilter::new("#").unwrap()).unwrap().len(), 2);
    store.remove_retained("y").unwrap();
    store.remove_retained("absent").unwrap();
    assert_eq!(store.get_retained(&TopicFilter::new("#").unwrap()).unwrap().len(), 1);
}

// ---------------------------------------------------------------------------
// Sessions
// ---------------------------------------------------------------------------

#[test]
fn subscriptions_are_added_replaced_and_removed() {
    let mut session = MemorySession::new(Arc::new(()));
    assert_eq!(
        session.add_subscription("a/#".to_string(), subscription("a/#", QoS::AtMostOnce, false)).unwrap(),
        AddSubscriptionResult::New
    );
    assert_eq!(
        session.add_subscription("a/#".to_string(), subscription("a/#", QoS::AtLeastOnce, true)).unwrap(),
        AddSubscriptionResult::Replaced
    );
    let subs = session.get_subscriptions().unwrap();
    assert_eq!(subs.len(), 1);
    assert_eq!(subs[0].maximum_qos, QoS::AtLeastOnce);
    assert!(subs[0].retain_as_published);
    assert_eq!(session.remove_subscription("a/#".to_string()).unwrap(), Some(()));
    assert_eq!(session.remove_subscription("a/#".to_string()).unwrap(), None);
    assert!(session.get_subscriptions().unwrap().is_empty());
}

#[test]
fn atleastonce_messages_move_from_unsent_to_unacked_to_gone() {
    let mut session = MemorySession::new(Arc::new(()));
    assert_eq!(session.unacked_atleastonce(3), Err(SessionError::AtLeastOnceError));
    session.add_unsent_atleastonce(3, publish("t", None, QoS::AtLeastOnce, Some(3))).unwrap();
    assert_eq!(session.ack_atleastonce(3), Err(SessionError::AtLeastOnceError));
    assert_eq!(session.unacked_atleastonce(3), Ok(()));
    assert_eq!(session.unacked_atleastonce(3), Err(SessionError::AtLeastOnceError));
    assert_eq!(session.ack_atleastonce(3), Ok(()));
    assert_eq!(session.ack_atleastonce(3), Err(SessionError::AtLeastOnceError));
}

#[test]
fn end_timestamp_is_set_and_cleared() {
    let mut session = MemorySession::new(Arc::new(()));
    assert_eq!(session.get_endtimestamp().unwrap(), None);
    session.set_endtimestamp(Some(1_700_000_000_000)).unwrap();
    assert_eq!(session.get_endtimestamp().unwrap(), Some(&1_700_000_000_000));
    session.clear().unwrap();
    assert_eq!(session.get_endtimestamp().unwrap(), None);
    assert_eq!(SessionError::SessionAlreadyActive.message(), "SessionAlreadyActive");
}

// ---------------------------------------------------------------------------
// SUBSCRIBE and UNSUBSCRIBE
// ---------------------------------------------------------------------------

fn options(filter: &str, retain_handling: RetainHandling) -> SubscriptionOptions {
    SubscriptionOptions {
        filter: filter.to_string(),
        maximum_qos: QoS::AtLeastOnce,
        no_local: false,
        retain_as_published: false,
        retain_handling,
    }
}

#[test]
fn subscribe_sends_retained_messages_and_refuses_bad_filters() {
    let mut session = MemorySession::new(Arc::new(()));
    let mut store = MemoryClusterStore::new();
    let mut kept = publish("news/today", None, QoS::AtMostOnce, None);
    kept.retain = false;
    store.replace_retained("news/today", kept).unwrap();
    let subscribe = Subscribe {
        packet_identifier: 11,
        subscription_identifier: None,
        user_properties: None,
        topic_filters: vec![
            options("news/+", RetainHandling::SendRetained),
            options("bad#", RetainHandling::SendRetained),
            options("news/#", RetainHandling::DoNotSendRetained),
        ],
    };
    let (retained, suback) = handle_subscribe(&mut session, &mut store, subscribe).unwrap();
    assert_eq!(retained.len(), 1);
    assert!(retained[0].retain);
    assert_eq!(retained[0].topic_name, "news/today");
    assert_eq!(suback.packet_identifier, 11);
    assert_eq!(
        suback.reasons,
        vec![SubscribeReason::GrantedQoS0, SubscribeReason::UnspecifiedError, SubscribeReason::GrantedQoS0]
    );
    assert_eq!(session.get_subscriptions().unwrap().len(), 2);

    // Retained messages for a new subscription only are not sent again once it exists.
    let again = Subscribe {
        packet_identifier: 12,
        subscription_identifier: None,
        user_properties: None,
        topic_filters: vec![options("news/+", RetainHandling::SendRetainedForNewSubscription)],
    };
    let (retained, _) = handle_subscribe(&mut session, &mut store, again).unwrap();
    assert!(retained.is_empty());
}

#[test]
fn unsubscribe_reports_each_filter() {
    let mut session = MemorySession::new(Arc::new(()));
    session.add_subscription("a".to_string(), subscription("a", QoS::AtMostOnce, false)).unwrap();
    let unsuback = handle_unsubscribe(
        &mut session,
        Unsubscribe { packet_identifier: 4, topic_filters: vec!["a".to_string(), "b".to_string(), "a".to_string()], user_properties: None },
    );
    assert_eq!(
        unsuback,
        UnsubAck {
            packet_identifier: 4,
            reason_string: None,
            user_properties: None,
            reasons: vec![
                UnsubscribeReason::Success,
                UnsubscribeReason::NoSubscriptionExisted,
                UnsubscribeReason::NoSubscriptionExisted,
            ],
        }
    );
}

// ---------------------------------------------------------------------------
// Forwarding
// ---------------------------------------------------------------------------

#[test]
fn forwarded_publish_takes_the_lower_qos_and_the_retain_option() {
    let mut p = publish("a/b", Some(3), QoS::AtLeastOnce, Some(9));
    p.retain = true;
    p.message_expiry_interval = Some(100);
    let f = forward_publish(&subscription("a/+", QoS::AtMostOnce, true), &p, 40).unwrap();
    assert_eq!(f.qos, QoS::AtMostOnce);
    assert_eq!(f.packet_identifier, None);
    assert!(f.retain);
    assert_eq!(f.topic_alias, None);
    assert_eq!(f.message_expiry_interval, Some(60));
    assert_eq!(f.subscription_identifier, Some(7));

    let f = forward_publish(&subscription("a/+", QoS::ExactlyOnce, false), &p, 0).unwrap();
    assert_eq!(f.qos, QoS::AtLeastOnce);
    assert_eq!(f.packet_identifier, Some(9));
    assert!(!f.retain);

    assert!(forward_publish(&subscription("b/#", QoS::ExactlyOnce, false), &p, 0).is_none());
}

// ---------------------------------------------------------------------------
// Framing
// ---------------------------------------------------------------------------

#[test]
fn decoder_waits_for_whole_packets() {
    let mut decoder = MqttPacketDecoder {};
    assert!(matches!(decoder.decode(&[0b1100_0000u8]), Ok(None)));
    assert!(matches!(decoder.decode(&[0b0011_0000u8, 4u8, 0u8]), Ok(None)));
    let mut buffer = Vec::new();
    decoder.encode(MqttPacket::PingReq, &mut buffer).unwrap();
    decoder.encode(MqttPacket::PingResp, &mut buffer).unwrap();
    match decoder.decode(&buffer) {
        Ok(Some((packet, used))) => {
            assert_eq!(packet, MqttPacket::PingReq);
            assert_eq!(used, 2);
        },
        _ => assert!(false),
    }
    assert!(matches!(decoder.decode(&[0b1111_0000u8, 0u8]), Err(MqttPacketDecoderError::DecodingError)));
}

#[test]
fn encoded_publish_decodes_back() {
    let p = publish("round/trip", None, QoS::AtLeastOnce, Some(77));
    let bytes = encode(&MqttPacket::Publish(p.clone()));
    let mut decoder = MqttPacketDecoder {};
    match decoder.decode(&bytes) {
        Ok(Some((packet, used))) => {
            assert_eq!(packet, MqttPacket::Publish(p));
            assert_eq!(used, bytes.len());
        },
        _ => assert!(false),
    }
}

// ---------------------------------------------------------------------------
// Sessions of clients
// ---------------------------------------------------------------------------

#[test]
fn provider_refuses_a_second_live_session() {
    let mut provider = MemorySessionProvider::new();
    let first = provider.get("client").expect("a fresh session");
    assert!(matches!(provider.get("client"), Err(SessionError::SessionAlreadyActive)));
    assert!(provider.get("other").is_ok());
    drop(first);
    assert!(provider.get("client").is_ok());
}

#[test]
fn connect_goes_to_the_running_task() {
    assert_eq!(route_connection(true, false), ConnectionRoute::Existing);
    assert_eq!(route_connection(true, true), ConnectionRoute::New);
    assert_eq!(route_connection(false, true), ConnectionRoute::New);
}

#[test]
fn subscribe_and_unsubscribe_through_the_connection() {
    let mut conn = new_connection();
    let mut store = MemoryClusterStore::new();
    let _ = conn.on_connect(ClientIdentifier::Normal { client_identifier: "s".to_string() }, connect("s", true));
    let subscribe = Subscribe {
        packet_identifier: 2,
        subscription_identifier: Some(5),
        user_properties: None,
        topic_filters: vec![options("x/#", RetainHandling::SendRetained)],
    };
    match conn.on_packet(&mut store, MqttPacket::Subscribe(subscribe)) {
        PacketAction::Send(v) => {
            assert_eq!(v.len(), 1);
            assert!(matches!(&v[0], MqttPacket::SubAck(s) if s.packet_identifier == 2 && s.reasons == vec![SubscribeReason::GrantedQoS0]));
        },
        _ => assert!(false),
    }
    let subs = conn.session.get_subscriptions().unwrap();
    assert_eq!(subs.len(), 1);
    assert_eq!(subs[0].subscription_identifier, Some(5));
    match conn.on_packet(
        &mut store,
        MqttPacket::Unsubscribe(Unsubscribe { packet_identifier: 3, topic_filters: vec!["x/#".to_string()], user_properties: None }),
    ) {
        PacketAction::Send(v) => {
            assert_eq!(
                v,
                vec![MqttPacket::UnsubAck(UnsubAck {
                    packet_identifier: 3,
                    reason_string: None,
                    user_properties: None,
                    reasons: vec![UnsubscribeReason::Success],
                })]
            );
        },
        _ => assert!(false),
    }
    assert!(conn.session.get_subscriptions().unwrap().is_empty());
}

#[test]
fn forwards_follow_the_subscriptions() {
    let mut session = MemorySession::new(Arc::new(()));
    session.add_subscription("a/+".to_string(), subscription("a/+", QoS::AtMostOnce, false)).unwrap();
    session.add_subscription("b".to_string(), subscription("b", QoS::AtMostOnce, false)).unwrap();
    let mut p = publish("a/z", None, QoS::AtMostOnce, None);
    p.message_expiry_interval = Some(5);
    assert!(forwards_defined(&session, &p, 3));
    let out = forwards_for(&session, &p, 3);
    assert_eq!(out.len(), 1);
    assert_eq!(out[0].message_expiry_interval, Some(2));
    assert!(!forwards_defined(&session, &p, 6));
    let unmatched = publish("c", None, QoS::AtMostOnce, None);
    assert!(forwards_for(&session, &unmatched, 0).is_empty());
}

#[test]
fn publish_with_alias_through_the_connection() {
    let mut conn = new_connection();
    let mut store = MemoryClusterStore::new();
    let _ = conn.on_connect(ClientIdentifier::Normal { client_identifier: "p".to_string() }, connect("p", true));
    match conn.on_packet(&mut store, MqttPacket::Publish(publish("t/1", Some(2), QoS::AtMostOnce, None))) {
        PacketAction::ForwardPublish { publish, puback, retained } => {
            assert_eq!(publish.topic_name, "t/1");
            assert!(puback.is_none());
            assert!(retained.is_ok());
        },
        _ => assert!(false),
    }
    match conn.on_packet(&mut store, MqttPacket::Publish(publish("", Some(11), QoS::AtMostOnce, None))) {
        PacketAction::RefusePublish { disconnect, .. } => {
            assert_eq!(disconnect.disconnect_reason, DisconnectReason::TopicAliasInvalid)
        },
        _ => assert!(false),
    }
    assert!(!conn.connected);
}

#[test]
fn error_texts() {
    assert_eq!(HandleConnectError::ConnectTimeoutError.message(), "something happened during connection.");
    assert_eq!(MqttPacketDecoderError::DecodingError.message(), "MqttPacketDecoderError: unknown.");
    match TopicFilter::new("a+") {
        Err(e) => assert_eq!(e.message(), "A segment can't contain '+' nor '#'."),
        Ok(_) => assert!(false),
    }
}

#[test]
fn unsupported_packets_are_told_apart_from_malformed_ones() {
    let decoder = MqttPacketDecoder {};
    assert!(decoder.unsupported_input(&[0b0101_0000u8, 2u8, 0u8, 1u8]));
    assert!(!decoder.unsupported_input(&[0b1111_0000u8, 0u8]));
    assert!(!decoder.unsupported_input(&[0b1100_0000u8, 0u8]));
}

#[test]
fn session_in_use_needs_a_second_holder() {
    assert!(!session_in_use(1));
    assert!(session_in_use(2));
    assert!(!session_in_use(0));
}

#[test]
fn provider_hands_out_again_once_the_session_is_dropped() {
    let mut provider = MemorySessionProvider::new();
    let first = provider.get("c").expect("first session");
    assert!(matches!(provider.get("c"), Err(SessionError::SessionAlreadyActive)));
    drop(first);
    assert!(provider.get("c").is_ok());
}

#[test]
fn clean_start_discards_the_session() {
    let mut conn = new_connection();
    let _ = conn.on_connect(ClientIdentifier::Normal { client_identifier: "k".to_string() }, connect("k", true));
    conn.session.add_subscription("a/b".to_string(), subscription("a/b", QoS::AtLeastOnce, false)).unwrap();
    conn.session.add_unsent_atleastonce(3, publish("a/b", None, QoS::AtLeastOnce, Some(3))).unwrap();
    conn.connected = false;
    let _ = conn.on_connect(ClientIdentifier::Normal { client_identifier: "k".to_string() }, connect("k", false));
    assert_eq!(conn.session.get_subscriptions().unwrap().len(), 1);
    conn.connected = false;
    let _ = conn.on_connect(ClientIdentifier::Normal { client_identifier: "k".to_string() }, connect("k", true));
    assert!(conn.session.get_subscriptions().unwrap().is_empty());
    assert!(conn.session.unacked_atleastonce(3).is_err());
}

#[test]
fn forwarded_qos1_is_queued_while_away_and_sent_otherwise() {
    let mut conn = new_connection();
    assert!(!conn.connected);
    assert!(conn.on_forward(publish("a", None, QoS::AtLeastOnce, Some(4))).is_none());
    assert!(conn.on_forward(publish("a", None, QoS::AtMostOnce, None)).is_none());
    assert!(conn.on_forward_sent(QoS::AtLeastOnce, Some(4)).is_ok());
    assert!(conn.on_forward_sent(QoS::AtLeastOnce, Some(4)).is_err());
    assert!(conn.session.ack_atleastonce(4).is_ok());
    let _ = conn.on_connect(ClientIdentifier::Normal { client_identifier: "f".to_string() }, connect("f", false));
    let back = conn.on_forward(publish("a", None, QoS::AtLeastOnce, Some(5))).expect("handed back to be sent");
    assert_eq!(back.packet_identifier, Some(5));
    assert!(conn.on_forward_sent(QoS::AtMostOnce, None).is_ok());
    assert!(matches!(conn.on_forward_sent(QoS::AtLeastOnce, Some(5)), Err(SessionError::AtLeastOnceError)));
}

#[test]
fn retained_store_after_a_sequence_of_changes() {
    let mut store = MemoryClusterStore::new();
    store.replace_retained("s/1", publish("s/1", None, QoS::AtMostOnce, None)).unwrap();
    store.replace_retained("s/2", publish("s/2", None, QoS::AtMostOnce, None)).unwrap();
    let mut newer = publish("s/1", None, QoS::AtMostOnce, None);
    newer.payload = Payload::Unspecified(vec![7]);
    store.replace_retained("s/1", newer).unwrap();
    store.remove_retained("s/2").unwrap();
    store.replace_retained("t", publish("t", None, QoS::AtMostOnce, None)).unwrap();
    let found = store.get_retained(&TopicFilter::new("s/+").unwrap()).unwrap();
    assert_eq!(found.len(), 1);
    assert_eq!(found[0].payload, Payload::Unspecified(vec![7]));
}

#[test]
fn puback_is_encoded_for_the_client() {
    let mut handler = PublishHandler::new(MemoryClusterStore::new(), 1);
    let mut topic_alias_map: HashMap<u16, String> = HashMap::new();
    match handler.handle(&mut topic_alias_map, publish("q", None, QoS::AtLeastOnce, Some(9))).0 {
        PublishAction::Forward { puback: Some(puback), .. } => {
            assert_eq!(encode(&MqttPacket::PubAck(puback)), vec![0x40u8, 4u8, 0u8, 9u8, 0u8, 0u8]);
        },
        _ => assert!(false, "client_side should have received a PubAck."),
    }
}
