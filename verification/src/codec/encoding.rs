//! Encoding of control packets: a fixed header (packet type and flags, then the remaining
//! length), a variable header and a payload.
use vstd::prelude::*;
use crate::codec::primitives::{
    encode_binary, encode_string, encode_variable_u32, push_all, spec_encode_binary,
    spec_encode_string, spec_encode_varint, spec_u16_be, u16_to_be_bytes, utf8_bytes,
};
use crate::codec::properties::{bool_byte, encode_properties, encode_qos, spec_encode_properties};
use crate::types::{
    bytes_view, clone_opt_bytes, clone_opt_string, clone_opt_user_properties, empty_properties,
    qos_level, ConnAck, ConnAckModel, Connect, ConnectModel, ConnectReason, Disconnect,
    DisconnectModel, DisconnectReason, MqttPacket, MqttPacketModel, Payload, PayloadModel,
    Properties, PropertiesModel, PubAck, PubAckModel, PubAckReason, Publish, PublishModel, QoS, RetainHandling, SubAck, SubAckModel,
    Subscribe, SubscribeModel, SubscribeReason, TopicFilterModel, UnsubAck, UnsubAckModel,
    Unsubscribe, UnsubscribeModel, UnsubscribeReason, WillModel,
};

verus! {

// ---------------------------------------------------------------------------
// Reason codes
// ---------------------------------------------------------------------------

/// The code of a CONNACK reason.
pub open spec fn connect_reason_code(r: ConnectReason) -> u8 {
    match r {
        ConnectReason::Success => 0,
        ConnectReason::UnspecifiedError => 128,
        ConnectReason::MalformedPacket => 129,
        ConnectReason::ProtocolError => 130,
        ConnectReason::ImplementationSpecificError => 131,
        ConnectReason::UnsupportedProtocolVersion => 132,
        ConnectReason::ClientIdentifierNotValid => 133,
        ConnectReason::BadUserNameOrPassword => 134,
        ConnectReason::NotAuthorized => 135,
        ConnectReason::ServerUnavailable => 136,
        ConnectReason::ServerBusy => 137,
        ConnectReason::Banned => 138,
        ConnectReason::BadAuthenticationMethod => 140,
        ConnectReason::TopicNameInvalid => 144,
        ConnectReason::PacketTooLarge => 149,
        ConnectReason::QuotaExceeded => 151,
        ConnectReason::PayloadFormatInvalid => 153,
        ConnectReason::RetainNotSupported => 154,
        ConnectReason::QoSNotSupported => 155,
        ConnectReason::UseAnotherServer => 156,
        ConnectReason::ServerMoved => 157,
        ConnectReason::ConnectionRateExceeded => 159,
    }
}

/// The code of a PUBACK reason.
pub open spec fn puback_reason_code(r: PubAckReason) -> u8 {
    match r {
        PubAckReason::Success => 0,
        PubAckReason::NoMatchingSubscribers => 16,
        PubAckReason::UnspecifiedError => 128,
        PubAckReason::ImplementationSpecificError => 131,
        PubAckReason::NotAuthorized => 135,
        PubAckReason::TopicNameInvalid => 144,
        PubAckReason::PacketIdentifierInUse => 145,
        PubAckReason::QuotaExceeded => 151,
        PubAckReason::PayloadFormatInvalid => 153,
    }
}

fn encode_puback_reason(reason: &PubAckReason) -> (res: u8)
    ensures
        res == puback_reason_code(*reason),
{
    match reason {
        PubAckReason::Success => 0,
        PubAckReason::NoMatchingSubscribers => 16,
        PubAckReason::UnspecifiedError => 128,
        PubAckReason::ImplementationSpecificError => 131,
        PubAckReason::NotAuthorized => 135,
        PubAckReason::TopicNameInvalid => 144,
        PubAckReason::PacketIdentifierInUse => 145,
        PubAckReason::QuotaExceeded => 151,
        PubAckReason::PayloadFormatInvalid => 153,
    }
}

/// The code of a DISCONNECT reason.
pub open spec fn disconnect_reason_code(r: DisconnectReason) -> u8 {
    match r {
        DisconnectReason::NormalDisconnection => 0,
        DisconnectReason::ProtocolError => 130,
        DisconnectReason::SessionTakenOver => 142,
        DisconnectReason::TopicAliasInvalid => 148,
    }
}

/// The code of an UNSUBACK reason.
pub open spec fn unsubscribe_reason_code(r: UnsubscribeReason) -> u8 {
    match r {
        UnsubscribeReason::Success => 0,
        UnsubscribeReason::NoSubscriptionExisted => 17,
        UnsubscribeReason::UnspecifiedError => 128,
        UnsubscribeReason::ImplementationSpecificError => 131,
        UnsubscribeReason::NotAuthorized => 135,
        UnsubscribeReason::TopicFilterInvalid => 143,
        UnsubscribeReason::PacketIdentifierInUse => 145,
    }
}

/// The code of a SUBACK reason.
pub open spec fn subscribe_reason_code(r: SubscribeReason) -> u8 {
    match r {
        SubscribeReason::GrantedQoS0 => 0,
        SubscribeReason::UnspecifiedError => 128,
    }
}

/// The number of a retain handling option.
pub open spec fn retain_handling_code(r: RetainHandling) -> u8 {
    match r {
        RetainHandling::SendRetained => 0,
        RetainHandling::SendRetainedForNewSubscription => 1,
        RetainHandling::DoNotSendRetained => 2,
    }
}

/// The code of a CONNACK reason.
pub fn encode_connect_reason(reason: &ConnectReason) -> (res: u8)
    ensures
        res == connect_reason_code(*reason),
{
    match reason {
        ConnectReason::Success => 0,
        ConnectReason::UnspecifiedError => 128,
        ConnectReason::MalformedPacket => 129,
        ConnectReason::ProtocolError => 130,
        ConnectReason::ImplementationSpecificError => 131,
        ConnectReason::UnsupportedProtocolVersion => 132,
        ConnectReason::ClientIdentifierNotValid => 133,
        ConnectReason::BadUserNameOrPassword => 134,
        ConnectReason::NotAuthorized => 135,
        ConnectReason::ServerUnavailable => 136,
        ConnectReason::ServerBusy => 137,
        ConnectReason::Banned => 138,
        ConnectReason::BadAuthenticationMethod => 140,
        ConnectReason::TopicNameInvalid => 144,
        ConnectReason::PacketTooLarge => 149,
        ConnectReason::QuotaExceeded => 151,
        ConnectReason::PayloadFormatInvalid => 153,
        ConnectReason::RetainNotSupported => 154,
        ConnectReason::QoSNotSupported => 155,
        ConnectReason::UseAnotherServer => 156,
        ConnectReason::ServerMoved => 157,
        ConnectReason::ConnectionRateExceeded => 159,
    }
}

fn encode_disconnect_reason(reason: &DisconnectReason) -> (res: u8)
    ensures
        res == disconnect_reason_code(*reason),
{
    match reason {
        DisconnectReason::NormalDisconnection => 0,
        DisconnectReason::ProtocolError => 130,
        DisconnectReason::SessionTakenOver => 142,
        DisconnectReason::TopicAliasInvalid => 148,
    }
}

fn encode_unsubscribe_reason(reason: &UnsubscribeReason) -> (res: u8)
    ensures
        res == unsubscribe_reason_code(*reason),
{
    match reason {
        UnsubscribeReason::Success => 0,
        UnsubscribeReason::NoSubscriptionExisted => 17,
        UnsubscribeReason::UnspecifiedError => 128,
        UnsubscribeReason::ImplementationSpecificError => 131,
        UnsubscribeReason::NotAuthorized => 135,
        UnsubscribeReason::TopicFilterInvalid => 143,
        UnsubscribeReason::PacketIdentifierInUse => 145,
    }
}

fn encode_subscribe_reason(reason: &SubscribeReason) -> (res: u8)
    ensures
        res == subscribe_reason_code(*reason),
{
    match reason {
        SubscribeReason::GrantedQoS0 => 0,
        SubscribeReason::UnspecifiedError => 128,
    }
}

// ---------------------------------------------------------------------------
// Packet layouts
// ---------------------------------------------------------------------------

/// A packet: its first byte, the length of the rest (taken as a `u32`) as a Variable Byte
/// Integer, then the rest.
pub open spec fn spec_packet(first: u8, rest: Seq<u8>) -> Seq<u8> {
    seq![first] + spec_encode_varint((rest.len() as u32) as nat) + rest
}

/// The bytes of the reasons of an UNSUBACK, one per reason.
pub open spec fn unsubscribe_reason_bytes(rs: Seq<UnsubscribeReason>) -> Seq<u8> {
    rs.map_values(|r: UnsubscribeReason| unsubscribe_reason_code(r))
}

/// The bytes of the reasons of a SUBACK, one per reason.
pub open spec fn subscribe_reason_bytes(rs: Seq<SubscribeReason>) -> Seq<u8> {
    rs.map_values(|r: SubscribeReason| subscribe_reason_code(r))
}

/// The subscription options byte of a topic filter.
pub open spec fn subscription_options(tf: TopicFilterModel) -> u8 {
    (retain_handling_code(tf.retain_handling) * 16 + (if tf.retain_as_published {
        8int
    } else {
        0int
    }) + (if tf.no_local {
        4int
    } else {
        0int
    }) + qos_level(tf.maximum_qos)) as u8
}

/// The topic filters of a SUBSCRIBE, each as a string and its options byte.
pub open spec fn topic_filters_bytes(fs: Seq<TopicFilterModel>) -> Seq<u8>
    decreases fs.len(),
{
    if fs.len() == 0 {
        Seq::empty()
    } else {
        topic_filters_bytes(fs.drop_last()) + spec_encode_string(fs.last().filter) + seq![
            subscription_options(fs.last()),
        ]
    }
}

/// The topic filters of an UNSUBSCRIBE, each as a string.
pub open spec fn strings_bytes(ss: Seq<Seq<char>>) -> Seq<u8>
    decreases ss.len(),
{
    if ss.len() == 0 {
        Seq::empty()
    } else {
        strings_bytes(ss.drop_last()) + spec_encode_string(ss.last())
    }
}

/// The bytes of a payload: the bytes themselves, or the UTF-8 form of a string payload.
pub open spec fn payload_bytes(p: PayloadModel) -> Seq<u8> {
    match p {
        PayloadModel::Unspecified(b) => b,
        PayloadModel::String(s) => utf8_bytes(s),
    }
}

/// The Payload Format Indicator that goes with a payload: 1 for a string payload, none
/// for unspecified bytes.
pub open spec fn payload_format(p: PayloadModel) -> Option<u8> {
    match p {
        PayloadModel::Unspecified(_) => None,
        PayloadModel::String(_) => Some(1),
    }
}

pub open spec fn unsuback_properties(u: UnsubAckModel) -> PropertiesModel {
    PropertiesModel {
        reason_string: u.reason_string,
        user_properties: u.user_properties,
        ..empty_properties()
    }
}

pub open spec fn suback_properties(u: SubAckModel) -> PropertiesModel {
    PropertiesModel {
        reason_string: u.reason_string,
        user_properties: u.user_properties,
        ..empty_properties()
    }
}

pub open spec fn puback_properties(p: PubAckModel) -> PropertiesModel {
    PropertiesModel {
        reason_string: p.reason_string,
        user_properties: p.user_properties,
        ..empty_properties()
    }
}

pub open spec fn disconnect_properties(d: DisconnectModel) -> PropertiesModel {
    PropertiesModel {
        session_expiry_interval: d.session_expiry_interval,
        reason_string: d.reason_string,
        user_properties: d.user_properties,
        server_reference: d.server_reference,
        ..empty_properties()
    }
}

pub open spec fn connack_properties(c: ConnAckModel) -> PropertiesModel {
    PropertiesModel {
        session_expiry_interval: c.session_expiry_interval,
        receive_maximum: c.receive_maximum,
        maximum_qos: c.maximum_qos,
        retain_available: c.retain_available,
        maximum_packet_size: c.maximum_packet_size,
        assigned_client_identifier: c.assigned_client_identifier,
        topic_alias_maximum: c.topic_alias_maximum,
        reason_string: c.reason_string,
        user_properties: c.user_properties,
        server_keep_alive: c.server_keep_alive,
        ..empty_properties()
    }
}

pub open spec fn subscribe_properties(s: SubscribeModel) -> PropertiesModel {
    PropertiesModel {
        subscription_identifier: s.subscription_identifier,
        user_properties: s.user_properties,
        ..empty_properties()
    }
}

pub open spec fn unsubscribe_properties(u: UnsubscribeModel) -> PropertiesModel {
    PropertiesModel { user_properties: u.user_properties, ..empty_properties() }
}

pub open spec fn publish_properties(p: PublishModel) -> PropertiesModel {
    PropertiesModel {
        payload_format_indicator: payload_format(p.payload),
        message_expiry_interval: p.message_expiry_interval,
        topic_alias: p.topic_alias,
        response_topic: p.response_topic,
        correlation_data: p.correlation_data,
        user_properties: p.user_properties,
        subscription_identifier: p.subscription_identifier,
        content_type: p.content_type,
        ..empty_properties()
    }
}

pub open spec fn connect_properties(c: ConnectModel) -> PropertiesModel {
    PropertiesModel {
        session_expiry_interval: c.session_expiry_interval,
        receive_maximum: c.receive_maximum,
        maximum_packet_size: c.maximum_packet_size,
        topic_alias_maximum: c.topic_alias_maximum,
        request_response_information: c.request_response_information,
        request_problem_information: c.request_problem_information,
        user_properties: c.user_properties,
        ..empty_properties()
    }
}

pub open spec fn will_properties(w: WillModel) -> PropertiesModel {
    PropertiesModel {
        will_delay_interval: w.delay_interval,
        payload_format_indicator: payload_format(w.payload),
        message_expiry_interval: w.message_expiry_interval,
        content_type: w.content_type,
        response_topic: w.response_topic,
        correlation_data: w.correlation_data,
        user_properties: w.user_properties,
        ..empty_properties()
    }
}

pub open spec fn spec_encode_unsuback(u: UnsubAckModel) -> Seq<u8> {
    spec_packet(
        0xb0,
        spec_u16_be(u.packet_identifier) + spec_encode_properties(unsuback_properties(u))
            + unsubscribe_reason_bytes(u.reasons),
    )
}

/// A PUBACK: the packet identifier, the reason code and the properties.
pub open spec fn spec_encode_puback(p: PubAckModel) -> Seq<u8> {
    spec_packet(
        0x40,
        spec_u16_be(p.packet_identifier) + seq![puback_reason_code(p.reason)] + spec_encode_properties(
            puback_properties(p),
        ),
    )
}

pub open spec fn spec_encode_disconnect(d: DisconnectModel) -> Seq<u8> {
    spec_packet(
        0xe0,
        seq![disconnect_reason_code(d.disconnect_reason)] + spec_encode_properties(
            disconnect_properties(d),
        ),
    )
}

pub open spec fn spec_encode_connack(c: ConnAckModel) -> Seq<u8> {
    spec_packet(
        0x20,
        seq![bool_byte(c.session_present), connect_reason_code(c.connect_reason)]
            + spec_encode_properties(connack_properties(c)),
    )
}

pub open spec fn spec_encode_subscribe(s: SubscribeModel) -> Seq<u8> {
    spec_packet(
        0x82,
        spec_u16_be(s.packet_identifier) + spec_encode_properties(subscribe_properties(s))
            + topic_filters_bytes(s.topic_filters),
    )
}

pub open spec fn spec_encode_unsubscribe(u: UnsubscribeModel) -> Seq<u8> {
    spec_packet(
        0xa0,
        spec_u16_be(u.packet_identifier) + spec_encode_properties(unsubscribe_properties(u))
            + strings_bytes(u.topic_filters),
    )
}

pub open spec fn spec_encode_suback(s: SubAckModel) -> Seq<u8> {
    spec_packet(
        0x90,
        spec_u16_be(s.packet_identifier) + spec_encode_properties(suback_properties(s))
            + subscribe_reason_bytes(s.reasons),
    )
}

/// The first byte of a PUBLISH: packet type 3, then DUP, QoS and RETAIN.
pub open spec fn publish_first_byte(p: PublishModel) -> u8 {
    (0x30 + (if p.duplicate {
        8int
    } else {
        0int
    }) + 2 * qos_level(p.qos) + (if p.retain {
        1int
    } else {
        0int
    })) as u8
}

pub open spec fn spec_encode_publish(p: PublishModel) -> Seq<u8> {
    spec_packet(
        publish_first_byte(p),
        spec_encode_string(p.topic_name) + (match p.packet_identifier {
            Some(id) => spec_u16_be(id),
            None => Seq::empty(),
        }) + spec_encode_properties(publish_properties(p)) + payload_bytes(p.payload),
    )
}

/// The connect flags of a CONNECT.
pub open spec fn connect_flags(c: ConnectModel) -> u8 {
    ((if c.username is Some {
        128int
    } else {
        0int
    }) + (if c.password is Some {
        64int
    } else {
        0int
    }) + (match c.will {
        Some(w) => 4 + (if w.retain {
            32int
        } else {
            0int
        }) + 8 * qos_level(w.qos),
        None => 0int,
    }) + (if c.clean_start {
        2int
    } else {
        0int
    })) as u8
}

/// The variable header of a CONNECT: protocol name "MQTT", version 5, flags, keep alive, properties.
pub open spec fn connect_variable_header(c: ConnectModel) -> Seq<u8> {
    seq![0u8, 4u8, 77u8, 81u8, 84u8, 84u8, 5u8, connect_flags(c)] + spec_u16_be(c.keep_alive)
        + spec_encode_properties(connect_properties(c))
}

/// The payload of a CONNECT: client identifier, will (properties, topic and payload),
/// user name and password.
pub open spec fn connect_payload(c: ConnectModel) -> Seq<u8> {
    spec_encode_string(c.client_identifier) + (match c.will {
        Some(w) => spec_encode_properties(will_properties(w)) + spec_encode_string(w.topic)
            + spec_encode_binary(payload_bytes(w.payload)),
        None => Seq::empty(),
    }) + (match c.username {
        Some(u) => spec_encode_string(u),
        None => Seq::empty(),
    }) + (match c.password {
        Some(pw) => spec_encode_binary(pw),
        None => Seq::empty(),
    })
}

pub open spec fn spec_encode_connect(c: ConnectModel) -> Seq<u8> {
    spec_packet(0x10, connect_variable_header(c) + connect_payload(c))
}

/// Whether `encode` handles a packet (it does not handle PUBREC, PUBREL, PUBCOMP and AUTH).
pub open spec fn encodable(p: MqttPacketModel) -> bool {
    !(p is PubRec || p is PubRel || p is PubComp || p is Auth)
}

/// The encoding of a packet.
pub open spec fn spec_encode(p: MqttPacketModel) -> Seq<u8> {
    match p {
        MqttPacketModel::PingResp => seq![0xd0u8, 0u8],
        MqttPacketModel::PingReq => seq![0xc0u8, 0u8],
        MqttPacketModel::ConnAck(c) => spec_encode_connack(c),
        MqttPacketModel::Publish(x) => spec_encode_publish(x),
        MqttPacketModel::Subscribe(x) => spec_encode_subscribe(x),
        MqttPacketModel::SubAck(x) => spec_encode_suback(x),
        MqttPacketModel::Connect(x) => spec_encode_connect(x),
        MqttPacketModel::Unsubscribe(x) => spec_encode_unsubscribe(x),
        MqttPacketModel::UnsubAck(x) => spec_encode_unsuback(x),
        MqttPacketModel::Disconnect(x) => spec_encode_disconnect(x),
        MqttPacketModel::PubAck(x) => spec_encode_puback(x),
        _ => Seq::empty(),
    }
}

// ---------------------------------------------------------------------------
// Encoders
// ---------------------------------------------------------------------------

/// Frames `rest` as a packet with first byte `first`.
fn finish_packet(first: u8, rest: &Vec<u8>) -> (res: Vec<u8>)
    ensures
        res@ == spec_packet(first, rest@),
{
    let mut result: Vec<u8> = Vec::new();
    result.push(first);
    let len = encode_variable_u32(rest.len() as u32);
    push_all(&mut result, len.as_slice());
    push_all(&mut result, rest.as_slice());
    result
}

fn encode_unsuback(unsuback: &UnsubAck) -> (res: Vec<u8>)
    ensures
        res@ == spec_encode_unsuback(unsuback.deep_view()),
{
    let mut body = u16_to_be_bytes(unsuback.packet_identifier);
    let mut properties = Properties::new();
    properties.reason_string = clone_opt_string(&unsuback.reason_string);
    properties.user_properties = clone_opt_user_properties(&unsuback.user_properties);
    assert(properties.deep_view() == unsuback_properties(unsuback.deep_view()));
    let p = encode_properties(&properties);
    push_all(&mut body, p.as_slice());
    let ghost start = body@;
    let mut i: usize = 0;
    while i < unsuback.reasons.len()
        invariant
            i <= unsuback.reasons@.len(),
            body@ == start + unsubscribe_reason_bytes(unsuback.reasons@.take(i as int)),
        decreases unsuback.reasons@.len() - i,
    {
        body.push(encode_unsubscribe_reason(&unsuback.reasons[i]));
        assert(unsubscribe_reason_bytes(unsuback.reasons@.take(i + 1)) == unsubscribe_reason_bytes(
            unsuback.reasons@.take(i as int),
        ).push(unsubscribe_reason_code(unsuback.reasons@[i as int])));
        i = i + 1;
    }
    assert(unsuback.reasons@.take(i as int) == unsuback.reasons@);
    finish_packet(0xb0, &body)
}

fn encode_puback(puback: &PubAck) -> (res: Vec<u8>)
    ensures
        res@ == spec_encode_puback(puback.deep_view()),
{
    let mut body = u16_to_be_bytes(puback.packet_identifier);
    body.push(encode_puback_reason(&puback.reason));
    let mut properties = Properties::new();
    properties.reason_string = clone_opt_string(&puback.reason_string);
    properties.user_properties = clone_opt_user_properties(&puback.user_properties);
    assert(properties.deep_view() == puback_properties(puback.deep_view()));
    let p = encode_properties(&properties);
    push_all(&mut body, p.as_slice());
    finish_packet(0x40, &body)
}

fn encode_disconnect(disconnect: &Disconnect) -> (res: Vec<u8>)
    ensures
        res@ == spec_encode_disconnect(disconnect.deep_view()),
{
    let mut body: Vec<u8> = Vec::new();
    body.push(encode_disconnect_reason(&disconnect.disconnect_reason));
    let mut properties = Properties::new();
    properties.session_expiry_interval = disconnect.session_expiry_interval;
    properties.reason_string = clone_opt_string(&disconnect.reason_string);
    properties.user_properties = clone_opt_user_properties(&disconnect.user_properties);
    properties.server_reference = clone_opt_string(&disconnect.server_reference);
    assert(properties.deep_view() == disconnect_properties(disconnect.deep_view()));
    let p = encode_properties(&properties);
    push_all(&mut body, p.as_slice());
    finish_packet(0xe0, &body)
}

fn encode_connack(connack: &ConnAck) -> (res: Vec<u8>)
    ensures
        res@ == spec_encode_connack(connack.deep_view()),
{
    let mut properties = Properties::new();
    properties.session_expiry_interval = connack.session_expiry_interval;
    properties.receive_maximum = connack.receive_maximum;
    properties.maximum_qos = connack.maximum_qos;
    properties.retain_available = connack.retain_available;
    properties.maximum_packet_size = connack.maximum_packet_size;
    properties.assigned_client_identifier = clone_opt_string(&connack.assigned_client_identifier);
    properties.topic_alias_maximum = connack.topic_alias_maximum;
    properties.reason_string = clone_opt_string(&connack.reason_string);
    properties.user_properties = clone_opt_user_properties(&connack.user_properties);
    properties.server_keep_alive = connack.server_keep_alive;
    assert(properties.deep_view() == connack_properties(connack.deep_view()));
    let mut body: Vec<u8> = Vec::new();
    body.push(
        if connack.session_present {
            1u8
        } else {
            0u8
        },
    );
    body.push(encode_connect_reason(&connack.connect_reason));
    let p = encode_properties(&properties);
    push_all(&mut body, p.as_slice());
    finish_packet(0x20, &body)
}

fn encode_subscribe(subscribe: &Subscribe) -> (res: Vec<u8>)
    ensures
        res@ == spec_encode_subscribe(subscribe.deep_view()),
{
    let mut body = u16_to_be_bytes(subscribe.packet_identifier);
    let mut properties = Properties::new();
    properties.subscription_identifier = subscribe.subscription_identifier;
    properties.user_properties = clone_opt_user_properties(&subscribe.user_properties);
    assert(properties.deep_view() == subscribe_properties(subscribe.deep_view()));
    let p = encode_properties(&properties);
    push_all(&mut body, p.as_slice());
    let ghost start = body@;
    let ghost fs = subscribe.topic_filters.deep_view();
    let mut i: usize = 0;
    while i < subscribe.topic_filters.len()
        invariant
            fs == subscribe.topic_filters.deep_view(),
            i <= fs.len(),
            body@ == start + topic_filters_bytes(fs.take(i as int)),
        decreases fs.len() - i,
    {
        let topic_filter = &subscribe.topic_filters[i];
        let s = encode_string(topic_filter.filter.as_str());
        push_all(&mut body, s.as_slice());
        let retain_handling: u8 = match topic_filter.retain_handling {
            RetainHandling::SendRetained => 0,
            RetainHandling::SendRetainedForNewSubscription => 1,
            RetainHandling::DoNotSendRetained => 2,
        };
        let rap: u8 = if topic_filter.retain_as_published {
            8
        } else {
            0
        };
        let nl: u8 = if topic_filter.no_local {
            4
        } else {
            0
        };
        let options_byte: u8 = retain_handling * 16 + rap + nl + encode_qos(&topic_filter.maximum_qos);
        body.push(options_byte);
        proof {
            assert(fs[i as int] == topic_filter.deep_view());
            assert(fs.take(i + 1).drop_last() == fs.take(i as int));
            assert(options_byte == subscription_options(fs[i as int]));
        }
        i = i + 1;
    }
    assert(fs.take(i as int) == fs);
    finish_packet(0x82, &body)
}

fn encode_unsubscribe(unsubscribe: &Unsubscribe) -> (res: Vec<u8>)
    ensures
        res@ == spec_encode_unsubscribe(unsubscribe.deep_view()),
{
    let mut body = u16_to_be_bytes(unsubscribe.packet_identifier);
    let mut properties = Properties::new();
    properties.user_properties = clone_opt_user_properties(&unsubscribe.user_properties);
    assert(properties.deep_view() == unsubscribe_properties(unsubscribe.deep_view()));
    let p = encode_properties(&properties);
    push_all(&mut body, p.as_slice());
    let ghost start = body@;
    let ghost fs = unsubscribe.topic_filters.deep_view();
    let mut i: usize = 0;
    while i < unsubscribe.topic_filters.len()
        invariant
            fs == unsubscribe.topic_filters.deep_view(),
            i <= fs.len(),
            body@ == start + strings_bytes(fs.take(i as int)),
        decreases fs.len() - i,
    {
        let s = encode_string(unsubscribe.topic_filters[i].as_str());
        push_all(&mut body, s.as_slice());
        proof {
            assert(fs[i as int] == unsubscribe.topic_filters[i as int]@);
            assert(fs.take(i + 1).drop_last() == fs.take(i as int));
        }
        i = i + 1;
    }
    assert(fs.take(i as int) == fs);
    finish_packet(0xa0, &body)
}

fn encode_suback(suback: &SubAck) -> (res: Vec<u8>)
    ensures
        res@ == spec_encode_suback(suback.deep_view()),
{
    let mut body = u16_to_be_bytes(suback.packet_identifier);
    let mut properties = Properties::new();
    properties.reason_string = clone_opt_string(&suback.reason_string);
    properties.user_properties = clone_opt_user_properties(&suback.user_properties);
    assert(properties.deep_view() == suback_properties(suback.deep_view()));
    let p = encode_properties(&properties);
    push_all(&mut body, p.as_slice());
    let ghost start = body@;
    let mut i: usize = 0;
    while i < suback.reasons.len()
        invariant
            i <= suback.reasons@.len(),
            body@ == start + subscribe_reason_bytes(suback.reasons@.take(i as int)),
        decreases suback.reasons@.len() - i,
    {
        body.push(encode_subscribe_reason(&suback.reasons[i]));
        assert(subscribe_reason_bytes(suback.reasons@.take(i + 1)) == subscribe_reason_bytes(
            suback.reasons@.take(i as int),
        ).push(subscribe_reason_code(suback.reasons@[i as int])));
        i = i + 1;
    }
    assert(suback.reasons@.take(i as int) == suback.reasons@);
    finish_packet(0x90, &body)
}

/// The bytes of a payload.
fn payload_to_bytes(payload: &Payload) -> (res: Vec<u8>)
    ensures
        res@ == payload_bytes(payload.deep_view()),
{
    match payload {
        Payload::Unspecified(b) => vstd::slice::slice_to_vec(b.as_slice()),
        Payload::String(s) => {
            proof {
                reveal(utf8_bytes);
            }
            vstd::slice::slice_to_vec(s.as_str().as_bytes())
        },
    }
}

/// The Payload Format Indicator of a payload.
fn payload_format_indicator(payload: &Payload) -> (res: Option<u8>)
    ensures
        res == payload_format(payload.deep_view()),
{
    match payload {
        Payload::Unspecified(_) => None,
        Payload::String(_) => Some(1),
    }
}

fn encode_publish(publish: &Publish) -> (res: Vec<u8>)
    ensures
        res@ == spec_encode_publish(publish.deep_view()),
{
    let mut first_byte: u8 = 0x30;
    if publish.duplicate {
        first_byte = first_byte + 8;
    }
    first_byte = first_byte + 2 * encode_qos(&publish.qos);
    if publish.retain {
        first_byte = first_byte + 1;
    }
    let mut body = encode_string(publish.topic_name.as_str());
    if let Some(packet_identifier) = publish.packet_identifier {
        let b = u16_to_be_bytes(packet_identifier);
        push_all(&mut body, b.as_slice());
    } else {
        assert(body@ + Seq::<u8>::empty() == body@);
    }
    let mut properties = Properties::new();
    properties.payload_format_indicator = payload_format_indicator(&publish.payload);
    properties.message_expiry_interval = publish.message_expiry_interval;
    properties.topic_alias = publish.topic_alias;
    properties.response_topic = clone_opt_string(&publish.response_topic);
    properties.correlation_data = clone_opt_bytes(&publish.correlation_data);
    properties.user_properties = clone_opt_user_properties(&publish.user_properties);
    properties.subscription_identifier = publish.subscription_identifier;
    properties.content_type = clone_opt_string(&publish.content_type);
    assert(properties.deep_view() == publish_properties(publish.deep_view()));
    let p = encode_properties(&properties);
    push_all(&mut body, p.as_slice());
    let pl = payload_to_bytes(&publish.payload);
    push_all(&mut body, pl.as_slice());
    finish_packet(first_byte, &body)
}

#[verifier::spinoff_prover]
#[verifier::rlimit(40)]
fn encode_connect(connect: &Connect) -> (res: Vec<u8>)
    ensures
        res@ == spec_encode_connect(connect.deep_view()),
{
    let mut flags: u8 = 0;
    if connect.username.is_some() {
        flags = flags + 128;
    }
    if connect.password.is_some() {
        flags = flags + 64;
    }
    if let Some(will) = &connect.will {
        flags = flags + 4;
        if will.retain {
            flags = flags + 32;
        }
        flags = flags + 8 * encode_qos(&will.qos);
    }
    if connect.clean_start {
        flags = flags + 2;
    }
    assert(flags == connect_flags(connect.deep_view()));
    let mut variable_header: Vec<u8> = Vec::new();
    variable_header.push(0);
    variable_header.push(4);
    variable_header.push(77);
    variable_header.push(81);
    variable_header.push(84);
    variable_header.push(84);
    variable_header.push(5);
    variable_header.push(flags);
    let ka = u16_to_be_bytes(connect.keep_alive);
    push_all(&mut variable_header, ka.as_slice());
    let mut properties = Properties::new();
    properties.session_expiry_interval = connect.session_expiry_interval;
    properties.receive_maximum = connect.receive_maximum;
    properties.maximum_packet_size = connect.maximum_packet_size;
    properties.topic_alias_maximum = connect.topic_alias_maximum;
    properties.request_response_information = connect.request_response_information;
    properties.request_problem_information = connect.request_problem_information;
    properties.user_properties = clone_opt_user_properties(&connect.user_properties);
    assert(properties.deep_view() == connect_properties(connect.deep_view()));
    let p = encode_properties(&properties);
    push_all(&mut variable_header, p.as_slice());
    assert(variable_header@ == connect_variable_header(connect.deep_view()));
    let mut payload = encode_string(connect.client_identifier.as_str());
    let ghost after_id = payload@;
    if let Some(will) = &connect.will {
        let mut will_props = Properties::new();
        will_props.will_delay_interval = will.delay_interval;
        will_props.payload_format_indicator = payload_format_indicator(&will.payload);
        will_props.message_expiry_interval = will.message_expiry_interval;
        will_props.content_type = clone_opt_string(&will.content_type);
        will_props.response_topic = clone_opt_string(&will.response_topic);
        will_props.correlation_data = clone_opt_bytes(&will.correlation_data);
        will_props.user_properties = clone_opt_user_properties(&will.user_properties);
        assert(will_props.deep_view() == will_properties(will.deep_view()));
        let wp = encode_properties(&will_props);
        push_all(&mut payload, wp.as_slice());
        let wt = encode_string(will.topic.as_str());
        push_all(&mut payload, wt.as_slice());
        let pl = payload_to_bytes(&will.payload);
        let wb = encode_binary(pl.as_slice());
        push_all(&mut payload, wb.as_slice());
    } else {
        assert(payload@ + Seq::<u8>::empty() == payload@);
    }
    let ghost after_will = payload@;
    if let Some(username) = &connect.username {
        let u = encode_string(username.as_str());
        push_all(&mut payload, u.as_slice());
    } else {
        assert(payload@ + Seq::<u8>::empty() == payload@);
    }
    if let Some(password) = &connect.password {
        let pw = encode_binary(password.as_slice());
        push_all(&mut payload, pw.as_slice());
    } else {
        assert(payload@ + Seq::<u8>::empty() == payload@);
    }
    assert(payload@ == connect_payload(connect.deep_view()));
    push_all(&mut variable_header, payload.as_slice());
    finish_packet(0x10, &variable_header)
}

/// Encodes a packet.
pub fn encode(packet: &MqttPacket) -> (res: Vec<u8>)
    requires
        encodable(packet.deep_view()),
    ensures
        res@ == spec_encode(packet.deep_view()),
{
    match packet {
        MqttPacket::PingResp => {
            let mut v: Vec<u8> = Vec::new();
            v.push(0xd0);
            v.push(0);
            assert(v@ == seq![0xd0u8, 0u8]);
            v
        },
        MqttPacket::PingReq => {
            let mut v: Vec<u8> = Vec::new();
            v.push(0xc0);
            v.push(0);
            assert(v@ == seq![0xc0u8, 0u8]);
            v
        },
        MqttPacket::ConnAck(c) => encode_connack(c),
        MqttPacket::Publish(publish) => encode_publish(publish),
        MqttPacket::Subscribe(subscribe) => encode_subscribe(subscribe),
        MqttPacket::SubAck(suback) => encode_suback(suback),
        MqttPacket::Connect(connect) => encode_connect(connect),
        MqttPacket::Unsubscribe(unsubscribe) => encode_unsubscribe(unsubscribe),
        MqttPacket::UnsubAck(unsuback) => encode_unsuback(unsuback),
        MqttPacket::Disconnect(disconnect) => encode_disconnect(disconnect),
        MqttPacket::PubAck(puback) => encode_puback(puback),
        _ => {
            assert(false);
            Vec::new()
        },
    }
}

// ---------------------------------------------------------------------------
// Where the flags sit
// ---------------------------------------------------------------------------

/// The first byte of a PUBLISH: packet type 3 in the high four bits, DUP in bit 3, the QoS
/// in bits 1 and 2, RETAIN in bit 0.
pub proof fn lemma_publish_first_byte_bits(p: PublishModel)
    ensures
        ({
            let f = publish_first_byte(p);
            &&& f & 0xf0u8 == 0x30u8
            &&& (f & 8u8 == 8u8) == p.duplicate
            &&& (f >> 1u8) & 3u8 == qos_level(p.qos)
            &&& (f & 1u8 == 1u8) == p.retain
        }),
{
    let d: u8 = if p.duplicate {
        8
    } else {
        0
    };
    let q: u8 = qos_level(p.qos);
    let r: u8 = if p.retain {
        1
    } else {
        0
    };
    let f = publish_first_byte(p);
    assert(f == 0x30u8 + d + 2 * q + r);
    assert(f & 0xf0u8 == 0x30u8 && ((f & 8u8 == 8u8) == (d == 8u8)) && (f >> 1u8) & 3u8 == q && ((f & 1u8
        == 1u8) == (r == 1u8))) by (bit_vector)
        requires
            f == 0x30u8 + d + 2 * q + r,
            d == 0u8 || d == 8u8,
            q <= 2u8,
            r <= 1u8,
    ;
}

/// The options byte of a subscription: the maximum QoS in bits 0 and 1, No Local in bit 2,
/// Retain As Published in bit 3, the Retain Handling in bits 4 and 5, and bits 6 and 7
/// clear.
pub proof fn lemma_subscription_options_bits(tf: TopicFilterModel)
    ensures
        ({
            let o = subscription_options(tf);
            &&& o & 3u8 == qos_level(tf.maximum_qos)
            &&& (o & 4u8 == 4u8) == tf.no_local
            &&& (o & 8u8 == 8u8) == tf.retain_as_published
            &&& (o >> 4u8) & 3u8 == retain_handling_code(tf.retain_handling)
            &&& o & 0xc0u8 == 0u8
        }),
{
    let h: u8 = retain_handling_code(tf.retain_handling);
    let a: u8 = if tf.retain_as_published {
        8
    } else {
        0
    };
    let n: u8 = if tf.no_local {
        4
    } else {
        0
    };
    let q: u8 = qos_level(tf.maximum_qos);
    let o = subscription_options(tf);
    assert(o == h * 16 + a + n + q);
    assert(o & 3u8 == q && ((o & 4u8 == 4u8) == (n == 4u8)) && ((o & 8u8 == 8u8) == (a == 8u8)) && (o >> 4u8)
        & 3u8 == h && o & 0xc0u8 == 0u8) by (bit_vector)
        requires
            o == h * 16 + a + n + q,
            h <= 2u8,
            a == 0u8 || a == 8u8,
            n == 0u8 || n == 4u8,
            q <= 2u8,
    ;
}

/// The connect flags of a CONNECT: User Name in bit 7, Password in bit 6, Will Retain in
/// bit 5, the Will QoS in bits 3 and 4, the Will Flag in bit 2, Clean Start in bit 1, and
/// bit 0 reserved and clear.
pub proof fn lemma_connect_flags_bits(c: ConnectModel)
    ensures
        ({
            let fl = connect_flags(c);
            &&& (fl & 128u8 == 128u8) == c.username is Some
            &&& (fl & 64u8 == 64u8) == c.password is Some
            &&& (fl & 4u8 == 4u8) == c.will is Some
            &&& (fl & 2u8 == 2u8) == c.clean_start
            &&& fl & 1u8 == 0u8
            &&& (c.will matches Some(w) ==> (fl & 32u8 == 32u8) == w.retain && (fl >> 3u8) & 3u8 == qos_level(
                w.qos,
            ))
            &&& (c.will is None ==> fl & 0x38u8 == 0u8)
        }),
{
    let u: u8 = if c.username is Some {
        128
    } else {
        0
    };
    let pw: u8 = if c.password is Some {
        64
    } else {
        0
    };
    let wf: u8 = if c.will is Some {
        4
    } else {
        0
    };
    let wr: u8 = match c.will {
        Some(w) => if w.retain {
            32u8
        } else {
            0u8
        },
        None => 0u8,
    };
    let wq: u8 = match c.will {
        Some(w) => qos_level(w.qos),
        None => 0u8,
    };
    let cs: u8 = if c.clean_start {
        2
    } else {
        0
    };
    let fl = connect_flags(c);
    assert(fl == u + pw + wf + wr + 8 * wq + cs);
    assert(((fl & 128u8 == 128u8) == (u == 128u8)) && ((fl & 64u8 == 64u8) == (pw == 64u8)) && ((fl & 4u8
        == 4u8) == (wf == 4u8)) && ((fl & 2u8 == 2u8) == (cs == 2u8)) && fl & 1u8 == 0u8 && ((fl & 32u8
        == 32u8) == (wr == 32u8)) && (fl >> 3u8) & 3u8 == wq && (wr == 0u8 && wq == 0u8 ==> fl & 0x38u8
        == 0u8)) by (bit_vector)
        requires
            fl == u + pw + wf + wr + 8 * wq + cs,
            u == 0u8 || u == 128u8,
            pw == 0u8 || pw == 64u8,
            wf == 0u8 || wf == 4u8,
            wr == 0u8 || wr == 32u8,
            wq <= 2u8,
            cs == 0u8 || cs == 2u8,
    ;
}

} // verus!
