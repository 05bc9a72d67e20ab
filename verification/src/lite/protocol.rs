//! The packets of the small model and how they are written.
use vstd::prelude::*;
use crate::codec::primitives::{push_all, utf8_bytes};

verus! {

/// A control packet.
#[derive(Debug, PartialEq)]
pub enum MqttPacket {
    Connect(Connect),
    ConnAck(ConnAck),
    Disconnect(Disconnect),
    Subscribe(Subscribe),
    SubAck(SubAck),
    PingReq,
    PingResp,
    Publish(Publish),
}

/// A property of a packet.
#[derive(Debug, PartialEq)]
pub enum Property {
    SessionExpiryInterval(u32),
    AuthenticationMethod(String),
    AuthenticationData(Vec<u8>),
    RequestProblemInformation(u8),
    RequestResponseInformation(u8),
    ReceiveMaximum(u16),
    TopicAliasMaximum(u16),
    UserProperty { key: String, value: String },
    MaximumPacketSize(u32),
    ContentType(String),
    ResponseTopic(String),
    CorrelationData(Vec<u8>),
}

/// The will of a CONNECT.
#[derive(Debug, PartialEq)]
pub struct Will {
    pub retain: bool,
    pub qos: u8,
    pub topic: String,
    pub properties: Vec<Property>,
    pub payload: Vec<u8>,
}

/// CONNECT: connection request.
#[derive(Debug, PartialEq)]
pub struct Connect {
    pub protocol_name: String,
    pub protocol_version: u8,
    pub client_identifier: String,
    pub username: Option<String>,
    pub password: Option<String>,
    pub will: Option<Will>,
    pub clean_start: bool,
    pub keep_alive: u16,
    pub properties: Vec<Property>,
}

/// Reason code of a CONNACK.
#[derive(Debug, PartialEq)]
pub enum ConnectReason {
    Success,
}

/// CONNACK: connect acknowledgement.
#[derive(Debug, PartialEq)]
pub struct ConnAck {
    pub session_present: bool,
    pub connect_reason: ConnectReason,
    pub properties: Vec<Property>,
}

/// Reason code of a DISCONNECT.
#[derive(Debug, PartialEq)]
pub enum DisconnectReason {
    NormalDisconnection,
}

/// DISCONNECT: disconnect notification.
#[derive(Debug, PartialEq)]
pub struct Disconnect {
    pub disconnect_reason: DisconnectReason,
    pub properties: Vec<Property>,
}

/// Quality of service of a message.
#[derive(Debug, PartialEq)]
pub enum QoS {
    AtMostOnce,
    AtLeastOnce,
    ExactlyOnce,
}

/// PUBLISH: an application message.
#[derive(Debug, PartialEq)]
pub struct Publish {
    pub duplicate: bool,
    pub qos: QoS,
    pub retain: bool,
    pub topic_name: String,
    pub packet_identifier: Option<u16>,
    pub properties: Vec<Property>,
    pub payload: Vec<u8>,
}

/// One topic filter of a SUBSCRIBE.
#[derive(Debug, PartialEq)]
pub struct TopicFilter {
    pub topic_name: String,
    pub maximum_qos: QoS,
    pub no_local: bool,
    pub retain_as_published: bool,
    pub retain_handling: u8,
}

/// SUBSCRIBE: subscription request.
#[derive(Debug, PartialEq)]
pub struct Subscribe {
    pub packet_identifier: u16,
    pub properties: Vec<Property>,
    pub topic_filters: Vec<TopicFilter>,
}

/// Reason code of one topic filter of a SUBACK.
#[derive(Debug, PartialEq)]
pub enum SubscribeReason {
    GrantedQoS0,
}

/// SUBACK: subscription acknowledgement.
#[derive(Debug, PartialEq)]
pub struct SubAck {
    pub packet_identifier: u16,
    pub properties: Vec<Property>,
    pub reasons: Vec<SubscribeReason>,
}

// ---------------------------------------------------------------------------
// The mathematical model of the packets
// ---------------------------------------------------------------------------

pub enum PropertyModel {
    SessionExpiryInterval(u32),
    AuthenticationMethod(Seq<char>),
    AuthenticationData(Seq<u8>),
    RequestProblemInformation(u8),
    RequestResponseInformation(u8),
    ReceiveMaximum(u16),
    TopicAliasMaximum(u16),
    UserProperty(Seq<char>, Seq<char>),
    MaximumPacketSize(u32),
    ContentType(Seq<char>),
    ResponseTopic(Seq<char>),
    CorrelationData(Seq<u8>),
}

impl DeepView for Property {
    type V = PropertyModel;

    open spec fn deep_view(&self) -> PropertyModel {
        match self {
            Property::SessionExpiryInterval(v) => PropertyModel::SessionExpiryInterval(*v),
            Property::AuthenticationMethod(v) => PropertyModel::AuthenticationMethod(v@),
            Property::AuthenticationData(v) => PropertyModel::AuthenticationData(v@),
            Property::RequestProblemInformation(v) => PropertyModel::RequestProblemInformation(*v),
            Property::RequestResponseInformation(v) => PropertyModel::RequestResponseInformation(*v),
            Property::ReceiveMaximum(v) => PropertyModel::ReceiveMaximum(*v),
            Property::TopicAliasMaximum(v) => PropertyModel::TopicAliasMaximum(*v),
            Property::UserProperty { key, value } => PropertyModel::UserProperty(key@, value@),
            Property::MaximumPacketSize(v) => PropertyModel::MaximumPacketSize(*v),
            Property::ContentType(v) => PropertyModel::ContentType(v@),
            Property::ResponseTopic(v) => PropertyModel::ResponseTopic(v@),
            Property::CorrelationData(v) => PropertyModel::CorrelationData(v@),
        }
    }
}

pub struct WillModel {
    pub retain: bool,
    pub qos: u8,
    pub topic: Seq<char>,
    pub properties: Seq<PropertyModel>,
    pub payload: Seq<u8>,
}

impl DeepView for Will {
    type V = WillModel;

    open spec fn deep_view(&self) -> WillModel {
        WillModel {
            retain: self.retain,
            qos: self.qos,
            topic: self.topic@,
            properties: self.properties.deep_view(),
            payload: self.payload@,
        }
    }
}

pub struct ConnectModel {
    pub protocol_name: Seq<char>,
    pub protocol_version: u8,
    pub client_identifier: Seq<char>,
    pub username: Option<Seq<char>>,
    pub password: Option<Seq<char>>,
    pub will: Option<WillModel>,
    pub clean_start: bool,
    pub keep_alive: u16,
    pub properties: Seq<PropertyModel>,
}

impl DeepView for Connect {
    type V = ConnectModel;

    open spec fn deep_view(&self) -> ConnectModel {
        ConnectModel {
            protocol_name: self.protocol_name@,
            protocol_version: self.protocol_version,
            client_identifier: self.client_identifier@,
            username: self.username.deep_view(),
            password: self.password.deep_view(),
            will: self.will.deep_view(),
            clean_start: self.clean_start,
            keep_alive: self.keep_alive,
            properties: self.properties.deep_view(),
        }
    }
}

/// A CONNACK; its reason is always Success.
pub struct ConnAckModel {
    pub session_present: bool,
    pub properties: Seq<PropertyModel>,
}

impl DeepView for ConnAck {
    type V = ConnAckModel;

    open spec fn deep_view(&self) -> ConnAckModel {
        ConnAckModel { session_present: self.session_present, properties: self.properties.deep_view() }
    }
}

/// A DISCONNECT; its reason is always Normal Disconnection.
pub struct DisconnectModel {
    pub properties: Seq<PropertyModel>,
}

impl DeepView for Disconnect {
    type V = DisconnectModel;

    open spec fn deep_view(&self) -> DisconnectModel {
        DisconnectModel { properties: self.properties.deep_view() }
    }
}

/// A PUBLISH; the QoS is given by its number.
pub struct PublishModel {
    pub duplicate: bool,
    pub qos: u8,
    pub retain: bool,
    pub topic_name: Seq<char>,
    pub packet_identifier: Option<u16>,
    pub properties: Seq<PropertyModel>,
    pub payload: Seq<u8>,
}

impl DeepView for Publish {
    type V = PublishModel;

    open spec fn deep_view(&self) -> PublishModel {
        PublishModel {
            duplicate: self.duplicate,
            qos: qos_number(&self.qos),
            retain: self.retain,
            topic_name: self.topic_name@,
            packet_identifier: self.packet_identifier,
            properties: self.properties.deep_view(),
            payload: self.payload@,
        }
    }
}

/// A topic filter of a SUBSCRIBE; the maximum QoS is given by its number.
pub struct TopicFilterModel {
    pub topic_name: Seq<char>,
    pub maximum_qos: u8,
    pub no_local: bool,
    pub retain_as_published: bool,
    pub retain_handling: u8,
}

impl DeepView for TopicFilter {
    type V = TopicFilterModel;

    open spec fn deep_view(&self) -> TopicFilterModel {
        TopicFilterModel {
            topic_name: self.topic_name@,
            maximum_qos: qos_number(&self.maximum_qos),
            no_local: self.no_local,
            retain_as_published: self.retain_as_published,
            retain_handling: self.retain_handling,
        }
    }
}

pub struct SubscribeModel {
    pub packet_identifier: u16,
    pub properties: Seq<PropertyModel>,
    pub topic_filters: Seq<TopicFilterModel>,
}

impl DeepView for Subscribe {
    type V = SubscribeModel;

    open spec fn deep_view(&self) -> SubscribeModel {
        SubscribeModel {
            packet_identifier: self.packet_identifier,
            properties: self.properties.deep_view(),
            topic_filters: self.topic_filters.deep_view(),
        }
    }
}

/// A SUBACK; every reason is Granted QoS 0, so only their number counts.
pub struct SubAckModel {
    pub packet_identifier: u16,
    pub properties: Seq<PropertyModel>,
    pub reasons: nat,
}

impl DeepView for SubAck {
    type V = SubAckModel;

    open spec fn deep_view(&self) -> SubAckModel {
        SubAckModel {
            packet_identifier: self.packet_identifier,
            properties: self.properties.deep_view(),
            reasons: self.reasons@.len(),
        }
    }
}

pub enum MqttPacketModel {
    Connect(ConnectModel),
    ConnAck(ConnAckModel),
    Disconnect(DisconnectModel),
    Subscribe(SubscribeModel),
    SubAck(SubAckModel),
    PingReq,
    PingResp,
    Publish(PublishModel),
}

impl DeepView for MqttPacket {
    type V = MqttPacketModel;

    open spec fn deep_view(&self) -> MqttPacketModel {
        match self {
            MqttPacket::Connect(c) => MqttPacketModel::Connect(c.deep_view()),
            MqttPacket::ConnAck(c) => MqttPacketModel::ConnAck(c.deep_view()),
            MqttPacket::Disconnect(d) => MqttPacketModel::Disconnect(d.deep_view()),
            MqttPacket::Subscribe(x) => MqttPacketModel::Subscribe(x.deep_view()),
            MqttPacket::SubAck(x) => MqttPacketModel::SubAck(x.deep_view()),
            MqttPacket::PingReq => MqttPacketModel::PingReq,
            MqttPacket::PingResp => MqttPacketModel::PingResp,
            MqttPacket::Publish(x) => MqttPacketModel::Publish(x.deep_view()),
        }
    }
}

/// Whether `to_bytes` writes a packet: it writes PINGRESP, CONNACK, PUBLISH and SUBACK.
pub open spec fn writable(p: &MqttPacket) -> bool {
    p is PingResp || p is ConnAck || p is Publish || p is SubAck
}

/// A packet: its first byte, the length of the rest as one byte (the length modulo 256),
/// then the rest.
pub open spec fn short_packet(first: u8, rest: Seq<u8>) -> Seq<u8> {
    seq![first, rest.len() as u8] + rest
}

/// The number of a QoS.
pub open spec fn qos_number(q: &QoS) -> u8 {
    match q {
        QoS::AtMostOnce => 0,
        QoS::AtLeastOnce => 1,
        QoS::ExactlyOnce => 2,
    }
}

/// The first byte of a PUBLISH: packet type 3, DUP in bit 3, and the QoS number and RETAIN
/// or-ed into the low bits.
pub open spec fn publish_first_byte(p: &Publish) -> u8 {
    0x30u8 | (if p.duplicate {
        8u8
    } else {
        0u8
    }) | qos_number(&p.qos) | (if p.retain {
        1u8
    } else {
        0u8
    })
}

/// What follows the fixed header of a PUBLISH: the topic name with a one-byte length (the
/// length modulo 256), the low byte of the packet identifier after a zero byte, an empty
/// property set, and the payload.
pub open spec fn publish_body(p: &Publish) -> Seq<u8> {
    seq![0u8, utf8_bytes(p.topic_name@).len() as u8] + utf8_bytes(p.topic_name@) + (match p.packet_identifier {
        Some(id) => seq![0u8, id as u8],
        None => Seq::empty(),
    }) + seq![0u8] + p.payload@
}

/// The bytes that `to_bytes` writes for a packet; properties are left out.
pub open spec fn spec_to_bytes(p: &MqttPacket) -> Seq<u8> {
    match p {
        MqttPacket::PingResp => seq![0xd0u8, 0u8],
        MqttPacket::ConnAck(c) => short_packet(
            0x20,
            seq![if c.session_present { 1u8 } else { 0u8 }, 0u8, 0u8],
        ),
        MqttPacket::Publish(x) => short_packet(publish_first_byte(x), publish_body(x)),
        MqttPacket::SubAck(s) => short_packet(
            0x90,
            seq![s.packet_identifier as u8, 0u8] + Seq::new(s.reasons@.len(), |i: int| 0u8),
        ),
        _ => Seq::empty(),
    }
}

fn qos_byte(q: &QoS) -> (res: u8)
    ensures
        res == qos_number(q),
{
    match q {
        QoS::AtMostOnce => 0u8,
        QoS::AtLeastOnce => 1u8,
        QoS::ExactlyOnce => 2u8,
    }
}

/// Writes PINGRESP, CONNACK, PUBLISH and SUBACK packets.
pub fn to_bytes(packet: &MqttPacket) -> (res: Vec<u8>)
    requires
        writable(packet),
    ensures
        res@ == spec_to_bytes(packet),
{
    match packet {
        MqttPacket::PingResp => {
            let mut v: Vec<u8> = Vec::new();
            v.push(0xd0);
            v.push(0);
            assert(v@ =~= seq![0xd0u8, 0u8]);
            v
        },
        MqttPacket::ConnAck(c) => {
            let mut variable_header: Vec<u8> = Vec::new();
            variable_header.push(
                if c.session_present {
                    1u8
                } else {
                    0u8
                },
            );
            match c.connect_reason {
                ConnectReason::Success => variable_header.push(0u8),
            }
            variable_header.push(0u8);
            let mut fixed_header: Vec<u8> = Vec::new();
            fixed_header.push(0x20);
            fixed_header.push(variable_header.len() as u8);
            push_all(&mut fixed_header, variable_header.as_slice());
            assert(fixed_header@ =~= spec_to_bytes(packet));
            fixed_header
        },
        MqttPacket::Publish(publish) => {
            let mut body: Vec<u8> = Vec::new();
            let topic_name: &[u8] = publish.topic_name.as_str().as_bytes();
            proof {
                reveal(utf8_bytes);
            }
            body.push(0u8);
            body.push(topic_name.len() as u8);
            push_all(&mut body, topic_name);
            if let Some(packet_identifier) = publish.packet_identifier {
                body.push(0u8);
                body.push(packet_identifier as u8);
            }
            body.push(0u8);
            push_all(&mut body, publish.payload.as_slice());
            assert(body@ =~= publish_body(publish));
            let dup: u8 = if publish.duplicate {
                8u8
            } else {
                0u8
            };
            let retain: u8 = if publish.retain {
                1u8
            } else {
                0u8
            };
            let fst: u8 = 0x30u8 | dup | qos_byte(&publish.qos) | retain;
            let mut result: Vec<u8> = Vec::new();
            result.push(fst);
            result.push(body.len() as u8);
            push_all(&mut result, body.as_slice());
            assert(result@ =~= spec_to_bytes(packet));
            result
        },
        MqttPacket::SubAck(sub_ack) => {
            let mut body: Vec<u8> = Vec::new();
            body.push(sub_ack.packet_identifier as u8);
            body.push(0u8);
            let mut i: usize = 0;
            while i < sub_ack.reasons.len()
                invariant
                    i <= sub_ack.reasons@.len(),
                    body@ == seq![sub_ack.packet_identifier as u8, 0u8] + Seq::new(i as nat, |j: int| 0u8),
                decreases sub_ack.reasons@.len() - i,
            {
                match sub_ack.reasons[i] {
                    SubscribeReason::GrantedQoS0 => body.push(0u8),
                }
                assert(Seq::new((i + 1) as nat, |j: int| 0u8) =~= Seq::new(i as nat, |j: int| 0u8).push(0u8));
                i = i + 1;
            }
            let mut fixed_header: Vec<u8> = Vec::new();
            fixed_header.push(0x90);
            fixed_header.push(body.len() as u8);
            push_all(&mut fixed_header, body.as_slice());
            assert(fixed_header@ =~= spec_to_bytes(packet));
            fixed_header
        },
        _ => {
            assert(false);
            Vec::new()
        },
    }
}

/// How `to_bytes` lays out a PUBLISH: the first byte has packet type 3 in its high four
/// bits and DUP in bit 3; then one length byte; then the topic name's length as two bytes
/// (the high one zero) and its UTF-8 bytes; then, when the PUBLISH has a packet
/// identifier, a zero byte and the identifier's low byte; then an empty property set
/// (one zero byte); then the payload to the end.
pub proof fn lemma_publish_layout(p: Publish)
    ensures
        ({
            let b = spec_to_bytes(&MqttPacket::Publish(p));
            let t = utf8_bytes(p.topic_name@);
            let n = t.len() as int;
            let pl = p.payload@;
            let id_len: int = if p.packet_identifier is Some {
                2
            } else {
                0
            };
            &&& b.len() == 4 + n + id_len + 1 + pl.len()
            &&& b[0] & 0xf0u8 == 0x30u8
            &&& (b[0] & 8u8 == 8u8) == p.duplicate
            &&& b[1] == ((2 + n + id_len + 1 + pl.len()) as u8)
            &&& b[2] == 0u8
            &&& b[3] == (n as u8)
            &&& b.subrange(4, 4 + n) == t
            &&& (p.packet_identifier matches Some(id) ==> b[4 + n] == 0u8 && b[5 + n] == (id as u8))
            &&& b[4 + n + id_len] == 0u8
            &&& b.subrange(5 + n + id_len, b.len() as int) == pl
        }),
{
    let b = spec_to_bytes(&MqttPacket::Publish(p));
    let t = utf8_bytes(p.topic_name@);
    let n = t.len() as int;
    let pl = p.payload@;
    let idb: Seq<u8> = match p.packet_identifier {
        Some(id) => seq![0u8, id as u8],
        None => Seq::empty(),
    };
    let body = publish_body(&p);
    assert(body =~= seq![0u8, n as u8] + t + idb + seq![0u8] + pl);
    let f = publish_first_byte(&p);
    assert(b =~= seq![f, body.len() as u8] + body);
    let d: u8 = if p.duplicate {
        8u8
    } else {
        0u8
    };
    let q: u8 = qos_number(&p.qos);
    let r: u8 = if p.retain {
        1u8
    } else {
        0u8
    };
    assert(f == 0x30u8 | d | q | r);
    assert((0x30u8 | d | q | r) & 0xf0u8 == 0x30u8 && (((0x30u8 | d | q | r) & 8u8 == 8u8) == (d == 8u8)))
        by (bit_vector)
        requires
            d == 0u8 || d == 8u8,
            q <= 2u8,
            r <= 1u8,
    ;
    assert(b.subrange(4, 4 + n) =~= t);
    assert(b.subrange(5 + n + idb.len(), b.len() as int) =~= pl);
    assert(b[4 + n + idb.len()] == 0u8);
}

/// The other packets that `to_bytes` writes: PINGRESP is 0xD0 0; a CONNACK is 0x20, 3,
/// the Session Present flag, reason Success (0) and an empty property set; a SUBACK is
/// 0x90, its length, the low byte of the packet identifier, an empty property set, and one
/// zero byte (Granted QoS 0) per reason.
pub proof fn lemma_acks_layout(p: MqttPacket)
    ensures
        p is PingResp ==> spec_to_bytes(&p) == seq![0xd0u8, 0u8],
        p matches MqttPacket::ConnAck(c) ==> spec_to_bytes(&p) == seq![
            0x20u8,
            3u8,
            if c.session_present { 1u8 } else { 0u8 },
            0u8,
            0u8,
        ],
        p matches MqttPacket::SubAck(x) ==> {
            let b = spec_to_bytes(&p);
            &&& b.len() == 4 + x.reasons@.len()
            &&& b[0] == 0x90u8
            &&& b[1] == ((2 + x.reasons@.len()) as u8)
            &&& b[2] == (x.packet_identifier as u8)
            &&& b[3] == 0u8
            &&& forall|i: int| 4 <= i < b.len() ==> b[i] == 0u8
        },
{
    if let MqttPacket::ConnAck(c) = p {
        assert(spec_to_bytes(&p) =~= seq![0x20u8, 3u8, if c.session_present { 1u8 } else { 0u8 }, 0u8, 0u8]);
    }
    if let MqttPacket::SubAck(x) = p {
        let b = spec_to_bytes(&p);
        assert forall|i: int| 4 <= i < b.len() implies b[i] == 0u8 by {
            assert(b[i] == Seq::new(x.reasons@.len(), |j: int| 0u8)[i - 4]);
        }
    }
}

} // verus!
