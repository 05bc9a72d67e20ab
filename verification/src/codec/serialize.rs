//! A compact writer for the few packets a minimal server sends: PINGRESP, a successful
//! CONNACK, PUBLISH and SUBACK, without properties and with one-byte lengths.
use vstd::prelude::*;
use crate::codec::encoding::payload_bytes;
use crate::codec::primitives::{push_all, utf8_bytes};
use crate::types::{
    qos_level, ConnAck, ConnectReason, MqttPacket, MqttPacketModel, Payload, Publish, PublishModel,
    SubscribeReason,
};

verus! {

/// Whether `to_bytes` writes a packet: PINGRESP, a CONNACK with reason Success, any
/// PUBLISH, and a SUBACK whose reasons all grant QoS 0.
pub open spec fn writable(p: MqttPacketModel) -> bool {
    match p {
        MqttPacketModel::PingResp => true,
        MqttPacketModel::ConnAck(c) => c.connect_reason == ConnectReason::Success,
        MqttPacketModel::Publish(_) => true,
        MqttPacketModel::SubAck(s) => forall|i: int|
            0 <= i < s.reasons.len() ==> s.reasons[i] == SubscribeReason::GrantedQoS0,
        _ => false,
    }
}

/// A packet: its first byte, the length of the rest as one byte (the length modulo 256),
/// then the rest.
pub open spec fn short_packet(first: u8, rest: Seq<u8>) -> Seq<u8> {
    seq![first, rest.len() as u8] + rest
}

/// The first byte of a PUBLISH as `to_bytes` writes it: packet type 3, DUP in bit 3, and
/// the QoS number and RETAIN or-ed into the low bits.
pub open spec fn short_publish_first_byte(p: PublishModel) -> u8 {
    0x30u8 | (if p.duplicate {
        8u8
    } else {
        0u8
    }) | qos_level(p.qos) | (if p.retain {
        1u8
    } else {
        0u8
    })
}

/// What follows the fixed header of a PUBLISH as `to_bytes` writes it: the topic name with
/// a one-byte length (the length modulo 256), the low byte of the packet identifier after a
/// zero byte, an empty property set, and the payload.
pub open spec fn short_publish_body(p: PublishModel) -> Seq<u8> {
    seq![0u8, utf8_bytes(p.topic_name).len() as u8] + utf8_bytes(p.topic_name) + (match p.packet_identifier {
        Some(id) => seq![0u8, id as u8],
        None => Seq::empty(),
    }) + seq![0u8] + payload_bytes(p.payload)
}

/// The bytes that `to_bytes` writes for a packet.
pub open spec fn spec_to_bytes(p: MqttPacketModel) -> Seq<u8> {
    match p {
        MqttPacketModel::PingResp => seq![0xd0u8, 0u8],
        MqttPacketModel::ConnAck(c) => short_packet(
            0x20,
            seq![if c.session_present { 1u8 } else { 0u8 }, 0u8, 0u8],
        ),
        MqttPacketModel::Publish(x) => short_packet(short_publish_first_byte(x), short_publish_body(x)),
        MqttPacketModel::SubAck(s) => short_packet(
            0x90,
            seq![s.packet_identifier as u8, 0u8] + Seq::new(s.reasons.len(), |i: int| 0u8),
        ),
        _ => Seq::empty(),
    }
}

fn short_qos(p: &Publish) -> (res: u8)
    ensures
        res == qos_level(p.qos),
{
    match p.qos {
        crate::types::QoS::AtMostOnce => 0u8,
        crate::types::QoS::AtLeastOnce => 1u8,
        crate::types::QoS::ExactlyOnce => 2u8,
    }
}

fn payload_slice(payload: &Payload) -> (res: &[u8])
    ensures
        res@ == payload_bytes(payload.deep_view()),
{
    match payload {
        Payload::Unspecified(b) => b.as_slice(),
        Payload::String(s) => {
            proof {
                reveal(utf8_bytes);
            }
            s.as_str().as_bytes()
        },
    }
}

/// Writes PINGRESP, a successful CONNACK, PUBLISH and SUBACK packets.
pub fn to_bytes(packet: &MqttPacket) -> (res: Vec<u8>)
    requires
        writable(packet.deep_view()),
    ensures
        res@ == spec_to_bytes(packet.deep_view()),
{
    match packet {
        MqttPacket::PingResp => {
            let mut v: Vec<u8> = Vec::new();
            v.push(0xd0);
            v.push(0);
            assert(v@ =~= seq![0xd0u8, 0u8]);
            v
        },
        MqttPacket::ConnAck(c) => {
            let mut variable_header: Vec<u8> = Vec::new();
            variable_header.push(
                if c.session_present {
                    1u8
                } else {
                    0u8
                },
            );
            variable_header.push(0u8);
            variable_header.push(0u8);
            let mut fixed_header: Vec<u8> = Vec::new();
            fixed_header.push(0x20);
            fixed_header.push(variable_header.len() as u8);
            push_all(&mut fixed_header, variable_header.as_slice());
            assert(fixed_header@ =~= spec_to_bytes(packet.deep_view()));
            fixed_header
        },
        MqttPacket::Publish(publish) => {
            let mut body: Vec<u8> = Vec::new();
            let topic_name: &[u8] = publish.topic_name.as_str().as_bytes();
            proof {
                reveal(utf8_bytes);
            }
            body.push(0u8);
            body.push(topic_name.len() as u8);
            push_all(&mut body, topic_name);
            let ghost after_topic = body@;
            if let Some(packet_identifier) = publish.packet_identifier {
                body.push(0u8);
                body.push(packet_identifier as u8);
            }
            body.push(0u8);
            push_all(&mut body, payload_slice(&publish.payload));
            assert(body@ =~= short_publish_body(publish.deep_view()));
            let dup: u8 = if publish.duplicate {
                8u8
            } else {
                0u8
            };
            let retain: u8 = if publish.retain {
                1u8
            } else {
                0u8
            };
            let fst: u8 = 0x30u8 | dup | short_qos(publish) | retain;
            let mut result: Vec<u8> = Vec::new();
            result.push(fst);
            result.push(body.len() as u8);
            push_all(&mut result, body.as_slice());
            assert(result@ =~= spec_to_bytes(packet.deep_view()));
            result
        },
        MqttPacket::SubAck(sub_ack) => {
            let mut body: Vec<u8> = Vec::new();
            body.push(sub_ack.packet_identifier as u8);
            body.push(0u8);
            let mut i: usize = 0;
            while i < sub_ack.reasons.len()
                invariant
                    i <= sub_ack.reasons@.len(),
                    body@ == seq![sub_ack.packet_identifier as u8, 0u8] + Seq::new(i as nat, |j: int| 0u8),
                decreases sub_ack.reasons@.len() - i,
            {
                body.push(0u8);
                assert(Seq::new((i + 1) as nat, |j: int| 0u8) =~= Seq::new(i as nat, |j: int| 0u8).push(0u8));
                i = i + 1;
            }
            let mut fixed_header: Vec<u8> = Vec::new();
            fixed_header.push(0x90);
            fixed_header.push(body.len() as u8);
            push_all(&mut fixed_header, body.as_slice());
            assert(fixed_header@ =~= spec_to_bytes(packet.deep_view()));
            fixed_header
        },
        _ => {
            assert(false);
            Vec::new()
        },
    }
}

/// How `to_bytes` lays out a PUBLISH: the first byte has packet type 3 in its high four
/// bits and DUP in bit 3; then one length byte; then the topic name's length as two bytes
/// (the high one zero) and its UTF-8 bytes; then, when the PUBLISH has a packet
/// identifier, a zero byte and the identifier's low byte; then an empty property set
/// (one zero byte); then the payload to the end.
pub proof fn lemma_short_publish_layout(p: PublishModel)
    ensures
        ({
            let b = spec_to_bytes(MqttPacketModel::Publish(p));
            let t = utf8_bytes(p.topic_name);
            let n = t.len() as int;
            let pl = payload_bytes(p.payload);
            let id_len: int = if p.packet_identifier is Some {
                2
            } else {
                0
            };
            &&& b.len() == 4 + n + id_len + 1 + pl.len()
            &&& b[0] & 0xf0u8 == 0x30u8
            &&& (b[0] & 8u8 == 8u8) == p.duplicate
            &&& b[1] == ((2 + n + id_len + 1 + pl.len()) as u8)
            &&& b[2] == 0u8
            &&& b[3] == (n as u8)
            &&& b.subrange(4, 4 + n) == t
            &&& (p.packet_identifier matches Some(id) ==> b[4 + n] == 0u8 && b[5 + n] == (id as u8))
            &&& b[4 + n + id_len] == 0u8
            &&& b.subrange(5 + n + id_len, b.len() as int) == pl
        }),
{
    let b = spec_to_bytes(MqttPacketModel::Publish(p));
    let t = utf8_bytes(p.topic_name);
    let n = t.len() as int;
    let pl = payload_bytes(p.payload);
    let idb: Seq<u8> = match p.packet_identifier {
        Some(id) => seq![0u8, id as u8],
        None => Seq::empty(),
    };
    let body = short_publish_body(p);
    assert(body =~= seq![0u8, n as u8] + t + idb + seq![0u8] + pl);
    let f = short_publish_first_byte(p);
    assert(b =~= seq![f, body.len() as u8] + body);
    let d: u8 = if p.duplicate {
        8u8
    } else {
        0u8
    };
    let q: u8 = qos_level(p.qos);
    let r: u8 = if p.retain {
        1u8
    } else {
        0u8
    };
    assert(f == 0x30u8 | d | q | r);
    assert((0x30u8 | d | q | r) & 0xf0u8 == 0x30u8 && (((0x30u8 | d | q | r) & 8u8 == 8u8) == (d == 8u8)))
        by (bit_vector)
        requires
            d == 0u8 || d == 8u8,
            q <= 2u8,
            r <= 1u8,
    ;
    assert(b.subrange(4, 4 + n) =~= t);
    assert(b.subrange(5 + n + idb.len(), b.len() as int) =~= pl);
    assert(b[4 + n + idb.len()] == 0u8);
}

/// The other packets that `to_bytes` writes: PINGRESP is 0xD0 0; a CONNACK is 0x20, 3,
/// the Session Present flag, reason Success (0) and an empty property set; a SUBACK is
/// 0x90, its length, the low byte of the packet identifier, an empty property set, and one
/// zero byte (Granted QoS 0) per reason.
pub proof fn lemma_short_acks_layout(p: MqttPacketModel)
    ensures
        p is PingResp ==> spec_to_bytes(p) == seq![0xd0u8, 0u8],
        p matches MqttPacketModel::ConnAck(c) ==> spec_to_bytes(p) == seq![
            0x20u8,
            3u8,
            if c.session_present { 1u8 } else { 0u8 },
            0u8,
            0u8,
        ],
        p matches MqttPacketModel::SubAck(x) ==> {
            let b = spec_to_bytes(p);
            &&& b.len() == 4 + x.reasons.len()
            &&& b[0] == 0x90u8
            &&& b[1] == ((2 + x.reasons.len()) as u8)
            &&& b[2] == (x.packet_identifier as u8)
            &&& b[3] == 0u8
            &&& forall|i: int| 4 <= i < b.len() ==> b[i] == 0u8
        },
{
    if let MqttPacketModel::ConnAck(c) = p {
        assert(spec_to_bytes(p) =~= seq![0x20u8, 3u8, if c.session_present { 1u8 } else { 0u8 }, 0u8, 0u8]);
    }
    if let MqttPacketModel::SubAck(x) = p {
        let b = spec_to_bytes(p);
        assert forall|i: int| 4 <= i < b.len() implies b[i] == 0u8 by {
            assert(b[i] == Seq::new(x.reasons.len(), |j: int| 0u8)[i - 4]);
        }
    }
}

} // verus!
