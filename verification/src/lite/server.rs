//! What a minimal server answers to each packet of a client.
use vstd::prelude::*;
use crate::lite::protocol::{ConnAck, ConnectReason, MqttPacket, SubAck, SubscribeReason};

verus! {

/// What the server does after a packet.
#[derive(Debug)]
pub enum Response {
    /// Send this packet.
    Send(MqttPacket),
    /// Nothing to send.
    Nothing,
    /// The client disconnected: the connection ends.
    End,
}

/// Whether the server handles a packet from a client: CONNECT, PINGREQ, DISCONNECT,
/// PUBLISH and SUBSCRIBE.
pub open spec fn handled(p: &MqttPacket) -> bool {
    p is Connect || p is PingReq || p is Disconnect || p is Publish || p is Subscribe
}

/// The answer to a packet: a CONNECT gets a successful CONNACK without a session, a
/// PINGREQ a PINGRESP, a SUBSCRIBE a SUBACK granting QoS 0 with its packet identifier; a
/// PUBLISH gets nothing and a DISCONNECT ends the connection.
pub fn respond(packet: &MqttPacket) -> (res: Response)
    requires
        handled(packet),
    ensures
        match packet {
            MqttPacket::Connect(_) => res matches Response::Send(MqttPacket::ConnAck(c)) && !c.session_present
                && c.connect_reason == ConnectReason::Success && c.properties@.len() == 0,
            MqttPacket::PingReq => res matches Response::Send(MqttPacket::PingResp),
            MqttPacket::Disconnect(_) => res is End,
            MqttPacket::Publish(_) => res is Nothing,
            MqttPacket::Subscribe(s) => res matches Response::Send(MqttPacket::SubAck(a))
                && a.packet_identifier == s.packet_identifier && a.properties@.len() == 0 && a.reasons@.len()
                == 1 && a.reasons@[0] == SubscribeReason::GrantedQoS0,
            _ => false,
        },
{
    match packet {
        MqttPacket::Connect(_) => Response::Send(
            MqttPacket::ConnAck(
                ConnAck {
                    session_present: false,
                    connect_reason: ConnectReason::Success,
                    properties: Vec::new(),
                },
            ),
        ),
        MqttPacket::PingReq => Response::Send(MqttPacket::PingResp),
        MqttPacket::Disconnect(_) => Response::End,
        MqttPacket::Publish(_) => Response::Nothing,
        MqttPacket::Subscribe(subscribe) => {
            let mut reasons: Vec<SubscribeReason> = Vec::new();
            reasons.push(SubscribeReason::GrantedQoS0);
            Response::Send(
                MqttPacket::SubAck(
                    SubAck { packet_identifier: subscribe.packet_identifier, properties: Vec::new(), reasons },
                ),
            )
        },
        _ => {
            assert(false);
            Response::Nothing
        },
    }
}

} // verus!
