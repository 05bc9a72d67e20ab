//! Decoding of control packets from a byte stream. Each parser reads at a position of the
//! input and gives the position after what it read; `Incomplete` asks for more bytes.
use vstd::prelude::*;
use crate::codec::primitives::{
    parse_binary_data, parse_byte, parse_string, parse_u16, parse_variable_u32,
    spec_parse_binary, spec_parse_byte, spec_parse_string, spec_parse_u16, spec_parse_varint,
    ParseError,
};
use crate::codec::properties::{parse_properties, spec_parse_properties};
use crate::types::{
    Authentication, AuthenticationModel, ConnAck, ConnAckModel, Connect, ConnectModel,
    ConnectReason, Disconnect, DisconnectModel, DisconnectReason, MqttPacket, MqttPacketModel,
    Payload, PayloadModel, PropertiesModel, PubAck, PubAckModel, PubAckReason, Publish,
    PublishModel, QoS, RetainHandling, SubAck, SubAckModel, Subscribe, SubscribeModel,
    SubscribeReason, TopicFilter, TopicFilterModel, UnsubAck, UnsubAckModel, Unsubscribe,
    UnsubscribeModel, UnsubscribeReason, Will, WillModel,
};

verus! {

/// Whether bit `k` of `b` is set.
pub open spec fn bit(b: u8, k: nat) -> bool {
    (b / pow2_u8(k)) % 2 == 1
}

pub open spec fn pow2_u8(k: nat) -> u8 {
    if k == 0 {
        1
    } else if k == 1 {
        2
    } else if k == 2 {
        4
    } else if k == 3 {
        8
    } else if k == 4 {
        16
    } else if k == 5 {
        32
    } else if k == 6 {
        64
    } else {
        128
    }
}

/// The QoS numbered `n`, if any.
pub open spec fn qos_of(n: int) -> Option<QoS> {
    if n == 0 {
        Some(QoS::AtMostOnce)
    } else if n == 1 {
        Some(QoS::AtLeastOnce)
    } else if n == 2 {
        Some(QoS::ExactlyOnce)
    } else {
        None
    }
}

/// The retain handling option numbered `n`, if any.
pub open spec fn retain_handling_of(n: int) -> Option<RetainHandling> {
    if n == 0 {
        Some(RetainHandling::SendRetained)
    } else if n == 1 {
        Some(RetainHandling::SendRetainedForNewSubscription)
    } else if n == 2 {
        Some(RetainHandling::DoNotSendRetained)
    } else {
        None
    }
}

/// The CONNACK reason with code `b`, if any.
pub open spec fn connect_reason_of(b: u8) -> Option<ConnectReason> {
    if b == 0 {
        Some(ConnectReason::Success)
    } else if b == 128 {
        Some(ConnectReason::UnspecifiedError)
    } else if b == 129 {
        Some(ConnectReason::MalformedPacket)
    } else if b == 130 {
        Some(ConnectReason::ProtocolError)
    } else if b == 131 {
        Some(ConnectReason::ImplementationSpecificError)
    } else if b == 132 {
        Some(ConnectReason::UnsupportedProtocolVersion)
    } else if b == 133 {
        Some(ConnectReason::ClientIdentifierNotValid)
    } else if b == 134 {
        Some(ConnectReason::BadUserNameOrPassword)
    } else if b == 135 {
        Some(ConnectReason::NotAuthorized)
    } else if b == 136 {
        Some(ConnectReason::ServerUnavailable)
    } else if b == 137 {
        Some(ConnectReason::ServerBusy)
    } else if b == 138 {
        Some(ConnectReason::Banned)
    } else if b == 140 {
        Some(ConnectReason::BadAuthenticationMethod)
    } else if b == 144 {
        Some(ConnectReason::TopicNameInvalid)
    } else if b == 149 {
        Some(ConnectReason::PacketTooLarge)
    } else if b == 151 {
        Some(ConnectReason::QuotaExceeded)
    } else if b == 153 {
        Some(ConnectReason::PayloadFormatInvalid)
    } else if b == 154 {
        Some(ConnectReason::RetainNotSupported)
    } else if b == 155 {
        Some(ConnectReason::QoSNotSupported)
    } else if b == 156 {
        Some(ConnectReason::UseAnotherServer)
    } else if b == 157 {
        Some(ConnectReason::ServerMoved)
    } else if b == 159 {
        Some(ConnectReason::ConnectionRateExceeded)
    } else {
        None
    }
}

/// The PUBACK reason with code `b`, if any.
pub open spec fn puback_reason_of(b: u8) -> Option<PubAckReason> {
    if b == 0 {
        Some(PubAckReason::Success)
    } else if b == 16 {
        Some(PubAckReason::NoMatchingSubscribers)
    } else if b == 128 {
        Some(PubAckReason::UnspecifiedError)
    } else if b == 131 {
        Some(PubAckReason::ImplementationSpecificError)
    } else if b == 135 {
        Some(PubAckReason::NotAuthorized)
    } else if b == 144 {
        Some(PubAckReason::TopicNameInvalid)
    } else if b == 145 {
        Some(PubAckReason::PacketIdentifierInUse)
    } else if b == 151 {
        Some(PubAckReason::QuotaExceeded)
    } else if b == 153 {
        Some(PubAckReason::PayloadFormatInvalid)
    } else {
        None
    }
}

/// The UNSUBACK reason with code `b`, if any.
pub open spec fn unsubscribe_reason_of(b: u8) -> Option<UnsubscribeReason> {
    if b == 0 {
        Some(UnsubscribeReason::Success)
    } else if b == 17 {
        Some(UnsubscribeReason::NoSubscriptionExisted)
    } else if b == 128 {
        Some(UnsubscribeReason::UnspecifiedError)
    } else if b == 131 {
        Some(UnsubscribeReason::ImplementationSpecificError)
    } else if b == 135 {
        Some(UnsubscribeReason::NotAuthorized)
    } else if b == 143 {
        Some(UnsubscribeReason::TopicFilterInvalid)
    } else if b == 145 {
        Some(UnsubscribeReason::PacketIdentifierInUse)
    } else {
        None
    }
}

/// The fixed header of a packet.
#[derive(Debug, Clone, Copy, PartialEq, Eq, Structural)]
pub struct MqttHeader {
    pub packet_type: u8,
    pub flags: u8,
    pub packet_size: u32,
}

// ---------------------------------------------------------------------------
// Specifications
// ---------------------------------------------------------------------------

/// Parsing the fixed header at `pos`: the packet type (high four bits) and flags (low four
/// bits) of the first byte, then the remaining length, which must be there in full.
pub open spec fn spec_parse_header(s: Seq<u8>, pos: int) -> Result<(MqttHeader, int), ParseError> {
    match spec_parse_byte(s, pos) {
        Err(e) => Err(e),
        Ok((b, at)) => match spec_parse_varint(s, at) {
            Err(e) => Err(e),
            Ok((size, next)) => if size > s.len() - next {
                Err(ParseError::Incomplete((size - (s.len() - next)) as usize))
            } else {
                Ok((MqttHeader { packet_type: b / 16, flags: b % 16, packet_size: size as u32 }, next))
            },
        },
    }
}

/// Parsing the payload of a will at `pos`: a string when the Payload Format Indicator is 1,
/// binary data otherwise.
pub open spec fn spec_parse_will_payload(s: Seq<u8>, pos: int, indicator: Option<u8>) -> Result<
    (PayloadModel, int),
    ParseError,
> {
    if indicator == Some(1u8) {
        match spec_parse_string(s, pos) {
            Err(e) => Err(e),
            Ok((t, next)) => Ok((PayloadModel::String(t), next)),
        }
    } else {
        match spec_parse_binary(s, pos) {
            Err(e) => Err(e),
            Ok((b, next)) => Ok((PayloadModel::Unspecified(b), next)),
        }
    }
}

/// Parsing the will of a CONNECT, when the will flag is set.
pub open spec fn spec_parse_will(s: Seq<u8>, pos: int, flags: u8, will_qos: QoS) -> Result<
    (Option<WillModel>, int),
    ParseError,
> {
    if !bit(flags, 2) {
        Ok((None, pos))
    } else {
        match spec_parse_properties(s, pos) {
            Err(e) => Err(e),
            Ok((wp, a)) => match spec_parse_string(s, a) {
                Err(e) => Err(e),
                Ok((topic, b)) => match spec_parse_will_payload(s, b, wp.payload_format_indicator) {
                    Err(e) => Err(e),
                    Ok((payload, c)) => Ok(
                        (
                            Some(
                                WillModel {
                                    retain: bit(flags, 5),
                                    qos: will_qos,
                                    topic,
                                    payload,
                                    delay_interval: wp.will_delay_interval,
                                    message_expiry_interval: wp.message_expiry_interval,
                                    content_type: wp.content_type,
                                    response_topic: wp.response_topic,
                                    correlation_data: wp.correlation_data,
                                    user_properties: wp.user_properties,
                                },
                            ),
                            c,
                        ),
                    ),
                },
            },
        }
    }
}

/// Parsing an optional string, present when `present` holds.
pub open spec fn spec_parse_opt_string(s: Seq<u8>, pos: int, present: bool) -> Result<
    (Option<Seq<char>>, int),
    ParseError,
> {
    if !present {
        Ok((None, pos))
    } else {
        match spec_parse_string(s, pos) {
            Err(e) => Err(e),
            Ok((t, next)) => Ok((Some(t), next)),
        }
    }
}

/// Parsing optional binary data, present when `present` holds.
pub open spec fn spec_parse_opt_binary(s: Seq<u8>, pos: int, present: bool) -> Result<
    (Option<Seq<u8>>, int),
    ParseError,
> {
    if !present {
        Ok((None, pos))
    } else {
        match spec_parse_binary(s, pos) {
            Err(e) => Err(e),
            Ok((b, next)) => Ok((Some(b), next)),
        }
    }
}

/// The CONNECT with the parsed fields.
pub open spec fn connect_model(
    protocol_name: Seq<char>,
    protocol_version: u8,
    flags: u8,
    keep_alive: u16,
    p: PropertiesModel,
    client_identifier: Seq<char>,
    will: Option<WillModel>,
    username: Option<Seq<char>>,
    password: Option<Seq<u8>>,
) -> ConnectModel {
    ConnectModel {
        protocol_name,
        protocol_version,
        client_identifier,
        username,
        password,
        will,
        clean_start: bit(flags, 1),
        keep_alive,
        session_expiry_interval: p.session_expiry_interval,
        receive_maximum: p.receive_maximum,
        maximum_packet_size: p.maximum_packet_size,
        topic_alias_maximum: p.topic_alias_maximum,
        request_response_information: p.request_response_information,
        request_problem_information: p.request_problem_information,
        user_properties: p.user_properties,
        authentication: match p.authentication_method {
            Some(m) => Some(
                AuthenticationModel {
                    authentication_method: m,
                    authentication_data: p.authentication_data,
                },
            ),
            None => None,
        },
    }
}

/// Parsing the rest of a CONNECT after its keep alive: properties, client identifier,
/// will, user name and password.
pub open spec fn spec_parse_connect_rest(
    s: Seq<u8>,
    pos: int,
    protocol_name: Seq<char>,
    protocol_version: u8,
    flags: u8,
    will_qos: QoS,
    keep_alive: u16,
) -> Result<(ConnectModel, int), ParseError> {
    match spec_parse_properties(s, pos) {
        Err(e) => Err(e),
        Ok((p, a)) => match spec_parse_string(s, a) {
            Err(e) => Err(e),
            Ok((client_identifier, b)) => match spec_parse_will(s, b, flags, will_qos) {
                Err(e) => Err(e),
                Ok((will, c)) => match spec_parse_opt_string(s, c, bit(flags, 7)) {
                    Err(e) => Err(e),
                    Ok((username, d)) => match spec_parse_opt_binary(s, d, bit(flags, 6)) {
                        Err(e) => Err(e),
                        Ok((password, end)) => Ok(
                            (
                                connect_model(
                                    protocol_name,
                                    protocol_version,
                                    flags,
                                    keep_alive,
                                    p,
                                    client_identifier,
                                    will,
                                    username,
                                    password,
                                ),
                                end,
                            ),
                        ),
                    },
                },
            },
        },
    }
}

/// Parsing the variable header and payload of a CONNECT at `pos`: the protocol name must be
/// "MQTT"; a will QoS of 3 makes the packet malformed.
pub open spec fn spec_parse_connect(s: Seq<u8>, pos: int) -> Result<(ConnectModel, int), ParseError> {
    match spec_parse_string(s, pos) {
        Err(e) => Err(e),
        Ok((name, a)) => if name != seq!['M', 'Q', 'T', 'T'] {
            Err(ParseError::Malformed)
        } else {
            match spec_parse_byte(s, a) {
                Err(e) => Err(e),
                Ok((version, b)) => match spec_parse_byte(s, b) {
                    Err(e) => Err(e),
                    Ok((flags, c)) => match qos_of(((flags / 8) % 4) as int) {
                        None => Err(ParseError::Malformed),
                        Some(will_qos) => match spec_parse_u16(s, c) {
                            Err(e) => Err(e),
                            Ok((keep_alive, d)) => spec_parse_connect_rest(
                                s,
                                d,
                                name,
                                version,
                                flags,
                                will_qos,
                                keep_alive,
                            ),
                        },
                    },
                },
            }
        },
    }
}

/// The DISCONNECT reason with code `b`: the codec handles 0, 142 and 148 only.
pub open spec fn disconnect_reason_of(b: u8) -> Option<DisconnectReason> {
    if b == 0 {
        Some(DisconnectReason::NormalDisconnection)
    } else if b == 142 {
        Some(DisconnectReason::SessionTakenOver)
    } else if b == 148 {
        Some(DisconnectReason::TopicAliasInvalid)
    } else {
        None
    }
}

/// Parsing a DISCONNECT at `pos`: nothing left is a normal disconnection without properties.
pub open spec fn spec_parse_disconnect(s: Seq<u8>, pos: int) -> Result<(DisconnectModel, int), ParseError> {
    if pos >= s.len() {
        Ok(
            (
                DisconnectModel {
                    disconnect_reason: DisconnectReason::NormalDisconnection,
                    session_expiry_interval: None,
                    reason_string: None,
                    user_properties: None,
                    server_reference: None,
                },
                pos,
            ),
        )
    } else {
        match spec_parse_byte(s, pos) {
            Err(e) => Err(e),
            Ok((b, a)) => match disconnect_reason_of(b) {
                None => Err(ParseError::Unsupported),
                Some(reason) => match spec_parse_properties(s, a) {
                    Err(e) => Err(e),
                    Ok((p, end)) => Ok(
                        (
                            DisconnectModel {
                                disconnect_reason: reason,
                                session_expiry_interval: p.session_expiry_interval,
                                reason_string: p.reason_string,
                                user_properties: p.user_properties,
                                server_reference: p.server_reference,
                            },
                            end,
                        ),
                    ),
                },
            },
        }
    }
}

/// Parsing the packet identifier of a PUBLISH, present for QoS 1 and 2, where it must not be 0.
pub open spec fn spec_parse_publish_id(s: Seq<u8>, pos: int, qos: QoS) -> Result<
    (Option<u16>, int),
    ParseError,
> {
    if qos == QoS::AtMostOnce {
        Ok((None, pos))
    } else {
        match spec_parse_u16(s, pos) {
            Err(e) => Err(e),
            Ok((id, next)) => if id == 0 {
                Err(ParseError::Malformed)
            } else {
                Ok((Some(id), next))
            },
        }
    }
}

/// Parsing the variable header and payload of a PUBLISH of `packet_size` bytes at `pos`,
/// with fixed header `flags`. The payload is what is left of the packet after the variable
/// header; the codec does not handle a string payload nor a variable header that is longer
/// than the packet.
pub open spec fn spec_parse_publish(s: Seq<u8>, pos: int, packet_size: u32, flags: u8) -> Result<
    (PublishModel, int),
    ParseError,
> {
    match qos_of(((flags / 2) % 4) as int) {
        None => Err(ParseError::Malformed),
        Some(qos) => match spec_parse_string(s, pos) {
            Err(e) => Err(e),
            Ok((topic_name, a)) => match spec_parse_publish_id(s, a, qos) {
                Err(e) => Err(e),
                Ok((packet_identifier, b)) => match spec_parse_properties(s, b) {
                    Err(e) => Err(e),
                    Ok((p, c)) => {
                        let header_len = ((c - pos) as u32) as int;
                        if p.payload_format_indicator == Some(1u8) {
                            Err(ParseError::Unsupported)
                        } else if header_len > packet_size {
                            Err(ParseError::Unsupported)
                        } else if c + (packet_size - header_len) > s.len() {
                            Err(ParseError::Incomplete((c + (packet_size - header_len) - s.len()) as usize))
                        } else {
                            let end = c + (packet_size - header_len);
                            Ok(
                                (
                                    PublishModel {
                                        duplicate: bit(flags, 3),
                                        qos,
                                        retain: bit(flags, 0),
                                        topic_name,
                                        packet_identifier,
                                        message_expiry_interval: p.message_expiry_interval,
                                        topic_alias: p.topic_alias,
                                        response_topic: p.response_topic,
                                        correlation_data: p.correlation_data,
                                        user_properties: p.user_properties,
                                        subscription_identifier: p.subscription_identifier,
                                        content_type: p.content_type,
                                        payload: PayloadModel::Unspecified(s.subrange(c, end)),
                                    },
                                    end,
                                ),
                            )
                        }
                    },
                },
            },
        },
    }
}

/// Parsing one topic filter of a SUBSCRIBE: a string and its options byte; a QoS or a retain
/// handling of 3 makes the packet malformed.
pub open spec fn spec_parse_topic_filter(s: Seq<u8>, pos: int) -> Result<
    (TopicFilterModel, int),
    ParseError,
> {
    match spec_parse_string(s, pos) {
        Err(e) => Err(e),
        Ok((filter, a)) => match spec_parse_byte(s, a) {
            Err(e) => Err(e),
            Ok((options, b)) => match qos_of((options % 4) as int) {
                None => Err(ParseError::Malformed),
                Some(maximum_qos) => match retain_handling_of(((options / 16) % 4) as int) {
                    None => Err(ParseError::Malformed),
                    Some(retain_handling) => Ok(
                        (
                            TopicFilterModel {
                                filter,
                                maximum_qos,
                                no_local: bit(options, 2),
                                retain_as_published: bit(options, 3),
                                retain_handling,
                            },
                            b,
                        ),
                    ),
                },
            },
        },
    }
}

/// Parsing topic filters while `remaining` bytes of the packet are left.
pub open spec fn spec_parse_topic_filters(
    s: Seq<u8>,
    pos: int,
    remaining: int,
    acc: Seq<TopicFilterModel>,
) -> Result<(Seq<TopicFilterModel>, int), ParseError>
    decreases remaining,
{
    if remaining <= 0 {
        Ok((acc, pos))
    } else {
        match spec_parse_topic_filter(s, pos) {
            Err(e) => Err(e),
            Ok((tf, next)) => {
                let advance = ((next - pos) as u32) as int;
                if advance > remaining || advance <= 0 {
                    Err(ParseError::Malformed)
                } else {
                    spec_parse_topic_filters(s, next, remaining - advance, acc.push(tf))
                }
            },
        }
    }
}

/// Parsing a SUBSCRIBE of `packet_size` bytes at `pos`.
pub open spec fn spec_parse_subscribe(s: Seq<u8>, pos: int, packet_size: u32) -> Result<
    (SubscribeModel, int),
    ParseError,
> {
    match spec_parse_u16(s, pos) {
        Err(e) => Err(e),
        Ok((packet_identifier, a)) => match spec_parse_properties(s, a) {
            Err(e) => Err(e),
            Ok((p, b)) => {
                let header_len = ((b - pos) as u32) as int;
                if header_len > packet_size {
                    Err(ParseError::Unsupported)
                } else {
                    match spec_parse_topic_filters(s, b, packet_size - header_len, Seq::empty()) {
                        Err(e) => Err(e),
                        Ok((topic_filters, end)) => Ok(
                            (
                                SubscribeModel {
                                    packet_identifier,
                                    subscription_identifier: p.subscription_identifier,
                                    user_properties: p.user_properties,
                                    topic_filters,
                                },
                                end,
                            ),
                        ),
                    }
                }
            },
        },
    }
}

/// The UNSUBACK reasons of the given codes, if all codes are known.
pub open spec fn unsubscribe_reasons_of(b: Seq<u8>) -> Option<Seq<UnsubscribeReason>>
    decreases b.len(),
{
    if b.len() == 0 {
        Some(Seq::empty())
    } else {
        match unsubscribe_reasons_of(b.drop_last()) {
            None => None,
            Some(rs) => match unsubscribe_reason_of(b.last()) {
                None => None,
                Some(r) => Some(rs.push(r)),
            },
        }
    }
}

/// The SUBACK reasons of the given codes, if all codes are 0 (the only one the codec reads).
pub open spec fn subscribe_reasons_of(b: Seq<u8>) -> Option<Seq<SubscribeReason>>
    decreases b.len(),
{
    if b.len() == 0 {
        Some(Seq::empty())
    } else {
        match subscribe_reasons_of(b.drop_last()) {
            None => None,
            Some(rs) => if b.last() == 0 {
                Some(rs.push(SubscribeReason::GrantedQoS0))
            } else {
                None
            },
        }
    }
}

/// Parsing an UNSUBACK of `packet_size` bytes at `pos`: it must have at least one reason.
pub open spec fn spec_parse_unsuback(s: Seq<u8>, pos: int, packet_size: u32) -> Result<
    (UnsubAckModel, int),
    ParseError,
> {
    match spec_parse_u16(s, pos) {
        Err(e) => Err(e),
        Ok((packet_identifier, a)) => match spec_parse_properties(s, a) {
            Err(e) => Err(e),
            Ok((p, b)) => {
                let header_len = ((b - pos) as u32) as int;
                if header_len > packet_size {
                    Err(ParseError::Unsupported)
                } else if packet_size - header_len == 0 {
                    Err(ParseError::Malformed)
                } else if b + (packet_size - header_len) > s.len() {
                    Err(ParseError::Incomplete((b + (packet_size - header_len) - s.len()) as usize))
                } else {
                    let end = b + (packet_size - header_len);
                    match unsubscribe_reasons_of(s.subrange(b, end)) {
                        None => Err(ParseError::Malformed),
                        Some(reasons) => Ok(
                            (
                                UnsubAckModel {
                                    packet_identifier,
                                    reason_string: p.reason_string,
                                    user_properties: p.user_properties,
                                    reasons,
                                },
                                end,
                            ),
                        ),
                    }
                }
            },
        },
    }
}

/// Parsing topic filter strings while `remaining` bytes are left.
pub open spec fn spec_parse_strings(s: Seq<u8>, pos: int, remaining: int, acc: Seq<Seq<char>>) -> Result<
    (Seq<Seq<char>>, int),
    ParseError,
>
    decreases remaining,
{
    if remaining <= 0 {
        Ok((acc, pos))
    } else {
        match spec_parse_string(s, pos) {
            Err(e) => Err(e),
            Ok((t, next)) => {
                let advance = ((next - pos) as u32) as int;
                if advance > remaining {
                    Err(ParseError::Unsupported)
                } else if advance <= 0 {
                    Err(ParseError::Malformed)
                } else {
                    spec_parse_strings(s, next, remaining - advance, acc.push(t))
                }
            },
        }
    }
}

/// Parsing an UNSUBSCRIBE of `packet_size` bytes at `pos`: it must have at least one topic filter.
pub open spec fn spec_parse_unsubscribe(s: Seq<u8>, pos: int, packet_size: u32) -> Result<
    (UnsubscribeModel, int),
    ParseError,
> {
    match spec_parse_u16(s, pos) {
        Err(e) => Err(e),
        Ok((packet_identifier, a)) => match spec_parse_properties(s, a) {
            Err(e) => Err(e),
            Ok((p, b)) => {
                let header_len = ((b - pos) as u32) as int;
                if header_len > packet_size {
                    Err(ParseError::Unsupported)
                } else if packet_size - header_len == 0 {
                    Err(ParseError::Malformed)
                } else {
                    match spec_parse_strings(s, b, packet_size - header_len, Seq::empty()) {
                        Err(e) => Err(e),
                        Ok((topic_filters, end)) => Ok(
                            (
                                UnsubscribeModel {
                                    packet_identifier,
                                    topic_filters,
                                    user_properties: p.user_properties,
                                },
                                end,
                            ),
                        ),
                    }
                }
            },
        },
    }
}

/// Parsing a SUBACK of `packet_size` bytes at `pos`.
pub open spec fn spec_parse_suback(s: Seq<u8>, pos: int, packet_size: u32) -> Result<
    (SubAckModel, int),
    ParseError,
> {
    match spec_parse_u16(s, pos) {
        Err(e) => Err(e),
        Ok((packet_identifier, a)) => match spec_parse_properties(s, a) {
            Err(e) => Err(e),
            Ok((p, b)) => {
                let header_len = ((b - pos) as u32) as int;
                if header_len > packet_size {
                    Err(ParseError::Unsupported)
                } else if b + (packet_size - header_len) > s.len() {
                    Err(ParseError::Incomplete((b + (packet_size - header_len) - s.len()) as usize))
                } else {
                    let end = b + (packet_size - header_len);
                    match subscribe_reasons_of(s.subrange(b, end)) {
                        None => Err(ParseError::Malformed),
                        Some(reasons) => Ok(
                            (
                                SubAckModel {
                                    packet_identifier,
                                    reason_string: p.reason_string,
                                    user_properties: p.user_properties,
                                    reasons,
                                },
                                end,
                            ),
                        ),
                    }
                }
            },
        },
    }
}

/// Parsing a CONNACK at `pos`.
pub open spec fn spec_parse_connack(s: Seq<u8>, pos: int) -> Result<(ConnAckModel, int), ParseError> {
    match spec_parse_byte(s, pos) {
        Err(e) => Err(e),
        Ok((flags, a)) => match spec_parse_byte(s, a) {
            Err(e) => Err(e),
            Ok((code, b)) => match connect_reason_of(code) {
                None => Err(ParseError::Malformed),
                Some(connect_reason) => match spec_parse_properties(s, b) {
                    Err(e) => Err(e),
                    Ok((p, end)) => Ok(
                        (
                            ConnAckModel {
                                session_present: flags % 2 == 1,
                                connect_reason,
                                session_expiry_interval: p.session_expiry_interval,
                                receive_maximum: p.receive_maximum,
                                maximum_qos: p.maximum_qos,
                                retain_available: p.retain_available,
                                maximum_packet_size: p.maximum_packet_size,
                                assigned_client_identifier: p.assigned_client_identifier,
                                topic_alias_maximum: p.topic_alias_maximum,
                                reason_string: p.reason_string,
                                user_properties: p.user_properties,
                                wildcard_subscription_available: p.wildcard_subscription_available,
                                subscription_identifiers_available: p.subscription_identifiers_available,
                                shared_subscription_available: p.shared_subscription_available,
                                server_keep_alive: p.server_keep_alive,
                                response_information: p.response_information,
                                server_reference: p.server_reference,
                                authentication_method: p.authentication_method,
                                authentication_data: p.authentication_data,
                            },
                            end,
                        ),
                    ),
                },
            },
        },
    }
}

/// Parsing a PUBACK of `packet_size` bytes at `pos`: a packet of 2 bytes holds only the
/// packet identifier and means success.
pub open spec fn spec_parse_puback(s: Seq<u8>, pos: int, packet_size: u32) -> Result<
    (PubAckModel, int),
    ParseError,
> {
    match spec_parse_u16(s, pos) {
        Err(e) => Err(e),
        Ok((packet_identifier, a)) => if packet_size < 2 {
            Err(ParseError::Malformed)
        } else if packet_size == 2 {
            Ok(
                (
                    PubAckModel {
                        packet_identifier,
                        reason: PubAckReason::Success,
                        reason_string: None,
                        user_properties: None,
                    },
                    a,
                ),
            )
        } else {
            match spec_parse_byte(s, a) {
                Err(e) => Err(e),
                Ok((code, b)) => match puback_reason_of(code) {
                    None => Err(ParseError::Malformed),
                    Some(reason) => match spec_parse_properties(s, b) {
                        Err(e) => Err(e),
                        Ok((p, end)) => Ok(
                            (
                                PubAckModel {
                                    packet_identifier,
                                    reason,
                                    reason_string: p.reason_string,
                                    user_properties: p.user_properties,
                                },
                                end,
                            ),
                        ),
                    },
                },
            }
        },
    }
}

/// Wrapping a parsed packet body into a packet.
pub open spec fn wrap<T>(r: Result<(T, int), ParseError>, f: spec_fn(T) -> MqttPacketModel) -> Result<
    (MqttPacketModel, int),
    ParseError,
> {
    match r {
        Err(e) => Err(e),
        Ok((x, next)) => Ok((f(x), next)),
    }
}

/// Parsing a packet at the start of `s`. The result is the packet and the number of bytes
/// that it took.
pub open spec fn spec_parse_mqtt(s: Seq<u8>) -> Result<(MqttPacketModel, int), ParseError> {
    match spec_parse_header(s, 0) {
        Err(e) => Err(e),
        Ok((h, pos)) => {
            let t = h.packet_type;
            if t == 1 {
                wrap(spec_parse_connect(s, pos), |c: ConnectModel| MqttPacketModel::Connect(c))
            } else if t == 2 {
                wrap(spec_parse_connack(s, pos), |c: ConnAckModel| MqttPacketModel::ConnAck(c))
            } else if t == 3 {
                wrap(
                    spec_parse_publish(s, pos, h.packet_size, h.flags),
                    |p: PublishModel| MqttPacketModel::Publish(p),
                )
            } else if t == 4 {
                wrap(spec_parse_puback(s, pos, h.packet_size), |p: PubAckModel| MqttPacketModel::PubAck(p))
            } else if t == 5 || t == 6 || t == 7 {
                Err(ParseError::Unsupported)
            } else if t == 8 {
                wrap(
                    spec_parse_subscribe(s, pos, h.packet_size),
                    |x: SubscribeModel| MqttPacketModel::Subscribe(x),
                )
            } else if t == 9 {
                wrap(spec_parse_suback(s, pos, h.packet_size), |x: SubAckModel| MqttPacketModel::SubAck(x))
            } else if t == 10 {
                wrap(
                    spec_parse_unsubscribe(s, pos, h.packet_size),
                    |x: UnsubscribeModel| MqttPacketModel::Unsubscribe(x),
                )
            } else if t == 11 {
                wrap(
                    spec_parse_unsuback(s, pos, h.packet_size),
                    |x: UnsubAckModel| MqttPacketModel::UnsubAck(x),
                )
            } else if t == 12 {
                if h.flags != 0 || h.packet_size != 0 {
                    Err(ParseError::Malformed)
                } else {
                    Ok((MqttPacketModel::PingReq, pos))
                }
            } else if t == 13 {
                if h.flags != 0 || h.packet_size != 0 {
                    Err(ParseError::Malformed)
                } else {
                    Ok((MqttPacketModel::PingResp, pos))
                }
            } else if t == 14 {
                wrap(spec_parse_disconnect(s, pos), |d: DisconnectModel| MqttPacketModel::Disconnect(d))
            } else {
                Err(ParseError::Malformed)
            }
        },
    }
}

// ---------------------------------------------------------------------------
// Parsers
// ---------------------------------------------------------------------------

fn bit_set(b: u8, k: u8) -> (res: bool)
    requires
        k < 8,
    ensures
        res == bit(b, k as nat),
{
    let p: u8 = if k == 0 {
        1
    } else if k == 1 {
        2
    } else if k == 2 {
        4
    } else if k == 3 {
        8
    } else if k == 4 {
        16
    } else if k == 5 {
        32
    } else if k == 6 {
        64
    } else {
        128
    };
    (b / p) % 2 == 1
}

fn qos_from(n: u8) -> (res: Option<QoS>)
    ensures
        res == qos_of(n as int),
{
    match n {
        0 => Some(QoS::AtMostOnce),
        1 => Some(QoS::AtLeastOnce),
        2 => Some(QoS::ExactlyOnce),
        _ => None,
    }
}

/// Parses the fixed header at `pos`.
pub fn parse_header(input: &[u8], pos: usize) -> (res: Result<(MqttHeader, usize), ParseError>)
    ensures
        match res {
            Ok((h, next)) => spec_parse_header(input@, pos as int) == Ok::<(MqttHeader, int), ParseError>((h, next as int)),
            Err(e) => spec_parse_header(input@, pos as int) == Err::<(MqttHeader, int), ParseError>(e),
        },
{
    let (b, at) = parse_byte(input, pos)?;
    let (size, next) = parse_variable_u32(input, at)?;
    proof {
        crate::codec::primitives::lemma_parse_varint_bounds(input@, at as int, 4);
    }
    if size as usize > input.len() - next {
        return Err(ParseError::Incomplete(size as usize - (input.len() - next)));
    }
    Ok((MqttHeader { packet_type: b / 16, flags: b % 16, packet_size: size }, next))
}

fn parse_will_payload(input: &[u8], pos: usize, indicator: Option<u8>) -> (res: Result<
    (Payload, usize),
    ParseError,
>)
    ensures
        match res {
            Ok((p, next)) => spec_parse_will_payload(input@, pos as int, indicator) == Ok::<(PayloadModel, int), ParseError>(
                (p.deep_view(), next as int),
            ),
            Err(e) => spec_parse_will_payload(input@, pos as int, indicator) == Err::<(PayloadModel, int), ParseError>(e),
        },
{
    match indicator {
        Some(1) => {
            let (t, next) = parse_string(input, pos)?;
            Ok((Payload::String(t), next))
        },
        _ => {
            let (b, next) = parse_binary_data(input, pos)?;
            Ok((Payload::Unspecified(b), next))
        },
    }
}

fn parse_will(input: &[u8], pos: usize, flags: u8, will_qos: QoS) -> (res: Result<
    (Option<Will>, usize),
    ParseError,
>)
    ensures
        match res {
            Ok((w, next)) => spec_parse_will(input@, pos as int, flags, will_qos) == Ok::<(Option<WillModel>, int), ParseError>(
                (w.deep_view(), next as int),
            ),
            Err(e) => spec_parse_will(input@, pos as int, flags, will_qos) == Err::<(Option<WillModel>, int), ParseError>(e),
        },
{
    if !bit_set(flags, 2) {
        return Ok((None, pos));
    }
    let (wp, a) = parse_properties(input, pos)?;
    let (topic, b) = parse_string(input, a)?;
    let (payload, c) = parse_will_payload(input, b, wp.payload_format_indicator)?;
    let will = Will {
        retain: bit_set(flags, 5),
        qos: will_qos,
        topic,
        payload,
        delay_interval: wp.will_delay_interval,
        message_expiry_interval: wp.message_expiry_interval,
        content_type: wp.content_type,
        response_topic: wp.response_topic,
        correlation_data: wp.correlation_data,
        user_properties: wp.user_properties,
    };
    Ok((Some(will), c))
}

fn parse_opt_string(input: &[u8], pos: usize, present: bool) -> (res: Result<
    (Option<String>, usize),
    ParseError,
>)
    ensures
        match res {
            Ok((o, next)) => spec_parse_opt_string(input@, pos as int, present) == Ok::<(Option<Seq<char>>, int), ParseError>(
                (o.deep_view(), next as int),
            ),
            Err(e) => spec_parse_opt_string(input@, pos as int, present) == Err::<(Option<Seq<char>>, int), ParseError>(e),
        },
{
    if !present {
        return Ok((None, pos));
    }
    let (t, next) = parse_string(input, pos)?;
    Ok((Some(t), next))
}

fn parse_opt_binary(input: &[u8], pos: usize, present: bool) -> (res: Result<
    (Option<Vec<u8>>, usize),
    ParseError,
>)
    ensures
        match res {
            Ok((o, next)) => spec_parse_opt_binary(input@, pos as int, present) == Ok::<(Option<Seq<u8>>, int), ParseError>(
                (crate::types::bytes_view(&o), next as int),
            ),
            Err(e) => spec_parse_opt_binary(input@, pos as int, present) == Err::<(Option<Seq<u8>>, int), ParseError>(e),
        },
{
    if !present {
        return Ok((None, pos));
    }
    let (b, next) = parse_binary_data(input, pos)?;
    Ok((Some(b), next))
}

/// Parses the variable header and payload of a CONNECT at `pos`.
pub fn parse_connect(input: &[u8], pos: usize) -> (res: Result<(Connect, usize), ParseError>)
    ensures
        match res {
            Ok((c, next)) => spec_parse_connect(input@, pos as int) == Ok::<(ConnectModel, int), ParseError>(
                (c.deep_view(), next as int),
            ),
            Err(e) => spec_parse_connect(input@, pos as int) == Err::<(ConnectModel, int), ParseError>(e),
        },
{
    let (protocol_name, a) = parse_string(input, pos)?;
    let mqtt = "MQTT".to_owned();
    proof {
        reveal_strlit("MQTT");
        assert("MQTT"@ =~= seq!['M', 'Q', 'T', 'T']);
    }
    if !(protocol_name == mqtt) {
        return Err(ParseError::Malformed);
    }
    let (protocol_version, b) = parse_byte(input, a)?;
    let (flags, c) = parse_byte(input, b)?;
    let will_qos = match qos_from((flags / 8) % 4) {
        Some(q) => q,
        None => {
            return Err(ParseError::Malformed);
        },
    };
    let (keep_alive, d) = parse_u16(input, c)?;
    let (properties, e) = parse_properties(input, d)?;
    let (client_identifier, f) = parse_string(input, e)?;
    let (will, g) = parse_will(input, f, flags, will_qos)?;
    let (username, h) = parse_opt_string(input, g, bit_set(flags, 7))?;
    let (password, end) = parse_opt_binary(input, h, bit_set(flags, 6))?;
    let ghost pm = properties.deep_view();
    let authentication = match properties.authentication_method {
        Some(authentication_method) => Some(
            Authentication { authentication_method, authentication_data: properties.authentication_data },
        ),
        None => None,
    };
    let connect = Connect {
        protocol_name,
        protocol_version,
        client_identifier,
        username,
        password,
        will,
        clean_start: bit_set(flags, 1),
        keep_alive,
        session_expiry_interval: properties.session_expiry_interval,
        receive_maximum: properties.receive_maximum,
        maximum_packet_size: properties.maximum_packet_size,
        topic_alias_maximum: properties.topic_alias_maximum,
        request_response_information: properties.request_response_information,
        request_problem_information: properties.request_problem_information,
        user_properties: properties.user_properties,
        authentication,
    };
    Ok((connect, end))
}

fn disconnect_reason_from(b: u8) -> (res: Option<DisconnectReason>)
    ensures
        res == disconnect_reason_of(b),
{
    match b {
        0 => Some(DisconnectReason::NormalDisconnection),
        142 => Some(DisconnectReason::SessionTakenOver),
        148 => Some(DisconnectReason::TopicAliasInvalid),
        _ => None,
    }
}

/// Parses a DISCONNECT at `pos`.
pub fn parse_disconnect(input: &[u8], pos: usize) -> (res: Result<(Disconnect, usize), ParseError>)
    ensures
        match res {
            Ok((d, next)) => spec_parse_disconnect(input@, pos as int) == Ok::<(DisconnectModel, int), ParseError>(
                (d.deep_view(), next as int),
            ),
            Err(e) => spec_parse_disconnect(input@, pos as int) == Err::<(DisconnectModel, int), ParseError>(e),
        },
{
    if pos >= input.len() {
        return Ok(
            (
                Disconnect {
                    disconnect_reason: DisconnectReason::NormalDisconnection,
                    session_expiry_interval: None,
                    reason_string: None,
                    user_properties: None,
                    server_reference: None,
                },
                pos,
            ),
        );
    }
    let (b, a) = parse_byte(input, pos)?;
    let disconnect_reason = match disconnect_reason_from(b) {
        Some(r) => r,
        None => {
            return Err(ParseError::Unsupported);
        },
    };
    let (properties, end) = parse_properties(input, a)?;
    Ok(
        (
            Disconnect {
                disconnect_reason,
                session_expiry_interval: properties.session_expiry_interval,
                reason_string: properties.reason_string,
                user_properties: properties.user_properties,
                server_reference: properties.server_reference,
            },
            end,
        ),
    )
}

fn parse_publish_id(input: &[u8], pos: usize, qos: QoS) -> (res: Result<(Option<u16>, usize), ParseError>)
    ensures
        match res {
            Ok((id, next)) => spec_parse_publish_id(input@, pos as int, qos) == Ok::<(Option<u16>, int), ParseError>(
                (id, next as int),
            ),
            Err(e) => spec_parse_publish_id(input@, pos as int, qos) == Err::<(Option<u16>, int), ParseError>(e),
        },
{
    match qos {
        QoS::AtMostOnce => Ok((None, pos)),
        _ => {
            let (id, next) = parse_u16(input, pos)?;
            if id == 0 {
                Err(ParseError::Malformed)
            } else {
                Ok((Some(id), next))
            }
        },
    }
}

/// Parses the variable header and payload of a PUBLISH of `packet_size` bytes at `pos`.
pub fn parse_publish(packet_size: u32, flags: u8, input: &[u8], pos: usize) -> (res: Result<
    (Publish, usize),
    ParseError,
>)
    ensures
        match res {
            Ok((p, next)) => spec_parse_publish(input@, pos as int, packet_size, flags) == Ok::<(PublishModel, int), ParseError>(
                (p.deep_view(), next as int),
            ),
            Err(e) => spec_parse_publish(input@, pos as int, packet_size, flags) == Err::<(PublishModel, int), ParseError>(e),
        },
{
    let qos = match qos_from((flags / 2) % 4) {
        Some(q) => q,
        None => {
            return Err(ParseError::Malformed);
        },
    };
    let (topic_name, a) = parse_string(input, pos)?;
    let (packet_identifier, b) = parse_publish_id(input, a, qos)?;
    let (properties, c) = parse_properties(input, b)?;
    let header_len = (c - pos) as u32;
    match properties.payload_format_indicator {
        Some(1) => {
            return Err(ParseError::Unsupported);
        },
        _ => {},
    }
    if header_len > packet_size {
        return Err(ParseError::Unsupported);
    }
    let payload_len = (packet_size - header_len) as usize;
    if payload_len > input.len() - c {
        return Err(ParseError::Incomplete(payload_len - (input.len() - c)));
    }
    let end = c + payload_len;
    let payload = vstd::slice::slice_to_vec(vstd::slice::slice_subrange(input, c, end));
    Ok(
        (
            Publish {
                duplicate: bit_set(flags, 3),
                qos,
                retain: bit_set(flags, 0),
                topic_name,
                packet_identifier,
                message_expiry_interval: properties.message_expiry_interval,
                topic_alias: properties.topic_alias,
                response_topic: properties.response_topic,
                correlation_data: properties.correlation_data,
                user_properties: properties.user_properties,
                subscription_identifier: properties.subscription_identifier,
                content_type: properties.content_type,
                payload: Payload::Unspecified(payload),
            },
            end,
        ),
    )
}

fn retain_handling_from(n: u8) -> (res: Option<RetainHandling>)
    ensures
        res == retain_handling_of(n as int),
{
    match n {
        0 => Some(RetainHandling::SendRetained),
        1 => Some(RetainHandling::SendRetainedForNewSubscription),
        2 => Some(RetainHandling::DoNotSendRetained),
        _ => None,
    }
}

fn parse_topic_filter(input: &[u8], pos: usize) -> (res: Result<(TopicFilter, usize), ParseError>)
    ensures
        match res {
            Ok((tf, next)) => spec_parse_topic_filter(input@, pos as int) == Ok::<(TopicFilterModel, int), ParseError>(
                (tf.deep_view(), next as int),
            ),
            Err(e) => spec_parse_topic_filter(input@, pos as int) == Err::<(TopicFilterModel, int), ParseError>(e),
        },
{
    let (filter, a) = parse_string(input, pos)?;
    let (options, b) = parse_byte(input, a)?;
    let maximum_qos = match qos_from(options % 4) {
        Some(q) => q,
        None => {
            return Err(ParseError::Malformed);
        },
    };
    let retain_handling = match retain_handling_from((options / 16) % 4) {
        Some(r) => r,
        None => {
            return Err(ParseError::Malformed);
        },
    };
    Ok(
        (
            TopicFilter {
                filter,
                maximum_qos,
                no_local: bit_set(options, 2),
                retain_as_published: bit_set(options, 3),
                retain_handling,
            },
            b,
        ),
    )
}

/// Parses a SUBSCRIBE of `packet_size` bytes at `pos`.
#[verifier::loop_isolation(false)]
pub fn parse_subscribe(packet_size: u32, input: &[u8], pos: usize) -> (res: Result<
    (Subscribe, usize),
    ParseError,
>)
    ensures
        match res {
            Ok((x, next)) => spec_parse_subscribe(input@, pos as int, packet_size) == Ok::<(SubscribeModel, int), ParseError>(
                (x.deep_view(), next as int),
            ),
            Err(e) => spec_parse_subscribe(input@, pos as int, packet_size) == Err::<(SubscribeModel, int), ParseError>(e),
        },
{
    let (packet_identifier, a) = parse_u16(input, pos)?;
    let (properties, b) = parse_properties(input, a)?;
    let header_len = (b - pos) as u32;
    if header_len > packet_size {
        return Err(ParseError::Unsupported);
    }
    let mut remaining: u32 = packet_size - header_len;
    let mut cur: usize = b;
    let mut topic_filters: Vec<TopicFilter> = Vec::new();
    assert(topic_filters.deep_view() =~= Seq::<TopicFilterModel>::empty());
    let ghost total = spec_parse_topic_filters(input@, b as int, (packet_size - header_len) as int, Seq::empty());
    while remaining > 0
        invariant
            spec_parse_topic_filters(input@, cur as int, remaining as int, topic_filters.deep_view()) == total,
        decreases remaining,
    {
        let (tf, next) = parse_topic_filter(input, cur)?;
        let advance = (next - cur) as u32;
        if advance > remaining || advance == 0 {
            return Err(ParseError::Malformed);
        }
        let ghost before = topic_filters.deep_view();
        topic_filters.push(tf);
        assert(topic_filters.deep_view() == before.push(tf.deep_view()));
        remaining = remaining - advance;
        cur = next;
    }
    Ok(
        (
            Subscribe {
                packet_identifier,
                subscription_identifier: properties.subscription_identifier,
                user_properties: properties.user_properties,
                topic_filters,
            },
            cur,
        ),
    )
}

fn unsubscribe_reason_from(b: u8) -> (res: Option<UnsubscribeReason>)
    ensures
        res == unsubscribe_reason_of(b),
{
    match b {
        0 => Some(UnsubscribeReason::Success),
        17 => Some(UnsubscribeReason::NoSubscriptionExisted),
        128 => Some(UnsubscribeReason::UnspecifiedError),
        131 => Some(UnsubscribeReason::ImplementationSpecificError),
        135 => Some(UnsubscribeReason::NotAuthorized),
        143 => Some(UnsubscribeReason::TopicFilterInvalid),
        145 => Some(UnsubscribeReason::PacketIdentifierInUse),
        _ => None,
    }
}

/// Parses an UNSUBACK of `packet_size` bytes at `pos`.
#[verifier::loop_isolation(false)]
pub fn parse_unsuback(packet_size: u32, input: &[u8], pos: usize) -> (res: Result<
    (UnsubAck, usize),
    ParseError,
>)
    ensures
        match res {
            Ok((x, next)) => spec_parse_unsuback(input@, pos as int, packet_size) == Ok::<(UnsubAckModel, int), ParseError>(
                (x.deep_view(), next as int),
            ),
            Err(e) => spec_parse_unsuback(input@, pos as int, packet_size) == Err::<(UnsubAckModel, int), ParseError>(e),
        },
{
    let (packet_identifier, a) = parse_u16(input, pos)?;
    let (properties, b) = parse_properties(input, a)?;
    let header_len = (b - pos) as u32;
    if header_len > packet_size {
        return Err(ParseError::Unsupported);
    }
    let remaining = (packet_size - header_len) as usize;
    if remaining == 0 {
        return Err(ParseError::Malformed);
    }
    if remaining > input.len() - b {
        return Err(ParseError::Incomplete(remaining - (input.len() - b)));
    }
    let end = b + remaining;
    let mut reasons: Vec<UnsubscribeReason> = Vec::new();
    let mut i: usize = b;
    while i < end
        invariant
            b <= i <= end <= input@.len(),
            unsubscribe_reasons_of(input@.subrange(b as int, i as int)) == Some(reasons@),
        decreases end - i,
    {
        assert(input@.subrange(b as int, i + 1).drop_last() == input@.subrange(b as int, i as int));
        match unsubscribe_reason_from(input[i]) {
            Some(r) => reasons.push(r),
            None => {
                proof {
                    lemma_unsubscribe_reasons_fail(input@.subrange(b as int, end as int), (i - b) as int);
                    assert(input@.subrange(b as int, end as int).take(i - b + 1) == input@.subrange(b as int, i + 1));
                }
                return Err(ParseError::Malformed);
            },
        }
        i = i + 1;
    }
    Ok(
        (
            UnsubAck {
                packet_identifier,
                reason_string: properties.reason_string,
                user_properties: properties.user_properties,
                reasons,
            },
            end,
        ),
    )
}

proof fn lemma_unsubscribe_reasons_fail(b: Seq<u8>, j: int)
    requires
        0 <= j < b.len(),
        unsubscribe_reasons_of(b.take(j + 1)) is None,
    ensures
        unsubscribe_reasons_of(b) is None,
    decreases b.len(),
{
    if j + 1 < b.len() {
        assert(b.drop_last().take(j + 1) == b.take(j + 1));
        lemma_unsubscribe_reasons_fail(b.drop_last(), j);
    } else {
        assert(b.take(j + 1) == b);
    }
}

proof fn lemma_subscribe_reasons_fail(b: Seq<u8>, j: int)
    requires
        0 <= j < b.len(),
        subscribe_reasons_of(b.take(j + 1)) is None,
    ensures
        subscribe_reasons_of(b) is None,
    decreases b.len(),
{
    if j + 1 < b.len() {
        assert(b.drop_last().take(j + 1) == b.take(j + 1));
        lemma_subscribe_reasons_fail(b.drop_last(), j);
    } else {
        assert(b.take(j + 1) == b);
    }
}

/// Parses an UNSUBSCRIBE of `packet_size` bytes at `pos`.
#[verifier::loop_isolation(false)]
pub fn parse_unsubscribe(packet_size: u32, input: &[u8], pos: usize) -> (res: Result<
    (Unsubscribe, usize),
    ParseError,
>)
    ensures
        match res {
            Ok((x, next)) => spec_parse_unsubscribe(input@, pos as int, packet_size) == Ok::<(UnsubscribeModel, int), ParseError>(
                (x.deep_view(), next as int),
            ),
            Err(e) => spec_parse_unsubscribe(input@, pos as int, packet_size) == Err::<(UnsubscribeModel, int), ParseError>(e),
        },
{
    let (packet_identifier, a) = parse_u16(input, pos)?;
    let (properties, b) = parse_properties(input, a)?;
    let header_len = (b - pos) as u32;
    if header_len > packet_size {
        return Err(ParseError::Unsupported);
    }
    let mut remaining: u32 = packet_size - header_len;
    if remaining == 0 {
        return Err(ParseError::Malformed);
    }
    let mut cur: usize = b;
    let mut topic_filters: Vec<String> = Vec::new();
    assert(topic_filters.deep_view() =~= Seq::<Seq<char>>::empty());
    let ghost total = spec_parse_strings(input@, b as int, remaining as int, Seq::empty());
    while remaining > 0
        invariant
            spec_parse_strings(input@, cur as int, remaining as int, topic_filters.deep_view()) == total,
        decreases remaining,
    {
        let (t, next) = parse_string(input, cur)?;
        let advance = (next - cur) as u32;
        if advance > remaining {
            return Err(ParseError::Unsupported);
        }
        if advance == 0 {
            return Err(ParseError::Malformed);
        }
        let ghost before = topic_filters.deep_view();
        topic_filters.push(t);
        assert(topic_filters.deep_view() == before.push(t@));
        remaining = remaining - advance;
        cur = next;
    }
    Ok(
        (
            Unsubscribe {
                packet_identifier,
                topic_filters,
                user_properties: properties.user_properties,
            },
            cur,
        ),
    )
}

/// Parses a SUBACK of `packet_size` bytes at `pos`.
#[verifier::loop_isolation(false)]
pub fn parse_suback(packet_size: u32, input: &[u8], pos: usize) -> (res: Result<
    (SubAck, usize),
    ParseError,
>)
    ensures
        match res {
            Ok((x, next)) => spec_parse_suback(input@, pos as int, packet_size) == Ok::<(SubAckModel, int), ParseError>(
                (x.deep_view(), next as int),
            ),
            Err(e) => spec_parse_suback(input@, pos as int, packet_size) == Err::<(SubAckModel, int), ParseError>(e),
        },
{
    let (packet_identifier, a) = parse_u16(input, pos)?;
    let (properties, b) = parse_properties(input, a)?;
    let header_len = (b - pos) as u32;
    if header_len > packet_size {
        return Err(ParseError::Unsupported);
    }
    let remaining = (packet_size - header_len) as usize;
    if remaining > input.len() - b {
        return Err(ParseError::Incomplete(remaining - (input.len() - b)));
    }
    let end = b + remaining;
    let mut reasons: Vec<SubscribeReason> = Vec::new();
    let mut i: usize = b;
    while i < end
        invariant
            b <= i <= end <= input@.len(),
            subscribe_reasons_of(input@.subrange(b as int, i as int)) == Some(reasons@),
        decreases end - i,
    {
        assert(input@.subrange(b as int, i + 1).drop_last() == input@.subrange(b as int, i as int));
        if input[i] == 0 {
            reasons.push(SubscribeReason::GrantedQoS0);
        } else {
            proof {
                lemma_subscribe_reasons_fail(input@.subrange(b as int, end as int), (i - b) as int);
                assert(input@.subrange(b as int, end as int).take(i - b + 1) == input@.subrange(b as int, i + 1));
            }
            return Err(ParseError::Malformed);
        }
        i = i + 1;
    }
    Ok(
        (
            SubAck {
                packet_identifier,
                reason_string: properties.reason_string,
                user_properties: properties.user_properties,
                reasons,
            },
            end,
        ),
    )
}

fn connect_reason_from(b: u8) -> (res: Option<ConnectReason>)
    ensures
        res == connect_reason_of(b),
{
    match b {
        0 => Some(ConnectReason::Success),
        128 => Some(ConnectReason::UnspecifiedError),
        129 => Some(ConnectReason::MalformedPacket),
        130 => Some(ConnectReason::ProtocolError),
        131 => Some(ConnectReason::ImplementationSpecificError),
        132 => Some(ConnectReason::UnsupportedProtocolVersion),
        133 => Some(ConnectReason::ClientIdentifierNotValid),
        134 => Some(ConnectReason::BadUserNameOrPassword),
        135 => Some(ConnectReason::NotAuthorized),
        136 => Some(ConnectReason::ServerUnavailable),
        137 => Some(ConnectReason::ServerBusy),
        138 => Some(ConnectReason::Banned),
        140 => Some(ConnectReason::BadAuthenticationMethod),
        144 => Some(ConnectReason::TopicNameInvalid),
        149 => Some(ConnectReason::PacketTooLarge),
        151 => Some(ConnectReason::QuotaExceeded),
        153 => Some(ConnectReason::PayloadFormatInvalid),
        154 => Some(ConnectReason::RetainNotSupported),
        155 => Some(ConnectReason::QoSNotSupported),
        156 => Some(ConnectReason::UseAnotherServer),
        157 => Some(ConnectReason::ServerMoved),
        159 => Some(ConnectReason::ConnectionRateExceeded),
        _ => None,
    }
}

/// Parses a CONNACK at `pos`.
pub fn parse_connack(input: &[u8], pos: usize) -> (res: Result<(ConnAck, usize), ParseError>)
    ensures
        match res {
            Ok((x, next)) => spec_parse_connack(input@, pos as int) == Ok::<(ConnAckModel, int), ParseError>(
                (x.deep_view(), next as int),
            ),
            Err(e) => spec_parse_connack(input@, pos as int) == Err::<(ConnAckModel, int), ParseError>(e),
        },
{
    let (flags, a) = parse_byte(input, pos)?;
    let (code, b) = parse_byte(input, a)?;
    let connect_reason = match connect_reason_from(code) {
        Some(r) => r,
        None => {
            return Err(ParseError::Malformed);
        },
    };
    let (p, end) = parse_properties(input, b)?;
    Ok(
        (
            ConnAck {
                session_present: flags % 2 == 1,
                connect_reason,
                session_expiry_interval: p.session_expiry_interval,
                receive_maximum: p.receive_maximum,
                maximum_qos: p.maximum_qos,
                retain_available: p.retain_available,
                maximum_packet_size: p.maximum_packet_size,
                assigned_client_identifier: p.assigned_client_identifier,
                topic_alias_maximum: p.topic_alias_maximum,
                reason_string: p.reason_string,
                user_properties: p.user_properties,
                wildcard_subscription_available: p.wildcard_subscription_available,
                subscription_identifiers_available: p.subscription_identifiers_available,
                shared_subscription_available: p.shared_subscription_available,
                server_keep_alive: p.server_keep_alive,
                response_information: p.response_information,
                server_reference: p.server_reference,
                authentication_method: p.authentication_method,
                authentication_data: p.authentication_data,
            },
            end,
        ),
    )
}

fn puback_reason_from(b: u8) -> (res: Option<PubAckReason>)
    ensures
        res == puback_reason_of(b),
{
    match b {
        0 => Some(PubAckReason::Success),
        16 => Some(PubAckReason::NoMatchingSubscribers),
        128 => Some(PubAckReason::UnspecifiedError),
        131 => Some(PubAckReason::ImplementationSpecificError),
        135 => Some(PubAckReason::NotAuthorized),
        144 => Some(PubAckReason::TopicNameInvalid),
        145 => Some(PubAckReason::PacketIdentifierInUse),
        151 => Some(PubAckReason::QuotaExceeded),
        153 => Some(PubAckReason::PayloadFormatInvalid),
        _ => None,
    }
}

/// Parses a PUBACK of `packet_size` bytes at `pos`.
pub fn parse_puback(packet_size: u32, input: &[u8], pos: usize) -> (res: Result<
    (PubAck, usize),
    ParseError,
>)
    ensures
        match res {
            Ok((x, next)) => spec_parse_puback(input@, pos as int, packet_size) == Ok::<(PubAckModel, int), ParseError>(
                (x.deep_view(), next as int),
            ),
            Err(e) => spec_parse_puback(input@, pos as int, packet_size) == Err::<(PubAckModel, int), ParseError>(e),
        },
{
    let (packet_identifier, a) = parse_u16(input, pos)?;
    if packet_size < 2 {
        return Err(ParseError::Malformed);
    }
    if packet_size == 2 {
        return Ok(
            (
                PubAck {
                    packet_identifier,
                    reason: PubAckReason::Success,
                    reason_string: None,
                    user_properties: None,
                },
                a,
            ),
        );
    }
    let (code, b) = parse_byte(input, a)?;
    let reason = match puback_reason_from(code) {
        Some(r) => r,
        None => {
            return Err(ParseError::Malformed);
        },
    };
    let (p, end) = parse_properties(input, b)?;
    Ok(
        (
            PubAck {
                packet_identifier,
                reason,
                reason_string: p.reason_string,
                user_properties: p.user_properties,
            },
            end,
        ),
    )
}

/// Parses a packet at the start of `input`; the result is the packet and the number of
/// bytes that it took.
pub fn parse_mqtt(input: &[u8]) -> (res: Result<(MqttPacket, usize), ParseError>)
    ensures
        match res {
            Ok((p, next)) => spec_parse_mqtt(input@) == Ok::<(MqttPacketModel, int), ParseError>(
                (p.deep_view(), next as int),
            ),
            Err(e) => spec_parse_mqtt(input@) == Err::<(MqttPacketModel, int), ParseError>(e),
        },
{
    let (header, pos) = parse_header(input, 0)?;
    match header.packet_type {
        1 => {
            let (c, next) = parse_connect(input, pos)?;
            Ok((MqttPacket::Connect(c), next))
        },
        2 => {
            let (c, next) = parse_connack(input, pos)?;
            Ok((MqttPacket::ConnAck(c), next))
        },
        3 => {
            let (p, next) = parse_publish(header.packet_size, header.flags, input, pos)?;
            Ok((MqttPacket::Publish(p), next))
        },
        4 => {
            let (p, next) = parse_puback(header.packet_size, input, pos)?;
            Ok((MqttPacket::PubAck(p), next))
        },
        5 | 6 | 7 => Err(ParseError::Unsupported),
        8 => {
            let (x, next) = parse_subscribe(header.packet_size, input, pos)?;
            Ok((MqttPacket::Subscribe(x), next))
        },
        9 => {
            let (x, next) = parse_suback(header.packet_size, input, pos)?;
            Ok((MqttPacket::SubAck(x), next))
        },
        10 => {
            let (x, next) = parse_unsubscribe(header.packet_size, input, pos)?;
            Ok((MqttPacket::Unsubscribe(x), next))
        },
        11 => {
            let (x, next) = parse_unsuback(header.packet_size, input, pos)?;
            Ok((MqttPacket::UnsubAck(x), next))
        },
        12 => {
            if header.flags != 0 || header.packet_size != 0 {
                Err(ParseError::Malformed)
            } else {
                Ok((MqttPacket::PingReq, pos))
            }
        },
        13 => {
            if header.flags != 0 || header.packet_size != 0 {
                Err(ParseError::Malformed)
            } else {
                Ok((MqttPacket::PingResp, pos))
            }
        },
        14 => {
            let (d, next) = parse_disconnect(input, pos)?;
            Ok((MqttPacket::Disconnect(d), next))
        },
        _ => Err(ParseError::Malformed),
    }
}

} // verus!
