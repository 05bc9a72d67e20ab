//! Reading packets of the small model from bytes.
//!
//! A property set keeps the string and binary properties (a second one of the same kind is
//! malformed) and every user property, in the order in which they come; the other known
//! properties are read and dropped. Each parser reads at a position of its input and gives
//! the position after what it read.
use vstd::prelude::*;
use crate::codec::primitives::{
    lemma_parse_varint_bounds, parse_binary_data, parse_byte, parse_string, parse_u16, parse_u32,
    parse_variable_u32, spec_parse_binary, spec_parse_byte, spec_parse_string, spec_parse_u16,
    spec_parse_u32, spec_parse_varint, ParseError,
};
use crate::lite::protocol::{
    Connect, ConnectModel, Disconnect, DisconnectModel, DisconnectReason, MqttPacket,
    MqttPacketModel, Property, PropertyModel, Publish, PublishModel, QoS, Subscribe,
    SubscribeModel, TopicFilter, TopicFilterModel, Will, WillModel,
};

verus! {

// ---------------------------------------------------------------------------
// Specifications
// ---------------------------------------------------------------------------

/// The identifier of the property that a kept property came from.
pub open spec fn property_id(p: PropertyModel) -> int {
    match p {
        PropertyModel::SessionExpiryInterval(_) => 17,
        PropertyModel::AuthenticationMethod(_) => 21,
        PropertyModel::AuthenticationData(_) => 22,
        PropertyModel::RequestProblemInformation(_) => 23,
        PropertyModel::RequestResponseInformation(_) => 25,
        PropertyModel::ReceiveMaximum(_) => 33,
        PropertyModel::TopicAliasMaximum(_) => 34,
        PropertyModel::UserProperty(_, _) => 38,
        PropertyModel::MaximumPacketSize(_) => 39,
        PropertyModel::ContentType(_) => 3,
        PropertyModel::ResponseTopic(_) => 8,
        PropertyModel::CorrelationData(_) => 9,
    }
}

/// Whether `props` holds a property of identifier `id`.
pub open spec fn has_property(props: Seq<PropertyModel>, id: int) -> bool {
    exists|i: int| 0 <= i < props.len() && property_id(#[trigger] props[i]) == id
}

/// A string property of identifier `id` (content type, response topic or authentication
/// method) with value `v`.
pub open spec fn string_property(id: int, v: Seq<char>) -> PropertyModel {
    if id == 3 {
        PropertyModel::ContentType(v)
    } else if id == 8 {
        PropertyModel::ResponseTopic(v)
    } else {
        PropertyModel::AuthenticationMethod(v)
    }
}

/// A binary property of identifier `id` (correlation data or authentication data).
pub open spec fn binary_property(id: int, v: Seq<u8>) -> PropertyModel {
    if id == 9 {
        PropertyModel::CorrelationData(v)
    } else {
        PropertyModel::AuthenticationData(v)
    }
}

/// Keeping `p`, of identifier `id`, after reading it: malformed when one of its kind is kept.
pub open spec fn keep_once(props: Seq<PropertyModel>, id: int, p: PropertyModel, next: int) -> Result<
    (Seq<PropertyModel>, int),
    ParseError,
> {
    if has_property(props, id) {
        Err(ParseError::Malformed)
    } else {
        Ok((props.push(p), next))
    }
}

/// Reading the value of a property of identifier `id` at `pos`, after the properties
/// `props`: the properties then, and the position after the value.
pub open spec fn spec_property_value(s: Seq<u8>, pos: int, id: int, props: Seq<PropertyModel>) -> Result<
    (Seq<PropertyModel>, int),
    ParseError,
> {
    if id == 1 || id == 23 || id == 25 {
        match spec_parse_byte(s, pos) {
            Err(e) => Err(e),
            Ok((_, next)) => Ok((props, next)),
        }
    } else if id == 2 || id == 17 || id == 24 || id == 39 {
        match spec_parse_u32(s, pos) {
            Err(e) => Err(e),
            Ok((_, next)) => Ok((props, next)),
        }
    } else if id == 33 || id == 34 {
        match spec_parse_u16(s, pos) {
            Err(e) => Err(e),
            Ok((_, next)) => Ok((props, next)),
        }
    } else if id == 3 || id == 8 || id == 21 {
        match spec_parse_string(s, pos) {
            Err(e) => Err(e),
            Ok((v, next)) => keep_once(props, id, string_property(id, v), next),
        }
    } else if id == 9 || id == 22 {
        match spec_parse_binary(s, pos) {
            Err(e) => Err(e),
            Ok((v, next)) => keep_once(props, id, binary_property(id, v), next),
        }
    } else if id == 38 {
        match spec_parse_string(s, pos) {
            Err(e) => Err(e),
            Ok((key, a)) => match spec_parse_string(s, a) {
                Err(e) => Err(e),
                Ok((value, next)) => Ok((props.push(PropertyModel::UserProperty(key, value)), next)),
            },
        }
    } else {
        Err(ParseError::Malformed)
    }
}

/// Reading properties at `pos` while `remaining` bytes of the property set are left, after
/// the properties `props`. A property that runs past the set is not handled.
pub open spec fn spec_properties_from(s: Seq<u8>, pos: int, remaining: int, props: Seq<PropertyModel>) -> Result<
    (Seq<PropertyModel>, int),
    ParseError,
>
    decreases remaining,
{
    if remaining <= 0 {
        Ok((props, pos))
    } else {
        match spec_parse_varint(s, pos) {
            Err(e) => Err(e),
            Ok((id, a)) => match spec_property_value(s, a, id, props) {
                Err(e) => Err(e),
                Ok((props2, b)) => if b - pos > remaining {
                    Err(ParseError::Unsupported)
                } else {
                    proof {
                        lemma_parse_varint_bounds(s, pos, 4);
                        lemma_property_value_advances(s, a, id, props);
                    }
                    spec_properties_from(s, b, remaining - (b - pos), props2)
                },
            },
        }
    }
}

/// Reading a property set at `pos`: its length, then the properties.
pub open spec fn spec_properties(s: Seq<u8>, pos: int) -> Result<(Seq<PropertyModel>, int), ParseError> {
    match spec_parse_varint(s, pos) {
        Err(e) => Err(e),
        Ok((len, a)) => spec_properties_from(s, a, len, Seq::empty()),
    }
}

/// Reading an optional string at `pos`, present when `present` holds.
pub open spec fn spec_optional_string(s: Seq<u8>, pos: int, present: bool) -> Result<
    (Option<Seq<char>>, int),
    ParseError,
> {
    if present {
        match spec_parse_string(s, pos) {
            Err(e) => Err(e),
            Ok((v, next)) => Ok((Some(v), next)),
        }
    } else {
        Ok((None, pos))
    }
}

/// Reading the will of a CONNECT at `pos`, when the connect flags `flags` ask for one.
pub open spec fn spec_will(s: Seq<u8>, pos: int, flags: u8) -> Result<(Option<WillModel>, int), ParseError> {
    if (flags / 4) % 2 == 0 {
        Ok((None, pos))
    } else {
        match spec_properties(s, pos) {
            Err(e) => Err(e),
            Ok((properties, a)) => match spec_parse_string(s, a) {
                Err(e) => Err(e),
                Ok((topic, b)) => match spec_parse_binary(s, b) {
                    Err(e) => Err(e),
                    Ok((payload, c)) => Ok(
                        (
                            Some(
                                WillModel {
                                    retain: (flags / 32) % 2 == 1,
                                    qos: ((flags / 8) % 4) as u8,
                                    topic,
                                    properties,
                                    payload,
                                },
                            ),
                            c,
                        ),
                    ),
                },
            },
        }
    }
}

/// Reading the body of a CONNECT at `pos`: the protocol name, which must be "MQTT", the
/// version, the connect flags, the keep alive, the properties, the client identifier, then
/// the will, the user name and the password as the flags ask.
pub open spec fn spec_connect(s: Seq<u8>, pos: int) -> Result<(ConnectModel, int), ParseError> {
    match spec_parse_string(s, pos) {
        Err(e) => Err(e),
        Ok((protocol_name, a)) => if protocol_name != "MQTT"@ {
            Err(ParseError::Malformed)
        } else {
            match spec_parse_byte(s, a) {
                Err(e) => Err(e),
                Ok((protocol_version, b)) => match spec_parse_byte(s, b) {
                    Err(e) => Err(e),
                    Ok((flags, c)) => match spec_parse_u16(s, c) {
                        Err(e) => Err(e),
                        Ok((keep_alive, d)) => match spec_properties(s, d) {
                            Err(e) => Err(e),
                            Ok((properties, e1)) => match spec_parse_string(s, e1) {
                                Err(e) => Err(e),
                                Ok((client_identifier, f)) => match spec_will(s, f, flags) {
                                    Err(e) => Err(e),
                                    Ok((will, g)) => match spec_optional_string(s, g, flags / 128 == 1) {
                                        Err(e) => Err(e),
                                        Ok((username, h)) => match spec_optional_string(
                                            s,
                                            h,
                                            (flags / 64) % 2 == 1,
                                        ) {
                                            Err(e) => Err(e),
                                            Ok((password, i)) => Ok(
                                                (
                                                    ConnectModel {
                                                        protocol_name,
                                                        protocol_version,
                                                        client_identifier,
                                                        username,
                                                        password,
                                                        will,
                                                        clean_start: (flags / 2) % 2 == 1,
                                                        keep_alive,
                                                        properties,
                                                    },
                                                    i,
                                                ),
                                            ),
                                        },
                                    },
                                },
                            },
                        },
                    },
                },
            }
        },
    }
}

/// Reading the body of a DISCONNECT at `pos`: only the reason Normal Disconnection (0) is
/// handled, then the properties.
pub open spec fn spec_disconnect(s: Seq<u8>, pos: int) -> Result<(DisconnectModel, int), ParseError> {
    match spec_parse_byte(s, pos) {
        Err(e) => Err(e),
        Ok((reason, a)) => if reason != 0 {
            Err(ParseError::Unsupported)
        } else {
            match spec_properties(s, a) {
                Err(e) => Err(e),
                Ok((properties, b)) => Ok((DisconnectModel { properties }, b)),
            }
        },
    }
}

/// The QoS number that the flags of a PUBLISH give: the flags are masked with 0b0110, and
/// 0 means QoS 0, 2 means QoS 2; the other two values are malformed.
pub open spec fn publish_qos(flags: u8) -> Option<u8> {
    let m = (flags / 2) % 4;
    if m == 0 {
        Some(0u8)
    } else if m == 1 {
        Some(2u8)
    } else {
        None
    }
}

/// Reading the packet identifier of a PUBLISH of QoS `qos` at `pos`, present when the QoS
/// is not 0.
pub open spec fn spec_publish_id(s: Seq<u8>, pos: int, qos: u8) -> Result<(Option<u16>, int), ParseError> {
    if qos == 0 {
        Ok((None, pos))
    } else {
        match spec_parse_u16(s, pos) {
            Err(e) => Err(e),
            Ok((id, next)) => Ok((Some(id), next)),
        }
    }
}

/// Reading the body of a PUBLISH of `packet_size` bytes with first-byte flags `flags` at
/// `pos`: the topic name, the packet identifier, the properties, and the rest of the packet
/// as the payload.
pub open spec fn spec_publish(s: Seq<u8>, pos: int, packet_size: int, flags: u8) -> Result<
    (PublishModel, int),
    ParseError,
> {
    match publish_qos(flags) {
        None => Err(ParseError::Malformed),
        Some(qos) => match spec_parse_string(s, pos) {
            Err(e) => Err(e),
            Ok((topic_name, a)) => match spec_publish_id(s, a, qos) {
                Err(e) => Err(e),
                Ok((packet_identifier, b)) => match spec_properties(s, b) {
                    Err(e) => Err(e),
                    Ok((properties, c)) => if c - pos > packet_size {
                        Err(ParseError::Unsupported)
                    } else if c + (packet_size - (c - pos)) > s.len() {
                        Err(ParseError::Incomplete((c + (packet_size - (c - pos)) - s.len()) as usize))
                    } else {
                        let end = c + (packet_size - (c - pos));
                        Ok(
                            (
                                PublishModel {
                                    duplicate: (flags / 8) % 2 == 1,
                                    qos,
                                    retain: flags % 2 == 1,
                                    topic_name,
                                    packet_identifier,
                                    properties,
                                    payload: s.subrange(c, end),
                                },
                                end,
                            ),
                        )
                    },
                },
            },
        },
    }
}

/// The topic filter that a topic name and a subscription options byte give: the options
/// are masked with 0b11 for the maximum QoS, where 3 is malformed, and for the retain
/// handling too.
pub open spec fn topic_filter_of(name: Seq<char>, options: u8) -> Option<TopicFilterModel> {
    if options % 4 == 3 {
        None
    } else {
        Some(
            TopicFilterModel {
                topic_name: name,
                maximum_qos: (options % 4) as u8,
                no_local: (options / 4) % 2 == 1,
                retain_as_published: (options / 8) % 2 == 1,
                retain_handling: (options % 4) as u8,
            },
        )
    }
}

/// Reading topic filters at `pos` while `remaining` bytes of the SUBSCRIBE are left, after
/// the filters `filters`. A filter that runs past the packet is not handled.
pub open spec fn spec_topic_filters_from(s: Seq<u8>, pos: int, remaining: int, filters: Seq<TopicFilterModel>) -> Result<
    (Seq<TopicFilterModel>, int),
    ParseError,
>
    decreases remaining,
{
    if remaining <= 0 {
        Ok((filters, pos))
    } else {
        match spec_parse_string(s, pos) {
            Err(e) => Err(e),
            Ok((name, a)) => match spec_parse_byte(s, a) {
                Err(e) => Err(e),
                Ok((options, b)) => match topic_filter_of(name, options) {
                    None => Err(ParseError::Malformed),
                    Some(f) => if b - pos > remaining {
                        Err(ParseError::Unsupported)
                    } else {
                        proof {
                            lemma_string_advances(s, pos);
                        }
                        spec_topic_filters_from(s, b, remaining - (b - pos), filters.push(f))
                    },
                },
            },
        }
    }
}

/// Reading the body of a SUBSCRIBE of `packet_size` bytes at `pos`: the packet identifier,
/// the properties, then topic filters to the end of the packet.
pub open spec fn spec_subscribe(s: Seq<u8>, pos: int, packet_size: int) -> Result<(SubscribeModel, int), ParseError> {
    match spec_parse_u16(s, pos) {
        Err(e) => Err(e),
        Ok((packet_identifier, a)) => match spec_properties(s, a) {
            Err(e) => Err(e),
            Ok((properties, b)) => if b - pos > packet_size {
                Err(ParseError::Unsupported)
            } else {
                match spec_topic_filters_from(s, b, packet_size - (b - pos), Seq::empty()) {
                    Err(e) => Err(e),
                    Ok((topic_filters, c)) => Ok(
                        (SubscribeModel { packet_identifier, properties, topic_filters }, c),
                    ),
                }
            },
        },
    }
}

/// Reading the first packet of `s`: the packet and the number of bytes it took. The first
/// byte gives the packet type (high four bits) and flags (low four bits); a Variable Byte
/// Integer of at most four bytes gives the remaining length. CONNECT, PUBLISH, SUBSCRIBE,
/// PINGREQ, PINGRESP and DISCONNECT are read; PINGREQ and PINGRESP must have no flags.
pub open spec fn spec_parse_lite(s: Seq<u8>) -> Result<(MqttPacketModel, int), ParseError> {
    match spec_parse_byte(s, 0) {
        Err(e) => Err(e),
        Ok((first, a)) => match spec_parse_varint(s, a) {
            Err(e) => Err(e),
            Ok((size, p)) => {
                let packet_type = first / 16;
                let flags = (first % 16) as u8;
                if packet_type == 1 {
                    match spec_connect(s, p) {
                        Err(e) => Err(e),
                        Ok((c, n)) => Ok((MqttPacketModel::Connect(c), n)),
                    }
                } else if packet_type == 3 {
                    match spec_publish(s, p, size, flags) {
                        Err(e) => Err(e),
                        Ok((x, n)) => Ok((MqttPacketModel::Publish(x), n)),
                    }
                } else if packet_type == 8 {
                    match spec_subscribe(s, p, size) {
                        Err(e) => Err(e),
                        Ok((x, n)) => Ok((MqttPacketModel::Subscribe(x), n)),
                    }
                } else if packet_type == 12 {
                    if flags != 0 {
                        Err(ParseError::Malformed)
                    } else {
                        Ok((MqttPacketModel::PingReq, p))
                    }
                } else if packet_type == 13 {
                    if flags != 0 {
                        Err(ParseError::Malformed)
                    } else {
                        Ok((MqttPacketModel::PingResp, p))
                    }
                } else if packet_type == 14 {
                    match spec_disconnect(s, p) {
                        Err(e) => Err(e),
                        Ok((d, n)) => Ok((MqttPacketModel::Disconnect(d), n)),
                    }
                } else {
                    Err(ParseError::Malformed)
                }
            },
        },
    }
}

// ---------------------------------------------------------------------------
// Lemmas
// ---------------------------------------------------------------------------

/// A property value ends at or after where it started.
pub proof fn lemma_property_value_advances(s: Seq<u8>, pos: int, id: int, props: Seq<PropertyModel>)
    ensures
        spec_property_value(s, pos, id, props) matches Ok((_, next)) ==> next >= pos,
{
}

/// A string ends at least two bytes after where it started.
pub proof fn lemma_string_advances(s: Seq<u8>, pos: int)
    ensures
        spec_parse_string(s, pos) matches Ok((_, next)) ==> next >= pos + 2,
{
}

/// A property value that was read lies within the input.
pub proof fn lemma_value_within(s: Seq<u8>, pos: int, id: int, props: Seq<PropertyModel>)
    ensures
        spec_property_value(s, pos, id, props) matches Ok((_, next)) ==> next <= s.len(),
{
}

/// A property set that was read ends within the input, at or after where it started.
pub proof fn lemma_properties_within(s: Seq<u8>, pos: int)
    ensures
        spec_properties(s, pos) matches Ok((_, next)) ==> pos <= next <= s.len(),
{
    if let Ok((len, a)) = spec_parse_varint(s, pos) {
        lemma_parse_varint_bounds(s, pos, 4);
        lemma_properties_from_within(s, a, len, Seq::empty());
    }
}

proof fn lemma_properties_from_within(s: Seq<u8>, pos: int, remaining: int, props: Seq<PropertyModel>)
    requires
        pos <= s.len(),
    ensures
        spec_properties_from(s, pos, remaining, props) matches Ok((_, next)) ==> pos <= next <= s.len(),
    decreases remaining,
{
    if remaining > 0 {
        if let Ok((id, a)) = spec_parse_varint(s, pos) {
            lemma_parse_varint_bounds(s, pos, 4);
            lemma_property_value_advances(s, a, id, props);
            lemma_value_within(s, a, id, props);
            if let Ok((props2, b)) = spec_property_value(s, a, id, props) {
                if b - pos <= remaining {
                    lemma_properties_from_within(s, b, remaining - (b - pos), props2);
                }
            }
        }
    }
}

/// A subscription options byte gives the maximum QoS in bits 0 and 1 (where 3 is
/// malformed), No Local in bit 2 and Retain As Published in bit 3; the retain handling is
/// read, as the mask 0b0011_0000 >> 4 gives, from bits 0 and 1 too.
pub proof fn lemma_subscription_options_bits(name: Seq<char>, o: u8)
    ensures
        topic_filter_of(name, o) is None <==> o & 3u8 == 3u8,
        topic_filter_of(name, o) matches Some(f) ==> {
            &&& f.topic_name == name
            &&& f.maximum_qos == o & 3u8
            &&& f.no_local == (o & 4u8 == 4u8)
            &&& f.retain_as_published == (o & 8u8 == 8u8)
            &&& f.retain_handling == o & 3u8
        },
{
    assert(o & 3u8 == o % 4 && ((o & 4u8 == 4u8) == ((o / 4) % 2 == 1)) && ((o & 8u8 == 8u8) == ((o / 8)
        % 2 == 1))) by (bit_vector);
}

/// Each topic filter of a SUBSCRIBE comes from a topic name in the packet and the options
/// byte right after it: read from `pos` with `remaining` bytes left, every filter added to
/// `filters` is `topic_filter_of` a string at some position within the bytes read and the
/// byte that follows that string.
#[verifier::spinoff_prover]
pub proof fn lemma_topic_filters_from_bytes(
    s: Seq<u8>,
    pos: int,
    remaining: int,
    filters: Seq<TopicFilterModel>,
)
    ensures
        spec_topic_filters_from(s, pos, remaining, filters) matches Ok((fs, end)) ==> filters_come_from(
            s,
            pos,
            end,
            filters,
            fs,
        ),
    decreases remaining,
{
    if remaining <= 0 {
        assert(filters.subrange(0, filters.len() as int) =~= filters);
        assert(filters_come_from(s, pos, pos, filters, filters));
    } else {
        if let Ok((name, a)) = spec_parse_string(s, pos) {
            if let Ok((options, b)) = spec_parse_byte(s, a) {
                if let Some(f) = topic_filter_of(name, options) {
                    if b - pos <= remaining {
                        lemma_string_advances(s, pos);
                        let rest = spec_topic_filters_from(s, b, remaining - (b - pos), filters.push(f));
                        lemma_topic_filters_from_bytes(s, b, remaining - (b - pos), filters.push(f));
                        assert(spec_topic_filters_from(s, pos, remaining, filters) == rest);
                        if let Ok((fs, end)) = rest {
                            assert(fs.subrange(0, filters.len() as int) =~= filters) by {
                                assert(fs.subrange(0, filters.len() as int + 1) == filters.push(f));
                                assert forall|k: int| 0 <= k < filters.len() implies fs.subrange(
                                    0,
                                    filters.len() as int,
                                )[k] == filters[k] by {
                                    assert(fs.subrange(0, filters.len() as int + 1)[k] == fs[k]);
                                }
                            }
                            assert(fs[filters.len() as int] == f) by {
                                assert(fs.subrange(0, filters.len() as int + 1)[filters.len() as int] == f);
                            }
                            assert(topic_filter_from_at(s, pos, f));
                            assert(b <= end);
                            assert(a < end);
                            assert(fs.len() >= filters.len());
                            assert(pos <= end);
                            assert(fs.subrange(0, filters.len() as int) == filters);
                            assert(filters_come_from(s, pos, end, filters, fs)) by {
                                assert forall|i: int| filters.len() <= i < fs.len() implies #[trigger] comes_from(
                                    s,
                                    pos,
                                    end,
                                    fs[i],
                                ) by {
                                    if i == filters.len() {
                                        assert(fs[i] == f);
                                        assert(pos <= pos < end && topic_filter_from_at(s, pos, fs[i])
                                            && spec_parse_string(s, pos)->Ok_0.1 < end);
                                    } else {
                                        assert(comes_from(s, b, end, fs[i]));
                                        let q = choose|q: int|
                                            b <= q < end && #[trigger] topic_filter_from_at(s, q, fs[i])
                                                && spec_parse_string(s, q)->Ok_0.1 < end;
                                        assert(pos <= q < end && topic_filter_from_at(s, q, fs[i])
                                            && spec_parse_string(s, q)->Ok_0.1 < end);
                                    }
                                }
                            }
                        }
                    }
                }
            }
        }
    }
}

/// In a SUBSCRIBE read from `s`, each topic filter is a topic name of the packet together
/// with the options byte right after it: No Local is bit 2 of that byte, Retain As
/// Published bit 3, and the maximum QoS bits 0 and 1.
#[verifier::spinoff_prover]
pub proof fn lemma_subscribe_options_from_bytes(s: Seq<u8>)
    ensures
        spec_parse_lite(s) matches Ok((MqttPacketModel::Subscribe(x), n)) ==> forall|i: int|
            #![trigger x.topic_filters[i]]
            0 <= i < x.topic_filters.len() ==> exists|q: int, a: int|
                #![trigger spec_parse_string(s, q), s[a]]
                0 <= q < a < n && a < s.len() && spec_parse_string(s, q) == Ok::<(Seq<char>, int), ParseError>(
                    (x.topic_filters[i].topic_name, a),
                ) && x.topic_filters[i].no_local == (s[a] & 4u8 == 4u8)
                    && x.topic_filters[i].retain_as_published == (s[a] & 8u8 == 8u8)
                    && x.topic_filters[i].maximum_qos == s[a] & 3u8,
{
    if let Ok((MqttPacketModel::Subscribe(x), n)) = spec_parse_lite(s) {
        let (first, a0) = spec_parse_byte(s, 0)->Ok_0;
        let (size, p) = spec_parse_varint(s, a0)->Ok_0;
        let (packet_identifier, a1) = spec_parse_u16(s, p)->Ok_0;
        let (properties, b) = spec_properties(s, a1)->Ok_0;
        lemma_topic_filters_from_bytes(s, b, size - (b - p), Seq::empty());
        assert forall|i: int|
            #![trigger x.topic_filters[i]]
            0 <= i < x.topic_filters.len() implies exists|q: int, a: int|
                #![trigger spec_parse_string(s, q), s[a]]
                0 <= q < a < n && a < s.len() && spec_parse_string(s, q) == Ok::<(Seq<char>, int), ParseError>(
                    (x.topic_filters[i].topic_name, a),
                ) && x.topic_filters[i].no_local == (s[a] & 4u8 == 4u8)
                    && x.topic_filters[i].retain_as_published == (s[a] & 8u8 == 8u8)
                    && x.topic_filters[i].maximum_qos == s[a] & 3u8 by {
            let f = x.topic_filters[i];
            assert(comes_from(s, b, n, f));
            let q = choose|q: int|
                b <= q < n && #[trigger] topic_filter_from_at(s, q, f) && spec_parse_string(s, q)->Ok_0.1 < n;
            let (name, a) = spec_parse_string(s, q)->Ok_0;
            lemma_string_advances(s, q);
            lemma_subscription_options_bits(name, s[a]);
            assert(0 <= q < a < n);
        }
    }
}

/// In a CONNECT body read at `pos`, the connect flags are the byte after the protocol name
/// "MQTT" and the version: User Name in bit 7, Password in bit 6, Will Retain in bit 5,
/// the Will QoS in bits 3 and 4, the Will Flag in bit 2, Clean Start in bit 1.
pub proof fn lemma_connect_flags_read(s: Seq<u8>, pos: int)
    ensures
        spec_connect(s, pos) matches Ok((c, _)) ==> exists|a: int|
            #![trigger s[a]]
            spec_parse_string(s, pos) == Ok::<(Seq<char>, int), ParseError>(("MQTT"@, a)) && 0 <= a && a + 1
                < s.len() && c.protocol_version == s[a] && {
                let fl = s[a + 1];
                &&& (c.username is Some) == (fl & 128u8 == 128u8)
                &&& (c.password is Some) == (fl & 64u8 == 64u8)
                &&& (c.will is Some) == (fl & 4u8 == 4u8)
                &&& c.clean_start == (fl & 2u8 == 2u8)
                &&& (c.will matches Some(w) ==> w.retain == (fl & 32u8 == 32u8) && w.qos == (fl >> 3u8) & 3u8)
            },
{
    if let Ok((c, _)) = spec_connect(s, pos) {
        let (name, a) = spec_parse_string(s, pos)->Ok_0;
        let fl = s[a + 1];
        assert(((fl / 128 == 1) == (fl & 128u8 == 128u8)) && (((fl / 64) % 2 == 1) == (fl & 64u8 == 64u8)) && (((
        fl / 4) % 2 == 0) == (fl & 4u8 != 4u8)) && (((fl / 2) % 2 == 1) == (fl & 2u8 == 2u8)) && (((fl / 32) % 2
            == 1) == (fl & 32u8 == 32u8)) && ((fl / 8) % 4 == (fl >> 3u8) & 3u8)) by (bit_vector);
        assert(s[a] == s[a]);
    }
}

/// In a PUBLISH read from `s`, the flags are the low four bits of the first byte: DUP in
/// bit 3, RETAIN in bit 0, and the QoS from bits 1 and 2 (0 for QoS 0, bit 1 alone for
/// QoS 2; bit 2 set is malformed).
pub proof fn lemma_publish_flags_read(s: Seq<u8>)
    ensures
        spec_parse_lite(s) matches Ok((MqttPacketModel::Publish(x), _)) ==> {
            &&& s[0] & 0xf0u8 == 0x30u8
            &&& x.duplicate == (s[0] & 8u8 == 8u8)
            &&& x.retain == (s[0] & 1u8 == 1u8)
            &&& s[0] & 4u8 == 0u8
            &&& x.qos == (if s[0] & 2u8 == 2u8 {
                2u8
            } else {
                0u8
            })
        },
{
    if s.len() > 0 {
        let b = s[0];
        let fl = (b % 16) as u8;
        assert(((b / 16 == 3) == (b & 0xf0u8 == 0x30u8)) && fl == b & 15u8) by (bit_vector)
            requires
                fl == b % 16,
        ;
        assert((((fl / 8) % 2 == 1) == (fl & 8u8 == 8u8)) && ((fl % 2 == 1) == (fl & 1u8 == 1u8)) && (((fl / 2)
            % 4 == 0) == (fl & 6u8 == 0u8)) && (((fl / 2) % 4 == 1) == (fl & 6u8 == 2u8))) by (bit_vector);
        assert(((fl & 8u8 == 8u8) == (b & 8u8 == 8u8)) && ((fl & 1u8 == 1u8) == (b & 1u8 == 1u8)) && (fl & 6u8
            == b & 6u8) && ((b & 6u8 == 0u8 || b & 6u8 == 2u8) ==> (b & 4u8 == 0u8 && ((b & 6u8 == 2u8) == (b
            & 2u8 == 2u8))))) by (bit_vector)
            requires
                fl == b & 15u8,
        ;
    }
}

/// Reading a property value keeps the property exactly when its identifier is that of a
/// string or binary property or of a user property (3, 8, 9, 21, 22, 38), as one entry of
/// that identifier after those before; the other known identifiers are read and dropped.
/// A string or binary property that is already kept makes the set malformed.
pub proof fn lemma_property_value_kind(s: Seq<u8>, pos: int, id: int, props: Seq<PropertyModel>)
    ensures
        spec_property_value(s, pos, id, props) matches Ok((ps, _)) ==> {
            let kept = id == 3 || id == 8 || id == 9 || id == 21 || id == 22 || id == 38;
            &&& kept ==> ps.len() == props.len() + 1 && ps.drop_last() == props && property_id(ps.last()) == id
            &&& !kept ==> ps == props
            &&& (kept && id != 38 ==> !has_property(props, id))
        },
        has_property(props, id) && (id == 3 || id == 8 || id == 9 || id == 21 || id == 22) ==> spec_property_value(
            s,
            pos,
            id,
            props,
        ) is Err,
{
    if let Ok((ps, _)) = spec_property_value(s, pos, id, props) {
        if id == 3 || id == 8 || id == 9 || id == 21 || id == 22 || id == 38 {
            assert(ps.drop_last() =~= props);
        }
    }
}

/// Whether the filters `fs` are `filters` followed by filters that each come from a topic
/// name at a position between `pos` and `end` and the options byte right after it.
pub open spec fn filters_come_from(
    s: Seq<u8>,
    pos: int,
    end: int,
    filters: Seq<TopicFilterModel>,
    fs: Seq<TopicFilterModel>,
) -> bool {
    &&& pos <= end
    &&& fs.len() >= filters.len()
    &&& fs.subrange(0, filters.len() as int) == filters
    &&& forall|i: int| filters.len() <= i < fs.len() ==> #[trigger] comes_from(s, pos, end, fs[i])
}

/// Whether `f` comes from a topic name at a position between `pos` and `end` and the
/// options byte right after it, before `end`.
pub open spec fn comes_from(s: Seq<u8>, pos: int, end: int, f: TopicFilterModel) -> bool {
    exists|q: int|
        pos <= q < end && #[trigger] topic_filter_from_at(s, q, f) && spec_parse_string(s, q)->Ok_0.1 < end
}

/// Whether `f` is the topic filter that the string at `q` and the byte after it give.
pub open spec fn topic_filter_from_at(s: Seq<u8>, q: int, f: TopicFilterModel) -> bool {
    spec_parse_string(s, q) matches Ok((name, a)) && 0 <= a < s.len() && topic_filter_of(name, s[a]) == Some(f)
}

// ---------------------------------------------------------------------------
// Parsers
// ---------------------------------------------------------------------------

fn property_code(p: &Property) -> (res: u32)
    ensures
        res as int == property_id(p.deep_view()),
{
    match p {
        Property::SessionExpiryInterval(_) => 17,
        Property::AuthenticationMethod(_) => 21,
        Property::AuthenticationData(_) => 22,
        Property::RequestProblemInformation(_) => 23,
        Property::RequestResponseInformation(_) => 25,
        Property::ReceiveMaximum(_) => 33,
        Property::TopicAliasMaximum(_) => 34,
        Property::UserProperty { .. } => 38,
        Property::MaximumPacketSize(_) => 39,
        Property::ContentType(_) => 3,
        Property::ResponseTopic(_) => 8,
        Property::CorrelationData(_) => 9,
    }
}

fn holds_property(props: &Vec<Property>, id: u32) -> (res: bool)
    ensures
        res == has_property(props.deep_view(), id as int),
{
    let mut i: usize = 0;
    while i < props.len()
        invariant
            i <= props@.len(),
            forall|j: int| 0 <= j < i ==> property_id(#[trigger] props.deep_view()[j]) != id,
        decreases props@.len() - i,
    {
        if property_code(&props[i]) == id {
            assert(property_id(props.deep_view()[i as int]) == id);
            return true;
        }
        i = i + 1;
    }
    false
}

proof fn lemma_push_view(before: Seq<PropertyModel>, props: &Vec<Property>, p: &Property)
    requires
        props@.len() == before.len() + 1,
        forall|j: int| 0 <= j < before.len() ==> #[trigger] props@[j].deep_view() == before[j],
        props@[before.len() as int] == *p,
    ensures
        props.deep_view() == before.push(p.deep_view()),
{
    assert(props.deep_view() =~= before.push(p.deep_view()));
}

/// Keeps `p`, of identifier `id`, in `props`, unless one of its kind is there.
fn keep_property(props: &mut Vec<Property>, id: u32, p: Property, next: usize) -> (res: Result<usize, ParseError>)
    ensures
        match res {
            Ok(n) => keep_once(old(props).deep_view(), id as int, p.deep_view(), next as int) == Ok::<
                (Seq<PropertyModel>, int),
                ParseError,
            >((final(props).deep_view(), n as int)),
            Err(e) => keep_once(old(props).deep_view(), id as int, p.deep_view(), next as int) == Err::<
                (Seq<PropertyModel>, int),
                ParseError,
            >(e),
        },
{
    if holds_property(props, id) {
        return Err(ParseError::Malformed);
    }
    let ghost before = props.deep_view();
    let ghost pv = p.deep_view();
    props.push(p);
    proof {
        assert(props.deep_view() =~= before.push(pv)) by {
            assert forall|j: int| 0 <= j < before.len() implies props.deep_view()[j] == before[j] by {
                assert(props@[j] == old(props)@[j]);
            }
        }
    }
    Ok(next)
}

/// Reads the value of a property of identifier `id` at `pos`, keeping it in `props` where
/// the property set keeps it.
pub fn parse_property_value(input: &[u8], pos: usize, id: u32, props: &mut Vec<Property>) -> (res: Result<
    usize,
    ParseError,
>)
    ensures
        match res {
            Ok(next) => spec_property_value(input@, pos as int, id as int, old(props).deep_view()) == Ok::<
                (Seq<PropertyModel>, int),
                ParseError,
            >((final(props).deep_view(), next as int)),
            Err(e) => spec_property_value(input@, pos as int, id as int, old(props).deep_view()) == Err::<
                (Seq<PropertyModel>, int),
                ParseError,
            >(e),
        },
{
    if id == 1 || id == 23 || id == 25 {
        let (_, next) = parse_byte(input, pos)?;
        Ok(next)
    } else if id == 2 || id == 17 || id == 24 || id == 39 {
        let (_, next) = parse_u32(input, pos)?;
        Ok(next)
    } else if id == 33 || id == 34 {
        let (_, next) = parse_u16(input, pos)?;
        Ok(next)
    } else if id == 3 || id == 8 || id == 21 {
        let (v, next) = parse_string(input, pos)?;
        let p = if id == 3 {
            Property::ContentType(v)
        } else if id == 8 {
            Property::ResponseTopic(v)
        } else {
            Property::AuthenticationMethod(v)
        };
        keep_property(props, id, p, next)
    } else if id == 9 || id == 22 {
        let (v, next) = parse_binary_data(input, pos)?;
        let p = if id == 9 {
            Property::CorrelationData(v)
        } else {
            Property::AuthenticationData(v)
        };
        keep_property(props, id, p, next)
    } else if id == 38 {
        let (key, a) = parse_string(input, pos)?;
        let (value, next) = parse_string(input, a)?;
        let ghost before = props.deep_view();
        let p = Property::UserProperty { key, value };
        let ghost pv = p.deep_view();
        props.push(p);
        proof {
            assert(props.deep_view() =~= before.push(pv)) by {
                assert forall|j: int| 0 <= j < before.len() implies props.deep_view()[j] == before[j] by {
                    assert(props@[j] == old(props)@[j]);
                }
            }
        }
        Ok(next)
    } else {
        Err(ParseError::Malformed)
    }
}

/// Reads a property set at `pos`.
pub fn parse_properties(input: &[u8], pos: usize) -> (res: Result<(Vec<Property>, usize), ParseError>)
    ensures
        match res {
            Ok((props, next)) => spec_properties(input@, pos as int) == Ok::<(Seq<PropertyModel>, int), ParseError>(
                (props.deep_view(), next as int),
            ),
            Err(e) => spec_properties(input@, pos as int) == Err::<(Seq<PropertyModel>, int), ParseError>(e),
        },
{
    let (length, start) = parse_variable_u32(input, pos)?;
    proof {
        lemma_parse_varint_bounds(input@, pos as int, 4);
    }
    let mut remaining: u32 = length;
    let mut cur: usize = start;
    let mut props: Vec<Property> = Vec::new();
    proof {
        assert(props.deep_view() =~= Seq::<PropertyModel>::empty());
    }
    while remaining > 0
        invariant
            cur <= input@.len(),
            spec_properties(input@, pos as int) == spec_properties_from(
                input@,
                cur as int,
                remaining as int,
                props.deep_view(),
            ),
        decreases remaining,
    {
        let (id, a) = parse_variable_u32(input, cur)?;
        proof {
            lemma_parse_varint_bounds(input@, cur as int, 4);
        }
        let ghost before = props.deep_view();
        let b = parse_property_value(input, a, id, &mut props)?;
        proof {
            lemma_property_value_advances(input@, a as int, id as int, before);
            lemma_value_within(input@, a as int, id as int, before);
        }
        if b - cur > remaining as usize {
            return Err(ParseError::Unsupported);
        }
        remaining = remaining - ((b - cur) as u32);
        cur = b;
    }
    Ok((props, cur))
}

fn parse_optional_string(input: &[u8], pos: usize, present: bool) -> (res: Result<(Option<String>, usize), ParseError>)
    ensures
        match res {
            Ok((v, next)) => spec_optional_string(input@, pos as int, present) == Ok::<
                (Option<Seq<char>>, int),
                ParseError,
            >((v.deep_view(), next as int)),
            Err(e) => spec_optional_string(input@, pos as int, present) == Err::<
                (Option<Seq<char>>, int),
                ParseError,
            >(e),
        },
{
    if present {
        let (v, next) = parse_string(input, pos)?;
        Ok((Some(v), next))
    } else {
        Ok((None, pos))
    }
}

fn parse_will(input: &[u8], pos: usize, flags: u8) -> (res: Result<(Option<Will>, usize), ParseError>)
    ensures
        match res {
            Ok((w, next)) => spec_will(input@, pos as int, flags) == Ok::<(Option<WillModel>, int), ParseError>(
                (w.deep_view(), next as int),
            ),
            Err(e) => spec_will(input@, pos as int, flags) == Err::<(Option<WillModel>, int), ParseError>(e),
        },
{
    if (flags / 4) % 2 == 0 {
        return Ok((None, pos));
    }
    let (properties, a) = parse_properties(input, pos)?;
    let (topic, b) = parse_string(input, a)?;
    let (payload, c) = parse_binary_data(input, b)?;
    Ok(
        (
            Some(
                Will {
                    retain: (flags / 32) % 2 == 1,
                    qos: (flags / 8) % 4,
                    topic,
                    properties,
                    payload,
                },
            ),
            c,
        ),
    )
}

/// Reads the body of a CONNECT at `pos`.
pub fn parse_connect(input: &[u8], pos: usize) -> (res: Result<(Connect, usize), ParseError>)
    ensures
        match res {
            Ok((c, next)) => spec_connect(input@, pos as int) == Ok::<(ConnectModel, int), ParseError>(
                (c.deep_view(), next as int),
            ),
            Err(e) => spec_connect(input@, pos as int) == Err::<(ConnectModel, int), ParseError>(e),
        },
{
    let (protocol_name, a) = parse_string(input, pos)?;
    let mqtt = "MQTT";
    proof {
        reveal_strlit("MQTT");
    }
    if !string_is(&protocol_name, mqtt) {
        return Err(ParseError::Malformed);
    }
    let (protocol_version, b) = parse_byte(input, a)?;
    let (flags, c) = parse_byte(input, b)?;
    let (keep_alive, d) = parse_u16(input, c)?;
    let (properties, e) = parse_properties(input, d)?;
    let (client_identifier, f) = parse_string(input, e)?;
    let (will, g) = parse_will(input, f, flags)?;
    let (username, h) = parse_optional_string(input, g, flags / 128 == 1)?;
    let (password, i) = parse_optional_string(input, h, (flags / 64) % 2 == 1)?;
    Ok(
        (
            Connect {
                protocol_name,
                protocol_version,
                client_identifier,
                username,
                password,
                will,
                clean_start: (flags / 2) % 2 == 1,
                keep_alive,
                properties,
            },
            i,
        ),
    )
}

/// Whether the characters of `s` are those of `t`.
fn string_is(s: &String, t: &str) -> (res: bool)
    ensures
        res == (s@ == t@),
{
    let a = s.as_str();
    if a.unicode_len() != t.unicode_len() {
        return false;
    }
    let n = a.unicode_len();
    let mut i: usize = 0;
    while i < n
        invariant
            n == a@.len(),
            a@.len() == t@.len(),
            a@ == s@,
            i <= n,
            forall|j: int| 0 <= j < i ==> a@[j] == t@[j],
        decreases n - i,
    {
        if a.get_char(i) != t.get_char(i) {
            return false;
        }
        i = i + 1;
    }
    assert(a@ =~= t@);
    true
}

/// Reads the body of a DISCONNECT at `pos`.
pub fn parse_disconnect(input: &[u8], pos: usize) -> (res: Result<(Disconnect, usize), ParseError>)
    ensures
        match res {
            Ok((d, next)) => spec_disconnect(input@, pos as int) == Ok::<(DisconnectModel, int), ParseError>(
                (d.deep_view(), next as int),
            ),
            Err(e) => spec_disconnect(input@, pos as int) == Err::<(DisconnectModel, int), ParseError>(e),
        },
{
    let (reason, a) = parse_byte(input, pos)?;
    if reason != 0 {
        return Err(ParseError::Unsupported);
    }
    let (properties, b) = parse_properties(input, a)?;
    Ok((Disconnect { disconnect_reason: DisconnectReason::NormalDisconnection, properties }, b))
}

/// Reads the body of a PUBLISH of `packet_size` bytes with first-byte flags `flags` at `pos`.
pub fn parse_publish(input: &[u8], pos: usize, packet_size: u32, flags: u8) -> (res: Result<
    (Publish, usize),
    ParseError,
>)
    ensures
        match res {
            Ok((x, next)) => spec_publish(input@, pos as int, packet_size as int, flags) == Ok::<
                (PublishModel, int),
                ParseError,
            >((x.deep_view(), next as int)),
            Err(e) => spec_publish(input@, pos as int, packet_size as int, flags) == Err::<
                (PublishModel, int),
                ParseError,
            >(e),
        },
{
    let m = (flags / 2) % 4;
    let qos = if m == 0 {
        QoS::AtMostOnce
    } else if m == 1 {
        QoS::ExactlyOnce
    } else {
        return Err(ParseError::Malformed);
    };
    let (topic_name, a) = parse_string(input, pos)?;
    let (packet_identifier, b) = if m == 0 {
        (None, a)
    } else {
        let (id, next) = parse_u16(input, a)?;
        (Some(id), next)
    };
    let (properties, c) = parse_properties(input, b)?;
    proof {
        lemma_properties_within(input@, b as int);
    }
    if c - pos > packet_size as usize {
        return Err(ParseError::Unsupported);
    }
    let payload_len = packet_size as usize - (c - pos);
    if payload_len > input.len() - c {
        return Err(ParseError::Incomplete(payload_len - (input.len() - c)));
    }
    let end = c + payload_len;
    let payload = vstd::slice::slice_to_vec(vstd::slice::slice_subrange(input, c, end));
    Ok(
        (
            Publish {
                duplicate: (flags / 8) % 2 == 1,
                qos,
                retain: flags % 2 == 1,
                topic_name,
                packet_identifier,
                properties,
                payload,
            },
            end,
        ),
    )
}

/// Reads the body of a SUBSCRIBE of `packet_size` bytes at `pos`.
pub fn parse_subscribe(input: &[u8], pos: usize, packet_size: u32) -> (res: Result<(Subscribe, usize), ParseError>)
    ensures
        match res {
            Ok((x, next)) => spec_subscribe(input@, pos as int, packet_size as int) == Ok::<
                (SubscribeModel, int),
                ParseError,
            >((x.deep_view(), next as int)),
            Err(e) => spec_subscribe(input@, pos as int, packet_size as int) == Err::<
                (SubscribeModel, int),
                ParseError,
            >(e),
        },
{
    let (packet_identifier, a) = parse_u16(input, pos)?;
    let (properties, b) = parse_properties(input, a)?;
    proof {
        lemma_properties_within(input@, a as int);
    }
    if b - pos > packet_size as usize {
        return Err(ParseError::Unsupported);
    }
    let mut remaining: u32 = packet_size - ((b - pos) as u32);
    let mut cur: usize = b;
    let mut topic_filters: Vec<TopicFilter> = Vec::new();
    proof {
        assert(topic_filters.deep_view() =~= Seq::<TopicFilterModel>::empty());
    }
    while remaining > 0
        invariant
            cur <= input@.len(),
            b <= input@.len(),
            pos <= b,
            b - pos <= packet_size,
            spec_parse_u16(input@, pos as int) == Ok::<(u16, int), ParseError>((packet_identifier, a as int)),
            spec_properties(input@, a as int) == Ok::<(Seq<PropertyModel>, int), ParseError>(
                (properties.deep_view(), b as int),
            ),
            spec_topic_filters_from(input@, b as int, packet_size - (b - pos), Seq::empty())
                == spec_topic_filters_from(input@, cur as int, remaining as int, topic_filters.deep_view()),
        decreases remaining,
    {
        let (topic_name, a1) = parse_string(input, cur)?;
        let (options, b1) = parse_byte(input, a1)?;
        let m = options % 4;
        let maximum_qos = if m == 0 {
            QoS::AtMostOnce
        } else if m == 1 {
            QoS::AtLeastOnce
        } else if m == 2 {
            QoS::ExactlyOnce
        } else {
            return Err(ParseError::Malformed);
        };
        proof {
            lemma_string_advances(input@, cur as int);
        }
        if b1 - cur > remaining as usize {
            return Err(ParseError::Unsupported);
        }
        let f = TopicFilter {
            topic_name,
            maximum_qos,
            no_local: (options / 4) % 2 == 1,
            retain_as_published: (options / 8) % 2 == 1,
            retain_handling: m,
        };
        let ghost before = topic_filters.deep_view();
        let ghost before_items = topic_filters@;
        let ghost fv = f.deep_view();
        topic_filters.push(f);
        proof {
            assert(topic_filters.deep_view() =~= before.push(fv)) by {
                assert forall|j: int| 0 <= j < before.len() implies topic_filters.deep_view()[j] == before[j] by {
                    assert(topic_filters@[j] == before_items[j]);
                }
            }
        }
        remaining = remaining - ((b1 - cur) as u32);
        cur = b1;
    }
    Ok((Subscribe { packet_identifier, properties, topic_filters }, cur))
}

/// Reads the first packet of `input`: the packet and the number of bytes it took.
pub fn parse_mqtt(input: &[u8]) -> (res: Result<(MqttPacket, usize), ParseError>)
    ensures
        match res {
            Ok((p, n)) => spec_parse_lite(input@) == Ok::<(MqttPacketModel, int), ParseError>(
                (p.deep_view(), n as int),
            ),
            Err(e) => spec_parse_lite(input@) == Err::<(MqttPacketModel, int), ParseError>(e),
        },
{
    let (first, a) = parse_byte(input, 0)?;
    let (size, p) = parse_variable_u32(input, a)?;
    let packet_type = first / 16;
    let flags = first % 16;
    if packet_type == 1 {
        let (c, n) = parse_connect(input, p)?;
        Ok((MqttPacket::Connect(c), n))
    } else if packet_type == 3 {
        let (x, n) = parse_publish(input, p, size, flags)?;
        Ok((MqttPacket::Publish(x), n))
    } else if packet_type == 8 {
        let (x, n) = parse_subscribe(input, p, size)?;
        Ok((MqttPacket::Subscribe(x), n))
    } else if packet_type == 12 {
        if flags != 0 {
            Err(ParseError::Malformed)
        } else {
            Ok((MqttPacket::PingReq, p))
        }
    } else if packet_type == 13 {
        if flags != 0 {
            Err(ParseError::Malformed)
        } else {
            Ok((MqttPacket::PingResp, p))
        }
    } else if packet_type == 14 {
        let (d, n) = parse_disconnect(input, p)?;
        Ok((MqttPacket::Disconnect(d), n))
    } else {
        Err(ParseError::Malformed)
    }
}

} // verus!
