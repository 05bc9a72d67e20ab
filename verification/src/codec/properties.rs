//! Properties: a Variable Byte Integer length, then each
//! present property as its identifier and its value.
use vstd::prelude::*;
use crate::codec::primitives::{
    lemma_u16_roundtrip, lemma_u32_roundtrip, lemma_varint_roundtrip, lemma_string_roundtrip,
    lemma_binary_roundtrip,
    parse_binary_data, parse_byte, parse_string, parse_u16, parse_u32, parse_variable_u32,
    spec_parse_binary, spec_parse_byte, spec_parse_string, spec_parse_u16, spec_parse_u32,
    spec_parse_varint, ParseError, encode_binary, string_fits, binary_fits, VARINT_MAX, encode_string, encode_variable_u32, push_all, spec_encode_binary,
    spec_encode_string, spec_encode_varint, spec_u16_be, spec_u32_be, u16_to_be_bytes,
    u32_to_be_bytes,
};
use crate::types::{
    bytes_view, empty_properties, qos_level, Properties, PropertiesModel, QoS, UserProperty, UserPropertyModel,
};

verus! {

/// The identifier of a property, as the encoder writes it.
pub open spec fn prop_id(id: u8) -> Seq<u8> {
    spec_encode_varint(id as nat)
}

/// The byte that stands for a boolean.
pub open spec fn bool_byte(b: bool) -> u8 {
    if b {
        1
    } else {
        0
    }
}

pub open spec fn part_byte(id: u8, v: Option<u8>) -> Seq<u8> {
    match v {
        Some(b) => prop_id(id) + seq![b],
        None => Seq::empty(),
    }
}

pub open spec fn part_bool(id: u8, v: Option<bool>) -> Seq<u8> {
    match v {
        Some(b) => prop_id(id) + seq![bool_byte(b)],
        None => Seq::empty(),
    }
}

pub open spec fn part_qos(id: u8, v: Option<QoS>) -> Seq<u8> {
    match v {
        Some(q) => prop_id(id) + seq![qos_level(q)],
        None => Seq::empty(),
    }
}

pub open spec fn part_u16(id: u8, v: Option<u16>) -> Seq<u8> {
    match v {
        Some(x) => prop_id(id) + spec_u16_be(x),
        None => Seq::empty(),
    }
}

pub open spec fn part_u32(id: u8, v: Option<u32>) -> Seq<u8> {
    match v {
        Some(x) => prop_id(id) + spec_u32_be(x),
        None => Seq::empty(),
    }
}

pub open spec fn part_varint(id: u8, v: Option<u32>) -> Seq<u8> {
    match v {
        Some(x) => prop_id(id) + spec_encode_varint(x as nat),
        None => Seq::empty(),
    }
}

pub open spec fn part_string(id: u8, v: Option<Seq<char>>) -> Seq<u8> {
    match v {
        Some(x) => prop_id(id) + spec_encode_string(x),
        None => Seq::empty(),
    }
}

pub open spec fn part_binary(id: u8, v: Option<Seq<u8>>) -> Seq<u8> {
    match v {
        Some(x) => prop_id(id) + spec_encode_binary(x),
        None => Seq::empty(),
    }
}

/// One User Property: identifier 38, then the key and the value as strings.
pub open spec fn user_property_bytes(u: UserPropertyModel) -> Seq<u8> {
    prop_id(38) + spec_encode_string(u.key) + spec_encode_string(u.value)
}

/// The User Properties, in order.
pub open spec fn user_properties_bytes(us: Seq<UserPropertyModel>) -> Seq<u8>
    decreases us.len(),
{
    if us.len() == 0 {
        Seq::empty()
    } else {
        user_properties_bytes(us.drop_last()) + user_property_bytes(us.last())
    }
}

pub open spec fn part_user(v: Option<Seq<UserPropertyModel>>) -> Seq<u8> {
    match v {
        Some(us) => user_properties_bytes(us),
        None => Seq::empty(),
    }
}

/// The `k`-th of the 27 properties, in the order of their identifiers: its identifier and
/// value when it is present, nothing otherwise.
pub open spec fn property_part(p: PropertiesModel, k: int) -> Seq<u8> {
    if k == 0 {
        part_byte(1, p.payload_format_indicator)
    } else if k == 1 {
        part_u32(2, p.message_expiry_interval)
    } else if k == 2 {
        part_string(3, p.content_type)
    } else if k == 3 {
        part_string(8, p.response_topic)
    } else if k == 4 {
        part_binary(9, p.correlation_data)
    } else if k == 5 {
        part_varint(11, p.subscription_identifier)
    } else if k == 6 {
        part_u32(17, p.session_expiry_interval)
    } else if k == 7 {
        part_string(18, p.assigned_client_identifier)
    } else if k == 8 {
        part_u16(19, p.server_keep_alive)
    } else if k == 9 {
        part_string(21, p.authentication_method)
    } else if k == 10 {
        part_binary(22, p.authentication_data)
    } else if k == 11 {
        part_bool(23, p.request_problem_information)
    } else if k == 12 {
        part_u32(24, p.will_delay_interval)
    } else if k == 13 {
        part_bool(25, p.request_response_information)
    } else if k == 14 {
        part_string(26, p.response_information)
    } else if k == 15 {
        part_string(28, p.server_reference)
    } else if k == 16 {
        part_string(31, p.reason_string)
    } else if k == 17 {
        part_u16(33, p.receive_maximum)
    } else if k == 18 {
        part_u16(34, p.topic_alias_maximum)
    } else if k == 19 {
        part_u16(35, p.topic_alias)
    } else if k == 20 {
        part_qos(36, p.maximum_qos)
    } else if k == 21 {
        part_bool(37, p.retain_available)
    } else if k == 22 {
        part_user(p.user_properties)
    } else if k == 23 {
        part_u32(39, p.maximum_packet_size)
    } else if k == 24 {
        part_bool(40, p.wildcard_subscription_available)
    } else if k == 25 {
        part_bool(41, p.subscription_identifiers_available)
    } else if k == 26 {
        part_bool(42, p.shared_subscription_available)
    } else {
        Seq::empty()
    }
}

/// The properties from the `k`-th on, in order.
pub open spec fn properties_body_from(p: PropertiesModel, k: int) -> Seq<u8>
    decreases 27 - k,
{
    if k < 0 || k >= 27 {
        Seq::empty()
    } else {
        property_part(p, k) + properties_body_from(p, k + 1)
    }
}

/// The properties that are present, each as its identifier and value, in the order of
/// their identifiers.
pub open spec fn spec_properties_body(p: PropertiesModel) -> Seq<u8> {
    properties_body_from(p, 0)
}

/// The properties among the first `k` (in the order of their identifiers) that `p` holds.
pub open spec fn properties_upto(p: PropertiesModel, k: int) -> PropertiesModel {
    PropertiesModel {
        payload_format_indicator: if k > 0 {
            p.payload_format_indicator
        } else {
            None
        },
        message_expiry_interval: if k > 1 {
            p.message_expiry_interval
        } else {
            None
        },
        content_type: if k > 2 {
            p.content_type
        } else {
            None
        },
        response_topic: if k > 3 {
            p.response_topic
        } else {
            None
        },
        correlation_data: if k > 4 {
            p.correlation_data
        } else {
            None
        },
        subscription_identifier: if k > 5 {
            p.subscription_identifier
        } else {
            None
        },
        session_expiry_interval: if k > 6 {
            p.session_expiry_interval
        } else {
            None
        },
        assigned_client_identifier: if k > 7 {
            p.assigned_client_identifier
        } else {
            None
        },
        server_keep_alive: if k > 8 {
            p.server_keep_alive
        } else {
            None
        },
        authentication_method: if k > 9 {
            p.authentication_method
        } else {
            None
        },
        authentication_data: if k > 10 {
            p.authentication_data
        } else {
            None
        },
        request_problem_information: if k > 11 {
            p.request_problem_information
        } else {
            None
        },
        will_delay_interval: if k > 12 {
            p.will_delay_interval
        } else {
            None
        },
        request_response_information: if k > 13 {
            p.request_response_information
        } else {
            None
        },
        response_information: if k > 14 {
            p.response_information
        } else {
            None
        },
        server_reference: if k > 15 {
            p.server_reference
        } else {
            None
        },
        reason_string: if k > 16 {
            p.reason_string
        } else {
            None
        },
        receive_maximum: if k > 17 {
            p.receive_maximum
        } else {
            None
        },
        topic_alias_maximum: if k > 18 {
            p.topic_alias_maximum
        } else {
            None
        },
        topic_alias: if k > 19 {
            p.topic_alias
        } else {
            None
        },
        maximum_qos: if k > 20 {
            p.maximum_qos
        } else {
            None
        },
        retain_available: if k > 21 {
            p.retain_available
        } else {
            None
        },
        user_properties: if k > 22 {
            p.user_properties
        } else {
            None
        },
        maximum_packet_size: if k > 23 {
            p.maximum_packet_size
        } else {
            None
        },
        wildcard_subscription_available: if k > 24 {
            p.wildcard_subscription_available
        } else {
            None
        },
        subscription_identifiers_available: if k > 25 {
            p.subscription_identifiers_available
        } else {
            None
        },
        shared_subscription_available: if k > 26 {
            p.shared_subscription_available
        } else {
            None
        },
    }
}

/// Whether a property set reads back as itself: the parser handles each property that is
/// present, each string and binary value fits its Two Byte Integer length, the
/// Subscription Identifier fits a Variable Byte Integer, User Properties (when present) are
/// not an empty list, and the whole body fits a Variable Byte Integer length.
pub open spec fn properties_roundtrip(p: PropertiesModel) -> bool {
    &&& (p.content_type matches Some(v) ==> string_fits(v))
    &&& (p.response_topic matches Some(v) ==> string_fits(v))
    &&& (p.correlation_data matches Some(v) ==> binary_fits(v))
    &&& (p.subscription_identifier matches Some(v) ==> v <= VARINT_MAX)
    &&& (p.assigned_client_identifier matches Some(v) ==> string_fits(v))
    &&& (p.authentication_method matches Some(v) ==> string_fits(v))
    &&& (p.authentication_data matches Some(v) ==> binary_fits(v))
    &&& p.response_information is None
    &&& p.server_reference is None
    &&& (p.reason_string matches Some(v) ==> string_fits(v))
    &&& p.topic_alias is None
    &&& p.retain_available is None
    &&& (p.user_properties matches Some(us) ==> us.len() > 0 && forall|i: int| 0 <= i < us.len() ==> string_fits(#[trigger] us[i].key) && string_fits(us[i].value))
    &&& p.wildcard_subscription_available is None
    &&& p.subscription_identifiers_available is None
    &&& p.shared_subscription_available is None
    &&& spec_properties_body(p).len() <= VARINT_MAX
}

proof fn lemma_split_at(s: Seq<u8>, pos: int, e: Seq<u8>)
    requires
        0 <= pos,
        pos + e.len() <= s.len(),
        s.subrange(pos, pos + e.len()) == e,
    ensures
        s == s.take(pos) + e + s.skip(pos + e.len()),
{
    assert(s =~= s.take(pos) + e + s.skip(pos + e.len()));
}

proof fn lemma_sub_split(s: Seq<u8>, pos: int, a: Seq<u8>, b: Seq<u8>)
    requires
        0 <= pos,
        pos + a.len() + b.len() <= s.len(),
        s.subrange(pos, pos + a.len() + b.len()) == a + b,
    ensures
        s.subrange(pos, pos + a.len()) == a,
        s.subrange(pos + a.len(), pos + a.len() + b.len()) == b,
{
    assert(s.subrange(pos, pos + a.len()) =~= (a + b).subrange(0, a.len() as int));
    assert(s.subrange(pos + a.len(), pos + a.len() + b.len()) =~= (a + b).subrange(
        a.len() as int,
        (a.len() + b.len()) as int,
    ));
}

proof fn lemma_id_at(s: Seq<u8>, pos: int, id: u8, rest: Seq<u8>)
    requires
        id < 128,
        0 <= pos,
        pos + 1 + rest.len() <= s.len(),
        s.subrange(pos, pos + 1 + rest.len()) == prop_id(id) + rest,
    ensures
        spec_parse_varint(s, pos) == Ok::<(int, int), ParseError>((id as int, pos + 1)),
        s.subrange(pos + 1, pos + 1 + rest.len()) == rest,
{
    assert(prop_id(id) == seq![id]);
    lemma_sub_split(s, pos, prop_id(id), rest);
    assert(s.subrange(pos, pos + 1)[0] == s[pos]);
    assert(s[pos] == id);
}

proof fn lemma_value_u16(s: Seq<u8>, pos: int, x: u16)
    requires
        0 <= pos,
        pos + 2 <= s.len(),
        s.subrange(pos, pos + 2) == spec_u16_be(x),
    ensures
        spec_parse_u16(s, pos) == Ok::<(u16, int), ParseError>((x, pos + 2)),
{
    lemma_split_at(s, pos, spec_u16_be(x));
    lemma_u16_roundtrip(x, s.take(pos), s.skip(pos + 2));
}

proof fn lemma_value_u32(s: Seq<u8>, pos: int, x: u32)
    requires
        0 <= pos,
        pos + 4 <= s.len(),
        s.subrange(pos, pos + 4) == spec_u32_be(x),
    ensures
        spec_parse_u32(s, pos) == Ok::<(u32, int), ParseError>((x, pos + 4)),
{
    lemma_split_at(s, pos, spec_u32_be(x));
    lemma_u32_roundtrip(x, s.take(pos), s.skip(pos + 4));
}

proof fn lemma_value_varint(s: Seq<u8>, pos: int, x: u32)
    requires
        x <= VARINT_MAX,
        0 <= pos,
        pos + spec_encode_varint(x as nat).len() <= s.len(),
        s.subrange(pos, pos + spec_encode_varint(x as nat).len()) == spec_encode_varint(x as nat),
    ensures
        spec_parse_varint(s, pos) == Ok::<(int, int), ParseError>(
            (x as int, pos + spec_encode_varint(x as nat).len()),
        ),
{
    let e = spec_encode_varint(x as nat);
    lemma_split_at(s, pos, e);
    lemma_varint_roundtrip(x as nat, s.take(pos), s.skip(pos + e.len()));
}

proof fn lemma_value_string(s: Seq<u8>, pos: int, x: Seq<char>)
    requires
        string_fits(x),
        0 <= pos,
        pos + spec_encode_string(x).len() <= s.len(),
        s.subrange(pos, pos + spec_encode_string(x).len()) == spec_encode_string(x),
    ensures
        spec_parse_string(s, pos) == Ok::<(Seq<char>, int), ParseError>(
            (x, pos + spec_encode_string(x).len()),
        ),
{
    let e = spec_encode_string(x);
    lemma_split_at(s, pos, e);
    lemma_string_roundtrip(x, s.take(pos), s.skip(pos + e.len()));
}

proof fn lemma_value_binary(s: Seq<u8>, pos: int, x: Seq<u8>)
    requires
        binary_fits(x),
        0 <= pos,
        pos + spec_encode_binary(x).len() <= s.len(),
        s.subrange(pos, pos + spec_encode_binary(x).len()) == spec_encode_binary(x),
    ensures
        spec_parse_binary(s, pos) == Ok::<(Seq<u8>, int), ParseError>(
            (x, pos + spec_encode_binary(x).len()),
        ),
{
    let e = spec_encode_binary(x);
    lemma_split_at(s, pos, e);
    lemma_binary_roundtrip(x, s.take(pos), s.skip(pos + e.len()));
}

proof fn lemma_value_byte(s: Seq<u8>, pos: int, b: u8)
    requires
        0 <= pos,
        pos + 1 <= s.len(),
        s.subrange(pos, pos + 1) == seq![b],
    ensures
        spec_parse_byte(s, pos) == Ok::<(u8, int), ParseError>((b, pos + 1)),
{
    assert(s.subrange(pos, pos + 1)[0] == s[pos]);
}

/// One property step: a property that parses at `pos` and ends within the remaining length.
proof fn lemma_property_step(
    s: Seq<u8>,
    pos: int,
    len: int,
    r: int,
    acc: PropertiesModel,
    acc2: PropertiesModel,
)
    requires
        len > 0,
        r >= 0,
        spec_parse_property(s, pos, acc) == Ok::<(PropertiesModel, int), ParseError>((acc2, pos + len)),
    ensures
        spec_parse_properties_from(s, pos, len + r, acc) == spec_parse_properties_from(
            s,
            pos + len,
            r,
            acc2,
        ),
{
}

proof fn lemma_parse_part_payload_format_indicator(p: PropertiesModel, s: Seq<u8>, pos: int, r: int)
    requires
        properties_roundtrip(p),
        0 <= pos,
        r >= 0,
        pos + property_part(p, 0).len() <= s.len(),
        s.subrange(pos, pos + property_part(p, 0).len()) == property_part(p, 0),
    ensures
        spec_parse_properties_from(s, pos, property_part(p, 0).len() + r, properties_upto(p, 0))
            == spec_parse_properties_from(
            s,
            pos + property_part(p, 0).len(),
            r,
            properties_upto(p, 1),
        ),
{
    let e = property_part(p, 0);
    let acc = properties_upto(p, 0);
    let acc2 = properties_upto(p, 1);
    match p.payload_format_indicator {
        None => {
            assert(acc2 == acc);
        },
        Some(x) => {
            lemma_id_at(s, pos, 1, seq![x]);
            lemma_value_byte(s, pos + 1, x);
            assert(spec_parse_property(s, pos, acc) == Ok::<(PropertiesModel, int), ParseError>((acc2, pos + e.len())));
            lemma_property_step(s, pos, e.len() as int, r, acc, acc2);
        },
    }
}

proof fn lemma_parse_part_message_expiry_interval(p: PropertiesModel, s: Seq<u8>, pos: int, r: int)
    requires
        properties_roundtrip(p),
        0 <= pos,
        r >= 0,
        pos + property_part(p, 1).len() <= s.len(),
        s.subrange(pos, pos + property_part(p, 1).len()) == property_part(p, 1),
    ensures
        spec_parse_properties_from(s, pos, property_part(p, 1).len() + r, properties_upto(p, 1))
            == spec_parse_properties_from(
            s,
            pos + property_part(p, 1).len(),
            r,
            properties_upto(p, 2),
        ),
{
    let e = property_part(p, 1);
    let acc = properties_upto(p, 1);
    let acc2 = properties_upto(p, 2);
    match p.message_expiry_interval {
        None => {
            assert(acc2 == acc);
        },
        Some(x) => {
            lemma_id_at(s, pos, 2, spec_u32_be(x));
            lemma_value_u32(s, pos + 1, x);
            assert(spec_parse_property(s, pos, acc) == Ok::<(PropertiesModel, int), ParseError>((acc2, pos + e.len())));
            lemma_property_step(s, pos, e.len() as int, r, acc, acc2);
        },
    }
}

proof fn lemma_parse_part_content_type(p: PropertiesModel, s: Seq<u8>, pos: int, r: int)
    requires
        properties_roundtrip(p),
        0 <= pos,
        r >= 0,
        pos + property_part(p, 2).len() <= s.len(),
        s.subrange(pos, pos + property_part(p, 2).len()) == property_part(p, 2),
    ensures
        spec_parse_properties_from(s, pos, property_part(p, 2).len() + r, properties_upto(p, 2))
            == spec_parse_properties_from(
            s,
            pos + property_part(p, 2).len(),
            r,
            properties_upto(p, 3),
        ),
{
    let e = property_part(p, 2);
    let acc = properties_upto(p, 2);
    let acc2 = properties_upto(p, 3);
    match p.content_type {
        None => {
            assert(acc2 == acc);
        },
        Some(x) => {
            lemma_id_at(s, pos, 3, spec_encode_string(x));
            lemma_value_string(s, pos + 1, x);
            assert(spec_parse_property(s, pos, acc) == Ok::<(PropertiesModel, int), ParseError>((acc2, pos + e.len())));
            lemma_property_step(s, pos, e.len() as int, r, acc, acc2);
        },
    }
}

proof fn lemma_parse_part_response_topic(p: PropertiesModel, s: Seq<u8>, pos: int, r: int)
    requires
        properties_roundtrip(p),
        0 <= pos,
        r >= 0,
        pos + property_part(p, 3).len() <= s.len(),
        s.subrange(pos, pos + property_part(p, 3).len()) == property_part(p, 3),
    ensures
        spec_parse_properties_from(s, pos, property_part(p, 3).len() + r, properties_upto(p, 3))
            == spec_parse_properties_from(
            s,
            pos + property_part(p, 3).len(),
            r,
            properties_upto(p, 4),
        ),
{
    let e = property_part(p, 3);
    let acc = properties_upto(p, 3);
    let acc2 = properties_upto(p, 4);
    match p.response_topic {
        None => {
            assert(acc2 == acc);
        },
        Some(x) => {
            lemma_id_at(s, pos, 8, spec_encode_string(x));
            lemma_value_string(s, pos + 1, x);
            assert(spec_parse_property(s, pos, acc) == Ok::<(PropertiesModel, int), ParseError>((acc2, pos + e.len())));
            lemma_property_step(s, pos, e.len() as int, r, acc, acc2);
        },
    }
}

proof fn lemma_parse_part_correlation_data(p: PropertiesModel, s: Seq<u8>, pos: int, r: int)
    requires
        properties_roundtrip(p),
        0 <= pos,
        r >= 0,
        pos + property_part(p, 4).len() <= s.len(),
        s.subrange(pos, pos + property_part(p, 4).len()) == property_part(p, 4),
    ensures
        spec_parse_properties_from(s, pos, property_part(p, 4).len() + r, properties_upto(p, 4))
            == spec_parse_properties_from(
            s,
            pos + property_part(p, 4).len(),
            r,
            properties_upto(p, 5),
        ),
{
    let e = property_part(p, 4);
    let acc = properties_upto(p, 4);
    let acc2 = properties_upto(p, 5);
    match p.correlation_data {
        None => {
            assert(acc2 == acc);
        },
        Some(x) => {
            lemma_id_at(s, pos, 9, spec_encode_binary(x));
            lemma_value_binary(s, pos + 1, x);
            assert(spec_parse_property(s, pos, acc) == Ok::<(PropertiesModel, int), ParseError>((acc2, pos + e.len())));
            lemma_property_step(s, pos, e.len() as int, r, acc, acc2);
        },
    }
}

proof fn lemma_parse_part_subscription_identifier(p: PropertiesModel, s: Seq<u8>, pos: int, r: int)
    requires
        properties_roundtrip(p),
        0 <= pos,
        r >= 0,
        pos + property_part(p, 5).len() <= s.len(),
        s.subrange(pos, pos + property_part(p, 5).len()) == property_part(p, 5),
    ensures
        spec_parse_properties_from(s, pos, property_part(p, 5).len() + r, properties_upto(p, 5))
            == spec_parse_properties_from(
            s,
            pos + property_part(p, 5).len(),
            r,
            properties_upto(p, 6),
        ),
{
    let e = property_part(p, 5);
    let acc = properties_upto(p, 5);
    let acc2 = properties_upto(p, 6);
    match p.subscription_identifier {
        None => {
            assert(acc2 == acc);
        },
        Some(x) => {
            lemma_id_at(s, pos, 11, spec_encode_varint(x as nat));
            lemma_value_varint(s, pos + 1, x);
            assert(spec_parse_property(s, pos, acc) == Ok::<(PropertiesModel, int), ParseError>((acc2, pos + e.len())));
            lemma_property_step(s, pos, e.len() as int, r, acc, acc2);
        },
    }
}

proof fn lemma_parse_part_session_expiry_interval(p: PropertiesModel, s: Seq<u8>, pos: int, r: int)
    requires
        properties_roundtrip(p),
        0 <= pos,
        r >= 0,
        pos + property_part(p, 6).len() <= s.len(),
        s.subrange(pos, pos + property_part(p, 6).len()) == property_part(p, 6),
    ensures
        spec_parse_properties_from(s, pos, property_part(p, 6).len() + r, properties_upto(p, 6))
            == spec_parse_properties_from(
            s,
            pos + property_part(p, 6).len(),
            r,
            properties_upto(p, 7),
        ),
{
    let e = property_part(p, 6);
    let acc = properties_upto(p, 6);
    let acc2 = properties_upto(p, 7);
    match p.session_expiry_interval {
        None => {
            assert(acc2 == acc);
        },
        Some(x) => {
            lemma_id_at(s, pos, 17, spec_u32_be(x));
            lemma_value_u32(s, pos + 1, x);
            assert(spec_parse_property(s, pos, acc) == Ok::<(PropertiesModel, int), ParseError>((acc2, pos + e.len())));
            lemma_property_step(s, pos, e.len() as int, r, acc, acc2);
        },
    }
}

proof fn lemma_parse_part_assigned_client_identifier(p: PropertiesModel, s: Seq<u8>, pos: int, r: int)
    requires
        properties_roundtrip(p),
        0 <= pos,
        r >= 0,
        pos + property_part(p, 7).len() <= s.len(),
        s.subrange(pos, pos + property_part(p, 7).len()) == property_part(p, 7),
    ensures
        spec_parse_properties_from(s, pos, property_part(p, 7).len() + r, properties_upto(p, 7))
            == spec_parse_properties_from(
            s,
            pos + property_part(p, 7).len(),
            r,
            properties_upto(p, 8),
        ),
{
    let e = property_part(p, 7);
    let acc = properties_upto(p, 7);
    let acc2 = properties_upto(p, 8);
    match p.assigned_client_identifier {
        None => {
            assert(acc2 == acc);
        },
        Some(x) => {
            lemma_id_at(s, pos, 18, spec_encode_string(x));
            lemma_value_string(s, pos + 1, x);
            assert(spec_parse_property(s, pos, acc) == Ok::<(PropertiesModel, int), ParseError>((acc2, pos + e.len())));
            lemma_property_step(s, pos, e.len() as int, r, acc, acc2);
        },
    }
}

proof fn lemma_parse_part_server_keep_alive(p: PropertiesModel, s: Seq<u8>, pos: int, r: int)
    requires
        properties_roundtrip(p),
        0 <= pos,
        r >= 0,
        pos + property_part(p, 8).len() <= s.len(),
        s.subrange(pos, pos + property_part(p, 8).len()) == property_part(p, 8),
    ensures
        spec_parse_properties_from(s, pos, property_part(p, 8).len() + r, properties_upto(p, 8))
            == spec_parse_properties_from(
            s,
            pos + property_part(p, 8).len(),
            r,
            properties_upto(p, 9),
        ),
{
    let e = property_part(p, 8);
    let acc = properties_upto(p, 8);
    let acc2 = properties_upto(p, 9);
    match p.server_keep_alive {
        None => {
            assert(acc2 == acc);
        },
        Some(x) => {
            lemma_id_at(s, pos, 19, spec_u16_be(x));
            lemma_value_u16(s, pos + 1, x);
            assert(spec_parse_property(s, pos, acc) == Ok::<(PropertiesModel, int), ParseError>((acc2, pos + e.len())));
            lemma_property_step(s, pos, e.len() as int, r, acc, acc2);
        },
    }
}

proof fn lemma_parse_part_authentication_method(p: PropertiesModel, s: Seq<u8>, pos: int, r: int)
    requires
        properties_roundtrip(p),
        0 <= pos,
        r >= 0,
        pos + property_part(p, 9).len() <= s.len(),
        s.subrange(pos, pos + property_part(p, 9).len()) == property_part(p, 9),
    ensures
        spec_parse_properties_from(s, pos, property_part(p, 9).len() + r, properties_upto(p, 9))
            == spec_parse_properties_from(
            s,
            pos + property_part(p, 9).len(),
            r,
            properties_upto(p, 10),
        ),
{
    let e = property_part(p, 9);
    let acc = properties_upto(p, 9);
    let acc2 = properties_upto(p, 10);
    match p.authentication_method {
        None => {
            assert(acc2 == acc);
        },
        Some(x) => {
            lemma_id_at(s, pos, 21, spec_encode_string(x));
            lemma_value_string(s, pos + 1, x);
            assert(spec_parse_property(s, pos, acc) == Ok::<(PropertiesModel, int), ParseError>((acc2, pos + e.len())));
            lemma_property_step(s, pos, e.len() as int, r, acc, acc2);
        },
    }
}

proof fn lemma_parse_part_authentication_data(p: PropertiesModel, s: Seq<u8>, pos: int, r: int)
    requires
        properties_roundtrip(p),
        0 <= pos,
        r >= 0,
        pos + property_part(p, 10).len() <= s.len(),
        s.subrange(pos, pos + property_part(p, 10).len()) == property_part(p, 10),
    ensures
        spec_parse_properties_from(s, pos, property_part(p, 10).len() + r, properties_upto(p, 10))
            == spec_parse_properties_from(
            s,
            pos + property_part(p, 10).len(),
            r,
            properties_upto(p, 11),
        ),
{
    let e = property_part(p, 10);
    let acc = properties_upto(p, 10);
    let acc2 = properties_upto(p, 11);
    match p.authentication_data {
        None => {
            assert(acc2 == acc);
        },
        Some(x) => {
            lemma_id_at(s, pos, 22, spec_encode_binary(x));
            lemma_value_binary(s, pos + 1, x);
            assert(spec_parse_property(s, pos, acc) == Ok::<(PropertiesModel, int), ParseError>((acc2, pos + e.len())));
            lemma_property_step(s, pos, e.len() as int, r, acc, acc2);
        },
    }
}

proof fn lemma_parse_part_request_problem_information(p: PropertiesModel, s: Seq<u8>, pos: int, r: int)
    requires
        properties_roundtrip(p),
        0 <= pos,
        r >= 0,
        pos + property_part(p, 11).len() <= s.len(),
        s.subrange(pos, pos + property_part(p, 11).len()) == property_part(p, 11),
    ensures
        spec_parse_properties_from(s, pos, property_part(p, 11).len() + r, properties_upto(p, 11))
            == spec_parse_properties_from(
            s,
            pos + property_part(p, 11).len(),
            r,
            properties_upto(p, 12),
        ),
{
    let e = property_part(p, 11);
    let acc = properties_upto(p, 11);
    let acc2 = properties_upto(p, 12);
    match p.request_problem_information {
        None => {
            assert(acc2 == acc);
        },
        Some(x) => {
            lemma_id_at(s, pos, 23, seq![bool_byte(x)]);
            lemma_value_byte(s, pos + 1, bool_byte(x));
            assert(spec_parse_property(s, pos, acc) == Ok::<(PropertiesModel, int), ParseError>((acc2, pos + e.len())));
            lemma_property_step(s, pos, e.len() as int, r, acc, acc2);
        },
    }
}

proof fn lemma_parse_part_will_delay_interval(p: PropertiesModel, s: Seq<u8>, pos: int, r: int)
    requires
        properties_roundtrip(p),
        0 <= pos,
        r >= 0,
        pos + property_part(p, 12).len() <= s.len(),
        s.subrange(pos, pos + property_part(p, 12).len()) == property_part(p, 12),
    ensures
        spec_parse_properties_from(s, pos, property_part(p, 12).len() + r, properties_upto(p, 12))
            == spec_parse_properties_from(
            s,
            pos + property_part(p, 12).len(),
            r,
            properties_upto(p, 13),
        ),
{
    let e = property_part(p, 12);
    let acc = properties_upto(p, 12);
    let acc2 = properties_upto(p, 13);
    match p.will_delay_interval {
        None => {
            assert(acc2 == acc);
        },
        Some(x) => {
            lemma_id_at(s, pos, 24, spec_u32_be(x));
            lemma_value_u32(s, pos + 1, x);
            assert(spec_parse_property(s, pos, acc) == Ok::<(PropertiesModel, int), ParseError>((acc2, pos + e.len())));
            lemma_property_step(s, pos, e.len() as int, r, acc, acc2);
        },
    }
}

proof fn lemma_parse_part_request_response_information(p: PropertiesModel, s: Seq<u8>, pos: int, r: int)
    requires
        properties_roundtrip(p),
        0 <= pos,
        r >= 0,
        pos + property_part(p, 13).len() <= s.len(),
        s.subrange(pos, pos + property_part(p, 13).len()) == property_part(p, 13),
    ensures
        spec_parse_properties_from(s, pos, property_part(p, 13).len() + r, properties_upto(p, 13))
            == spec_parse_properties_from(
            s,
            pos + property_part(p, 13).len(),
            r,
            properties_upto(p, 14),
        ),
{
    let e = property_part(p, 13);
    let acc = properties_upto(p, 13);
    let acc2 = properties_upto(p, 14);
    match p.request_response_information {
        None => {
            assert(acc2 == acc);
        },
        Some(x) => {
            lemma_id_at(s, pos, 25, seq![bool_byte(x)]);
            lemma_value_byte(s, pos + 1, bool_byte(x));
            assert(spec_parse_property(s, pos, acc) == Ok::<(PropertiesModel, int), ParseError>((acc2, pos + e.len())));
            lemma_property_step(s, pos, e.len() as int, r, acc, acc2);
        },
    }
}

proof fn lemma_parse_part_response_information(p: PropertiesModel, s: Seq<u8>, pos: int, r: int)
    requires
        properties_roundtrip(p),
        0 <= pos,
        r >= 0,
        pos + property_part(p, 14).len() <= s.len(),
        s.subrange(pos, pos + property_part(p, 14).len()) == property_part(p, 14),
    ensures
        spec_parse_properties_from(s, pos, property_part(p, 14).len() + r, properties_upto(p, 14))
            == spec_parse_properties_from(
            s,
            pos + property_part(p, 14).len(),
            r,
            properties_upto(p, 15),
        ),
{
    let e = property_part(p, 14);
    let acc = properties_upto(p, 14);
    let acc2 = properties_upto(p, 15);
    assert(acc2 == acc);
}

proof fn lemma_parse_part_server_reference(p: PropertiesModel, s: Seq<u8>, pos: int, r: int)
    requires
        properties_roundtrip(p),
        0 <= pos,
        r >= 0,
        pos + property_part(p, 15).len() <= s.len(),
        s.subrange(pos, pos + property_part(p, 15).len()) == property_part(p, 15),
    ensures
        spec_parse_properties_from(s, pos, property_part(p, 15).len() + r, properties_upto(p, 15))
            == spec_parse_properties_from(
            s,
            pos + property_part(p, 15).len(),
            r,
            properties_upto(p, 16),
        ),
{
    let e = property_part(p, 15);
    let acc = properties_upto(p, 15);
    let acc2 = properties_upto(p, 16);
    assert(acc2 == acc);
}

proof fn lemma_parse_part_reason_string(p: PropertiesModel, s: Seq<u8>, pos: int, r: int)
    requires
        properties_roundtrip(p),
        0 <= pos,
        r >= 0,
        pos + property_part(p, 16).len() <= s.len(),
        s.subrange(pos, pos + property_part(p, 16).len()) == property_part(p, 16),
    ensures
        spec_parse_properties_from(s, pos, property_part(p, 16).len() + r, properties_upto(p, 16))
            == spec_parse_properties_from(
            s,
            pos + property_part(p, 16).len(),
            r,
            properties_upto(p, 17),
        ),
{
    let e = property_part(p, 16);
    let acc = properties_upto(p, 16);
    let acc2 = properties_upto(p, 17);
    match p.reason_string {
        None => {
            assert(acc2 == acc);
        },
        Some(x) => {
            lemma_id_at(s, pos, 31, spec_encode_string(x));
            lemma_value_string(s, pos + 1, x);
            assert(spec_parse_property(s, pos, acc) == Ok::<(PropertiesModel, int), ParseError>((acc2, pos + e.len())));
            lemma_property_step(s, pos, e.len() as int, r, acc, acc2);
        },
    }
}

proof fn lemma_parse_part_receive_maximum(p: PropertiesModel, s: Seq<u8>, pos: int, r: int)
    requires
        properties_roundtrip(p),
        0 <= pos,
        r >= 0,
        pos + property_part(p, 17).len() <= s.len(),
        s.subrange(pos, pos + property_part(p, 17).len()) == property_part(p, 17),
    ensures
        spec_parse_properties_from(s, pos, property_part(p, 17).len() + r, properties_upto(p, 17))
            == spec_parse_properties_from(
            s,
            pos + property_part(p, 17).len(),
            r,
            properties_upto(p, 18),
        ),
{
    let e = property_part(p, 17);
    let acc = properties_upto(p, 17);
    let acc2 = properties_upto(p, 18);
    match p.receive_maximum {
        None => {
            assert(acc2 == acc);
        },
        Some(x) => {
            lemma_id_at(s, pos, 33, spec_u16_be(x));
            lemma_value_u16(s, pos + 1, x);
            assert(spec_parse_property(s, pos, acc) == Ok::<(PropertiesModel, int), ParseError>((acc2, pos + e.len())));
            lemma_property_step(s, pos, e.len() as int, r, acc, acc2);
        },
    }
}

proof fn lemma_parse_part_topic_alias_maximum(p: PropertiesModel, s: Seq<u8>, pos: int, r: int)
    requires
        properties_roundtrip(p),
        0 <= pos,
        r >= 0,
        pos + property_part(p, 18).len() <= s.len(),
        s.subrange(pos, pos + property_part(p, 18).len()) == property_part(p, 18),
    ensures
        spec_parse_properties_from(s, pos, property_part(p, 18).len() + r, properties_upto(p, 18))
            == spec_parse_properties_from(
            s,
            pos + property_part(p, 18).len(),
            r,
            properties_upto(p, 19),
        ),
{
    let e = property_part(p, 18);
    let acc = properties_upto(p, 18);
    let acc2 = properties_upto(p, 19);
    match p.topic_alias_maximum {
        None => {
            assert(acc2 == acc);
        },
        Some(x) => {
            lemma_id_at(s, pos, 34, spec_u16_be(x));
            lemma_value_u16(s, pos + 1, x);
            assert(spec_parse_property(s, pos, acc) == Ok::<(PropertiesModel, int), ParseError>((acc2, pos + e.len())));
            lemma_property_step(s, pos, e.len() as int, r, acc, acc2);
        },
    }
}

proof fn lemma_parse_part_topic_alias(p: PropertiesModel, s: Seq<u8>, pos: int, r: int)
    requires
        properties_roundtrip(p),
        0 <= pos,
        r >= 0,
        pos + property_part(p, 19).len() <= s.len(),
        s.subrange(pos, pos + property_part(p, 19).len()) == property_part(p, 19),
    ensures
        spec_parse_properties_from(s, pos, property_part(p, 19).len() + r, properties_upto(p, 19))
            == spec_parse_properties_from(
            s,
            pos + property_part(p, 19).len(),
            r,
            properties_upto(p, 20),
        ),
{
    let e = property_part(p, 19);
    let acc = properties_upto(p, 19);
    let acc2 = properties_upto(p, 20);
    assert(acc2 == acc);
}

proof fn lemma_parse_part_maximum_qos(p: PropertiesModel, s: Seq<u8>, pos: int, r: int)
    requires
        properties_roundtrip(p),
        0 <= pos,
        r >= 0,
        pos + property_part(p, 20).len() <= s.len(),
        s.subrange(pos, pos + property_part(p, 20).len()) == property_part(p, 20),
    ensures
        spec_parse_properties_from(s, pos, property_part(p, 20).len() + r, properties_upto(p, 20))
            == spec_parse_properties_from(
            s,
            pos + property_part(p, 20).len(),
            r,
            properties_upto(p, 21),
        ),
{
    let e = property_part(p, 20);
    let acc = properties_upto(p, 20);
    let acc2 = properties_upto(p, 21);
    match p.maximum_qos {
        None => {
            assert(acc2 == acc);
        },
        Some(x) => {
            lemma_id_at(s, pos, 36, seq![qos_level(x)]);
            lemma_value_byte(s, pos + 1, qos_level(x));
            assert(spec_parse_property(s, pos, acc) == Ok::<(PropertiesModel, int), ParseError>((acc2, pos + e.len())));
            lemma_property_step(s, pos, e.len() as int, r, acc, acc2);
        },
    }
}

proof fn lemma_parse_part_retain_available(p: PropertiesModel, s: Seq<u8>, pos: int, r: int)
    requires
        properties_roundtrip(p),
        0 <= pos,
        r >= 0,
        pos + property_part(p, 21).len() <= s.len(),
        s.subrange(pos, pos + property_part(p, 21).len()) == property_part(p, 21),
    ensures
        spec_parse_properties_from(s, pos, property_part(p, 21).len() + r, properties_upto(p, 21))
            == spec_parse_properties_from(
            s,
            pos + property_part(p, 21).len(),
            r,
            properties_upto(p, 22),
        ),
{
    let e = property_part(p, 21);
    let acc = properties_upto(p, 21);
    let acc2 = properties_upto(p, 22);
    assert(acc2 == acc);
}

proof fn lemma_parse_part_maximum_packet_size(p: PropertiesModel, s: Seq<u8>, pos: int, r: int)
    requires
        properties_roundtrip(p),
        0 <= pos,
        r >= 0,
        pos + property_part(p, 23).len() <= s.len(),
        s.subrange(pos, pos + property_part(p, 23).len()) == property_part(p, 23),
    ensures
        spec_parse_properties_from(s, pos, property_part(p, 23).len() + r, properties_upto(p, 23))
            == spec_parse_properties_from(
            s,
            pos + property_part(p, 23).len(),
            r,
            properties_upto(p, 24),
        ),
{
    let e = property_part(p, 23);
    let acc = properties_upto(p, 23);
    let acc2 = properties_upto(p, 24);
    match p.maximum_packet_size {
        None => {
            assert(acc2 == acc);
        },
        Some(x) => {
            lemma_id_at(s, pos, 39, spec_u32_be(x));
            lemma_value_u32(s, pos + 1, x);
            assert(spec_parse_property(s, pos, acc) == Ok::<(PropertiesModel, int), ParseError>((acc2, pos + e.len())));
            lemma_property_step(s, pos, e.len() as int, r, acc, acc2);
        },
    }
}

proof fn lemma_parse_part_wildcard_subscription_available(p: PropertiesModel, s: Seq<u8>, pos: int, r: int)
    requires
        properties_roundtrip(p),
        0 <= pos,
        r >= 0,
        pos + property_part(p, 24).len() <= s.len(),
        s.subrange(pos, pos + property_part(p, 24).len()) == property_part(p, 24),
    ensures
        spec_parse_properties_from(s, pos, property_part(p, 24).len() + r, properties_upto(p, 24))
            == spec_parse_properties_from(
            s,
            pos + property_part(p, 24).len(),
            r,
            properties_upto(p, 25),
        ),
{
    let e = property_part(p, 24);
    let acc = properties_upto(p, 24);
    let acc2 = properties_upto(p, 25);
    assert(acc2 == acc);
}

proof fn lemma_parse_part_subscription_identifiers_available(p: PropertiesModel, s: Seq<u8>, pos: int, r: int)
    requires
        properties_roundtrip(p),
        0 <= pos,
        r >= 0,
        pos + property_part(p, 25).len() <= s.len(),
        s.subrange(pos, pos + property_part(p, 25).len()) == property_part(p, 25),
    ensures
        spec_parse_properties_from(s, pos, property_part(p, 25).len() + r, properties_upto(p, 25))
            == spec_parse_properties_from(
            s,
            pos + property_part(p, 25).len(),
            r,
            properties_upto(p, 26),
        ),
{
    let e = property_part(p, 25);
    let acc = properties_upto(p, 25);
    let acc2 = properties_upto(p, 26);
    assert(acc2 == acc);
}

proof fn lemma_parse_part_shared_subscription_available(p: PropertiesModel, s: Seq<u8>, pos: int, r: int)
    requires
        properties_roundtrip(p),
        0 <= pos,
        r >= 0,
        pos + property_part(p, 26).len() <= s.len(),
        s.subrange(pos, pos + property_part(p, 26).len()) == property_part(p, 26),
    ensures
        spec_parse_properties_from(s, pos, property_part(p, 26).len() + r, properties_upto(p, 26))
            == spec_parse_properties_from(
            s,
            pos + property_part(p, 26).len(),
            r,
            properties_upto(p, 27),
        ),
{
    let e = property_part(p, 26);
    let acc = properties_upto(p, 26);
    let acc2 = properties_upto(p, 27);
    assert(acc2 == acc);
}

proof fn lemma_parse_part(p: PropertiesModel, s: Seq<u8>, pos: int, k: int, r: int)
    requires
        properties_roundtrip(p),
        0 <= k < 27,
        0 <= pos,
        r >= 0,
        pos + property_part(p, k).len() <= s.len(),
        s.subrange(pos, pos + property_part(p, k).len()) == property_part(p, k),
    ensures
        spec_parse_properties_from(s, pos, property_part(p, k).len() + r, properties_upto(p, k))
            == spec_parse_properties_from(
            s,
            pos + property_part(p, k).len(),
            r,
            properties_upto(p, k + 1),
        ),
{
    if k == 22 {
        lemma_parse_part_user_properties(p, s, pos, r);
    } else if k == 0 {
        lemma_parse_part_payload_format_indicator(p, s, pos, r);
    } else if k == 1 {
        lemma_parse_part_message_expiry_interval(p, s, pos, r);
    } else if k == 2 {
        lemma_parse_part_content_type(p, s, pos, r);
    } else if k == 3 {
        lemma_parse_part_response_topic(p, s, pos, r);
    } else if k == 4 {
        lemma_parse_part_correlation_data(p, s, pos, r);
    } else if k == 5 {
        lemma_parse_part_subscription_identifier(p, s, pos, r);
    } else if k == 6 {
        lemma_parse_part_session_expiry_interval(p, s, pos, r);
    } else if k == 7 {
        lemma_parse_part_assigned_client_identifier(p, s, pos, r);
    } else if k == 8 {
        lemma_parse_part_server_keep_alive(p, s, pos, r);
    } else if k == 9 {
        lemma_parse_part_authentication_method(p, s, pos, r);
    } else if k == 10 {
        lemma_parse_part_authentication_data(p, s, pos, r);
    } else if k == 11 {
        lemma_parse_part_request_problem_information(p, s, pos, r);
    } else if k == 12 {
        lemma_parse_part_will_delay_interval(p, s, pos, r);
    } else if k == 13 {
        lemma_parse_part_request_response_information(p, s, pos, r);
    } else if k == 14 {
        lemma_parse_part_response_information(p, s, pos, r);
    } else if k == 15 {
        lemma_parse_part_server_reference(p, s, pos, r);
    } else if k == 16 {
        lemma_parse_part_reason_string(p, s, pos, r);
    } else if k == 17 {
        lemma_parse_part_receive_maximum(p, s, pos, r);
    } else if k == 18 {
        lemma_parse_part_topic_alias_maximum(p, s, pos, r);
    } else if k == 19 {
        lemma_parse_part_topic_alias(p, s, pos, r);
    } else if k == 20 {
        lemma_parse_part_maximum_qos(p, s, pos, r);
    } else if k == 21 {
        lemma_parse_part_retain_available(p, s, pos, r);
    } else if k == 23 {
        lemma_parse_part_maximum_packet_size(p, s, pos, r);
    } else if k == 24 {
        lemma_parse_part_wildcard_subscription_available(p, s, pos, r);
    } else if k == 25 {
        lemma_parse_part_subscription_identifiers_available(p, s, pos, r);
    } else if k == 26 {
        lemma_parse_part_shared_subscription_available(p, s, pos, r);
    }
}

proof fn lemma_user_bytes_front(us: Seq<UserPropertyModel>)
    requires
        us.len() > 0,
    ensures
        user_properties_bytes(us) == user_property_bytes(us[0]) + user_properties_bytes(
            us.drop_first(),
        ),
    decreases us.len(),
{
    if us.len() == 1 {
        assert(us.drop_last() =~= Seq::<UserPropertyModel>::empty());
        assert(us.drop_first() =~= Seq::<UserPropertyModel>::empty());
        assert(user_properties_bytes(us.drop_last()) == Seq::<u8>::empty());
        assert(user_properties_bytes(us.drop_first()) == Seq::<u8>::empty());
        assert(us.last() == us[0]);
        assert(user_properties_bytes(us) =~= user_property_bytes(us[0]));
        assert(user_property_bytes(us[0]) + Seq::<u8>::empty() =~= user_property_bytes(us[0]));
    } else {
        let init = us.drop_last();
        lemma_user_bytes_front(init);
        assert(init.drop_first() =~= us.drop_first().drop_last());
        assert(us.drop_first().last() == us.last());
        vstd::seq_lib::lemma_concat_associative(
            user_property_bytes(us[0]),
            user_properties_bytes(init.drop_first()),
            user_property_bytes(us.last()),
        );
    }
}

/// The property set while User Properties are parsed: the first `j` of them are there.
pub open spec fn properties_with_users(p: PropertiesModel, us: Seq<UserPropertyModel>, j: int) -> PropertiesModel {
    PropertiesModel {
        user_properties: if j == 0 {
            None
        } else {
            Some(us.take(j))
        },
        ..properties_upto(p, 22)
    }
}

proof fn lemma_parse_users(
    p: PropertiesModel,
    s: Seq<u8>,
    pos: int,
    us: Seq<UserPropertyModel>,
    j: int,
    r: int,
)
    requires
        properties_roundtrip(p),
        p.user_properties == Some(us),
        0 <= j <= us.len(),
        0 <= pos,
        r >= 0,
        pos + user_properties_bytes(us.skip(j)).len() <= s.len(),
        s.subrange(pos, pos + user_properties_bytes(us.skip(j)).len()) == user_properties_bytes(
            us.skip(j),
        ),
    ensures
        spec_parse_properties_from(
            s,
            pos,
            user_properties_bytes(us.skip(j)).len() + r,
            properties_with_users(p, us, j),
        ) == spec_parse_properties_from(
            s,
            pos + user_properties_bytes(us.skip(j)).len(),
            r,
            properties_upto(p, 23),
        ),
    decreases us.len() - j,
{
    let b = user_properties_bytes(us.skip(j));
    if j == us.len() {
        assert(us.skip(j) =~= Seq::<UserPropertyModel>::empty());
        assert(us.take(j) =~= us);
        assert(properties_with_users(p, us, j) == properties_upto(p, 23));
    } else {
        let t = us.skip(j);
        lemma_user_bytes_front(t);
        assert(t[0] == us[j]);
        assert(t.drop_first() =~= us.skip(j + 1));
        let u = us[j];
        let one = user_property_bytes(u);
        let rest = user_properties_bytes(us.skip(j + 1));
        lemma_sub_split(s, pos, one, rest);
        let kb = spec_encode_string(u.key);
        let vb = spec_encode_string(u.value);
        assert(one == prop_id(38) + (kb + vb));
        lemma_id_at(s, pos, 38, kb + vb);
        lemma_sub_split(s, pos + 1, kb, vb);
        assert(string_fits(us[j].key) && string_fits(us[j].value));
        lemma_value_string(s, pos + 1, u.key);
        lemma_value_string(s, pos + 1 + kb.len(), u.value);
        let acc = properties_with_users(p, us, j);
        let acc2 = properties_with_users(p, us, j + 1);
        assert(spec_parse_string_pair(s, pos + 1) == Ok::<(UserPropertyModel, int), ParseError>(
            (u, pos + one.len()),
        ));
        if j == 0 {
            assert(us.take(1) =~= seq![u]);
        } else {
            assert(us.take(j + 1) =~= us.take(j).push(u));
        }
        assert(acc2 == PropertiesModel {
            user_properties: add_user_property(acc.user_properties, u),
            ..acc
        });
        assert(spec_parse_property(s, pos, acc) == Ok::<(PropertiesModel, int), ParseError>(
            (acc2, pos + one.len()),
        ));
        lemma_property_step(s, pos, one.len() as int, rest.len() + r, acc, acc2);
        lemma_parse_users(p, s, pos + one.len(), us, j + 1, r);
    }
}

proof fn lemma_parse_part_user_properties(p: PropertiesModel, s: Seq<u8>, pos: int, r: int)
    requires
        properties_roundtrip(p),
        0 <= pos,
        r >= 0,
        pos + property_part(p, 22).len() <= s.len(),
        s.subrange(pos, pos + property_part(p, 22).len()) == property_part(p, 22),
    ensures
        spec_parse_properties_from(s, pos, property_part(p, 22).len() + r, properties_upto(p, 22))
            == spec_parse_properties_from(
            s,
            pos + property_part(p, 22).len(),
            r,
            properties_upto(p, 23),
        ),
{
    match p.user_properties {
        None => {
            assert(properties_upto(p, 23) == properties_upto(p, 22));
        },
        Some(us) => {
            assert(us.skip(0) =~= us);
            assert(properties_with_users(p, us, 0) == properties_upto(p, 22));
            lemma_parse_users(p, s, pos, us, 0, r);
        },
    }
}

proof fn lemma_parse_body_from(p: PropertiesModel, s: Seq<u8>, pos: int, k: int)
    requires
        properties_roundtrip(p),
        0 <= k <= 27,
        0 <= pos,
        pos + properties_body_from(p, k).len() <= s.len(),
        s.subrange(pos, pos + properties_body_from(p, k).len()) == properties_body_from(p, k),
    ensures
        spec_parse_properties_from(s, pos, properties_body_from(p, k).len() as int, properties_upto(p, k))
            == Ok::<(PropertiesModel, int), ParseError>((p, pos + properties_body_from(p, k).len())),
    decreases 27 - k,
{
    if k == 27 {
        assert(properties_upto(p, 27) == p);
    } else {
        let part = property_part(p, k);
        let rest = properties_body_from(p, k + 1);
        lemma_sub_split(s, pos, part, rest);
        lemma_parse_body_from(p, s, pos + part.len(), k + 1);
        lemma_parse_part(p, s, pos, k, rest.len() as int);
    }
}

/// What the encoding of a property set reads back as: the same properties, and the position
/// just after the encoding, whatever bytes follow.
pub proof fn lemma_properties_roundtrip(p: PropertiesModel, prefix: Seq<u8>, suffix: Seq<u8>)
    requires
        properties_roundtrip(p),
    ensures
        spec_parse_properties(prefix + spec_encode_properties(p) + suffix, prefix.len() as int)
            == Ok::<(PropertiesModel, int), ParseError>(
            (p, (prefix.len() + spec_encode_properties(p).len()) as int),
        ),
{
    let body = spec_properties_body(p);
    let l = body.len();
    assert((l as u32) as nat == l);
    let v = spec_encode_varint(l);
    let s = prefix + spec_encode_properties(p) + suffix;
    assert(s == prefix + v + (body + suffix));
    lemma_varint_roundtrip(l, prefix, body + suffix);
    crate::codec::primitives::lemma_encode_varint_len(l);
    let start = prefix.len() + v.len();
    assert(s.subrange(start as int, (start + l) as int) =~= body);
    lemma_parse_body_from(p, s, start as int, 0);
    assert(properties_upto(p, 0) == empty_properties());
}

proof fn lemma_body_step(done: Seq<u8>, p: PropertiesModel, k: int)
    requires
        0 <= k < 27,
        done + properties_body_from(p, k) == spec_properties_body(p),
    ensures
        (done + property_part(p, k)) + properties_body_from(p, k + 1) == spec_properties_body(p),
{
    vstd::seq_lib::lemma_concat_associative(done, property_part(p, k), properties_body_from(p, k + 1));
}

/// The encoding of a property set: the length of the body (taken as a `u32`) as a Variable
/// Byte Integer, then the body.
pub open spec fn spec_encode_properties(p: PropertiesModel) -> Seq<u8> {
    let body = spec_properties_body(p);
    spec_encode_varint((body.len() as u32) as nat) + body
}

// ---------------------------------------------------------------------------
// Encoding
// ---------------------------------------------------------------------------

fn push_id(out: &mut Vec<u8>, id: u8)
    ensures
        final(out)@ == old(out)@ + prop_id(id),
{
    let e = encode_variable_u32(id as u32);
    push_all(out, e.as_slice());
}

fn push_byte_property(out: &mut Vec<u8>, id: u8, v: Option<u8>)
    ensures
        final(out)@ == old(out)@ + part_byte(id, v),
{
    if let Some(b) = v {
        push_id(out, id);
        out.push(b);
    } else {
        assert(old(out)@ + Seq::<u8>::empty() == old(out)@);
    }
}

fn push_bool_property(out: &mut Vec<u8>, id: u8, v: Option<bool>)
    ensures
        final(out)@ == old(out)@ + part_bool(id, v),
{
    if let Some(b) = v {
        push_id(out, id);
        out.push(
            if b {
                1u8
            } else {
                0u8
            },
        );
    } else {
        assert(old(out)@ + Seq::<u8>::empty() == old(out)@);
    }
}

fn push_qos_property(out: &mut Vec<u8>, id: u8, v: Option<QoS>)
    ensures
        final(out)@ == old(out)@ + part_qos(id, v),
{
    if let Some(q) = v {
        push_id(out, id);
        out.push(encode_qos(&q));
    } else {
        assert(old(out)@ + Seq::<u8>::empty() == old(out)@);
    }
}

fn push_u16_property(out: &mut Vec<u8>, id: u8, v: Option<u16>)
    ensures
        final(out)@ == old(out)@ + part_u16(id, v),
{
    if let Some(x) = v {
        push_id(out, id);
        let b = u16_to_be_bytes(x);
        push_all(out, b.as_slice());
    } else {
        assert(old(out)@ + Seq::<u8>::empty() == old(out)@);
    }
}

fn push_u32_property(out: &mut Vec<u8>, id: u8, v: Option<u32>)
    ensures
        final(out)@ == old(out)@ + part_u32(id, v),
{
    if let Some(x) = v {
        push_id(out, id);
        let b = u32_to_be_bytes(x);
        push_all(out, b.as_slice());
    } else {
        assert(old(out)@ + Seq::<u8>::empty() == old(out)@);
    }
}

fn push_varint_property(out: &mut Vec<u8>, id: u8, v: Option<u32>)
    ensures
        final(out)@ == old(out)@ + part_varint(id, v),
{
    if let Some(x) = v {
        push_id(out, id);
        let b = encode_variable_u32(x);
        push_all(out, b.as_slice());
    } else {
        assert(old(out)@ + Seq::<u8>::empty() == old(out)@);
    }
}

fn push_string_property(out: &mut Vec<u8>, id: u8, v: &Option<String>)
    ensures
        final(out)@ == old(out)@ + part_string(id, v.deep_view()),
{
    if let Some(x) = v {
        push_id(out, id);
        let b = encode_string(x.as_str());
        push_all(out, b.as_slice());
    } else {
        assert(old(out)@ + Seq::<u8>::empty() == old(out)@);
    }
}

fn push_binary_property(out: &mut Vec<u8>, id: u8, v: &Option<Vec<u8>>)
    ensures
        final(out)@ == old(out)@ + part_binary(id, bytes_view(v)),
{
    if let Some(x) = v {
        push_id(out, id);
        let b = encode_binary(x.as_slice());
        push_all(out, b.as_slice());
    } else {
        assert(old(out)@ + Seq::<u8>::empty() == old(out)@);
    }
}

fn push_user_properties(out: &mut Vec<u8>, v: &Option<Vec<UserProperty>>)
    ensures
        final(out)@ == old(out)@ + part_user(v.deep_view()),
{
    if let Some(us) = v {
        let ghost start = out@;
        let mut i: usize = 0;
        while i < us.len()
            invariant
                i <= us@.len(),
                out@ == start + user_properties_bytes(us.deep_view().take(i as int)),
            decreases us@.len() - i,
        {
            let ghost before = out@;
            push_id(out, 38);
            let k = encode_string(us[i].key.as_str());
            push_all(out, k.as_slice());
            let val = encode_string(us[i].value.as_str());
            push_all(out, val.as_slice());
            proof {
                let t = us.deep_view().take(i + 1);
                assert(t.drop_last() == us.deep_view().take(i as int));
                assert(t.last() == us[i as int].deep_view());
                assert(out@ == start + user_properties_bytes(us.deep_view().take(i as int))
                    + user_property_bytes(us[i as int].deep_view()));
            }
            i = i + 1;
        }
        assert(us.deep_view().take(us@.len() as int) == us.deep_view());
    } else {
        assert(old(out)@ + Seq::<u8>::empty() == old(out)@);
    }
}

/// The byte of a QoS level.
pub fn encode_qos(qos: &QoS) -> (res: u8)
    ensures
        res == qos_level(*qos),
{
    match qos {
        QoS::AtMostOnce => 0,
        QoS::AtLeastOnce => 1,
        QoS::ExactlyOnce => 2,
    }
}

/// The byte of a boolean.
pub fn encode_bool(value: bool) -> (res: u8)
    ensures
        res == bool_byte(value),
{
    match value {
        true => 1,
        false => 0,
    }
}

/// Encodes a property set: the length of the present properties, then each of them.
pub fn encode_properties(properties: &Properties) -> (res: Vec<u8>)
    ensures
        res@ == spec_encode_properties(properties.deep_view()),
{
    let ghost p = properties.deep_view();
    let mut payload: Vec<u8> = Vec::new();
    assert(payload@ + properties_body_from(p, 0) == spec_properties_body(p));
    proof { lemma_body_step(payload@, p, 0); }
    push_byte_property(&mut payload, 1, properties.payload_format_indicator);
    proof { lemma_body_step(payload@, p, 1); }
    push_u32_property(&mut payload, 2, properties.message_expiry_interval);
    proof { lemma_body_step(payload@, p, 2); }
    push_string_property(&mut payload, 3, &properties.content_type);
    proof { lemma_body_step(payload@, p, 3); }
    push_string_property(&mut payload, 8, &properties.response_topic);
    proof { lemma_body_step(payload@, p, 4); }
    push_binary_property(&mut payload, 9, &properties.correlation_data);
    proof { lemma_body_step(payload@, p, 5); }
    push_varint_property(&mut payload, 11, properties.subscription_identifier);
    proof { lemma_body_step(payload@, p, 6); }
    push_u32_property(&mut payload, 17, properties.session_expiry_interval);
    proof { lemma_body_step(payload@, p, 7); }
    push_string_property(&mut payload, 18, &properties.assigned_client_identifier);
    proof { lemma_body_step(payload@, p, 8); }
    push_u16_property(&mut payload, 19, properties.server_keep_alive);
    proof { lemma_body_step(payload@, p, 9); }
    push_string_property(&mut payload, 21, &properties.authentication_method);
    proof { lemma_body_step(payload@, p, 10); }
    push_binary_property(&mut payload, 22, &properties.authentication_data);
    proof { lemma_body_step(payload@, p, 11); }
    push_bool_property(&mut payload, 23, properties.request_problem_information);
    proof { lemma_body_step(payload@, p, 12); }
    push_u32_property(&mut payload, 24, properties.will_delay_interval);
    proof { lemma_body_step(payload@, p, 13); }
    push_bool_property(&mut payload, 25, properties.request_response_information);
    proof { lemma_body_step(payload@, p, 14); }
    push_string_property(&mut payload, 26, &properties.response_information);
    proof { lemma_body_step(payload@, p, 15); }
    push_string_property(&mut payload, 28, &properties.server_reference);
    proof { lemma_body_step(payload@, p, 16); }
    push_string_property(&mut payload, 31, &properties.reason_string);
    proof { lemma_body_step(payload@, p, 17); }
    push_u16_property(&mut payload, 33, properties.receive_maximum);
    proof { lemma_body_step(payload@, p, 18); }
    push_u16_property(&mut payload, 34, properties.topic_alias_maximum);
    proof { lemma_body_step(payload@, p, 19); }
    push_u16_property(&mut payload, 35, properties.topic_alias);
    proof { lemma_body_step(payload@, p, 20); }
    push_qos_property(&mut payload, 36, properties.maximum_qos);
    proof { lemma_body_step(payload@, p, 21); }
    push_bool_property(&mut payload, 37, properties.retain_available);
    proof { lemma_body_step(payload@, p, 22); }
    push_user_properties(&mut payload, &properties.user_properties);
    proof { lemma_body_step(payload@, p, 23); }
    push_u32_property(&mut payload, 39, properties.maximum_packet_size);
    proof { lemma_body_step(payload@, p, 24); }
    push_bool_property(&mut payload, 40, properties.wildcard_subscription_available);
    proof { lemma_body_step(payload@, p, 25); }
    push_bool_property(&mut payload, 41, properties.subscription_identifiers_available);
    proof { lemma_body_step(payload@, p, 26); }
    push_bool_property(&mut payload, 42, properties.shared_subscription_available);
    assert(payload@ + properties_body_from(p, 27) == payload@);
    let mut res = encode_variable_u32(payload.len() as u32);
    push_all(&mut res, payload.as_slice());
    res
}

// ---------------------------------------------------------------------------
// Parsing
// ---------------------------------------------------------------------------

/// Setting a property from a parsed value: a property that is already set makes the
/// packet malformed.
pub open spec fn place<T>(
    r: Result<(T, int), ParseError>,
    present: bool,
    set: spec_fn(T) -> PropertiesModel,
) -> Result<(PropertiesModel, int), ParseError> {
    match r {
        Err(e) => Err(e),
        Ok((v, next)) => if present {
            Err(ParseError::Malformed)
        } else {
            Ok((set(v), next))
        },
    }
}

/// Parsing a QoS byte at `pos`; the codec does not handle an input that ends before it.
pub open spec fn spec_parse_qos(s: Seq<u8>, pos: int) -> Result<(QoS, int), ParseError> {
    if pos < 0 || pos >= s.len() {
        Err(ParseError::Unsupported)
    } else if s[pos] == 0 {
        Ok((QoS::AtMostOnce, pos + 1))
    } else if s[pos] == 1 {
        Ok((QoS::AtLeastOnce, pos + 1))
    } else if s[pos] == 2 {
        Ok((QoS::ExactlyOnce, pos + 1))
    } else {
        Err(ParseError::Malformed)
    }
}

/// Parsing a boolean byte (any byte but 0 is `true`).
pub open spec fn spec_parse_bool(s: Seq<u8>, pos: int) -> Result<(bool, int), ParseError> {
    match spec_parse_byte(s, pos) {
        Err(e) => Err(e),
        Ok((b, next)) => Ok((b != 0, next)),
    }
}

/// Parsing a User Property (a string pair) at `pos`.
pub open spec fn spec_parse_string_pair(s: Seq<u8>, pos: int) -> Result<
    (UserPropertyModel, int),
    ParseError,
> {
    match spec_parse_string(s, pos) {
        Err(e) => Err(e),
        Ok((key, next)) => match spec_parse_string(s, next) {
            Err(e) => Err(e),
            Ok((value, end)) => Ok((UserPropertyModel { key, value }, end)),
        },
    }
}

/// Adding a User Property to the ones already parsed.
pub open spec fn add_user_property(
    us: Option<Seq<UserPropertyModel>>,
    u: UserPropertyModel,
) -> Option<Seq<UserPropertyModel>> {
    match us {
        Some(v) => Some(v.push(u)),
        None => Some(seq![u]),
    }
}

/// Parsing the value of the property with identifier `id` at `pos`, and adding it to `p`.
pub open spec fn spec_parse_property_value(s: Seq<u8>, pos: int, id: int, p: PropertiesModel) -> Result<
    (PropertiesModel, int),
    ParseError,
> {
    if id == 1 {
        place(
            spec_parse_byte(s, pos),
            p.payload_format_indicator is Some,
            |v: u8| PropertiesModel { payload_format_indicator: Some(v), ..p },
        )
    } else if id == 2 {
        place(
            spec_parse_u32(s, pos),
            p.message_expiry_interval is Some,
            |v: u32| PropertiesModel { message_expiry_interval: Some(v), ..p },
        )
    } else if id == 3 {
        place(
            spec_parse_string(s, pos),
            p.content_type is Some,
            |v: Seq<char>| PropertiesModel { content_type: Some(v), ..p },
        )
    } else if id == 8 {
        place(
            spec_parse_string(s, pos),
            p.response_topic is Some,
            |v: Seq<char>| PropertiesModel { response_topic: Some(v), ..p },
        )
    } else if id == 9 {
        place(
            spec_parse_binary(s, pos),
            p.correlation_data is Some,
            |v: Seq<u8>| PropertiesModel { correlation_data: Some(v), ..p },
        )
    } else if id == 11 {
        place(
            spec_parse_varint(s, pos),
            p.subscription_identifier is Some,
            |v: int| PropertiesModel { subscription_identifier: Some(v as u32), ..p },
        )
    } else if id == 17 {
        place(
            spec_parse_u32(s, pos),
            p.session_expiry_interval is Some,
            |v: u32| PropertiesModel { session_expiry_interval: Some(v), ..p },
        )
    } else if id == 18 {
        place(
            spec_parse_string(s, pos),
            p.assigned_client_identifier is Some,
            |v: Seq<char>| PropertiesModel { assigned_client_identifier: Some(v), ..p },
        )
    } else if id == 19 {
        place(
            spec_parse_u16(s, pos),
            p.server_keep_alive is Some,
            |v: u16| PropertiesModel { server_keep_alive: Some(v), ..p },
        )
    } else if id == 21 {
        place(
            spec_parse_string(s, pos),
            p.authentication_method is Some,
            |v: Seq<char>| PropertiesModel { authentication_method: Some(v), ..p },
        )
    } else if id == 22 {
        place(
            spec_parse_binary(s, pos),
            p.authentication_data is Some,
            |v: Seq<u8>| PropertiesModel { authentication_data: Some(v), ..p },
        )
    } else if id == 23 {
        place(
            spec_parse_bool(s, pos),
            p.request_problem_information is Some,
            |v: bool| PropertiesModel { request_problem_information: Some(v), ..p },
        )
    } else if id == 24 {
        place(
            spec_parse_u32(s, pos),
            p.will_delay_interval is Some,
            |v: u32| PropertiesModel { will_delay_interval: Some(v), ..p },
        )
    } else if id == 25 {
        place(
            spec_parse_bool(s, pos),
            p.request_response_information is Some,
            |v: bool| PropertiesModel { request_response_information: Some(v), ..p },
        )
    } else if id == 31 {
        place(
            spec_parse_string(s, pos),
            p.reason_string is Some,
            |v: Seq<char>| PropertiesModel { reason_string: Some(v), ..p },
        )
    } else if id == 33 {
        place(
            spec_parse_u16(s, pos),
            p.receive_maximum is Some,
            |v: u16| PropertiesModel { receive_maximum: Some(v), ..p },
        )
    } else if id == 34 {
        place(
            spec_parse_u16(s, pos),
            p.topic_alias_maximum is Some,
            |v: u16| PropertiesModel { topic_alias_maximum: Some(v), ..p },
        )
    } else if id == 36 {
        place(
            spec_parse_qos(s, pos),
            p.maximum_qos is Some,
            |v: QoS| PropertiesModel { maximum_qos: Some(v), ..p },
        )
    } else if id == 38 {
        match spec_parse_string_pair(s, pos) {
            Err(e) => Err(e),
            Ok((u, next)) => Ok(
                (PropertiesModel { user_properties: add_user_property(p.user_properties, u), ..p }, next),
            ),
        }
    } else if id == 39 {
        place(
            spec_parse_u32(s, pos),
            p.maximum_packet_size is Some,
            |v: u32| PropertiesModel { maximum_packet_size: Some(v), ..p },
        )
    } else if id == 26 || id == 28 || id == 35 || id == 37 || id == 40 || id == 41 || id == 42 {
        Err(ParseError::Unsupported)
    } else {
        Err(ParseError::Malformed)
    }
}

/// Parsing one property (identifier and value) at `pos`, and adding it to `p`.
pub open spec fn spec_parse_property(s: Seq<u8>, pos: int, p: PropertiesModel) -> Result<
    (PropertiesModel, int),
    ParseError,
> {
    match spec_parse_varint(s, pos) {
        Err(e) => Err(e),
        Ok((id, at)) => spec_parse_property_value(s, at, id, p),
    }
}

/// Parsing properties at `pos` while `remaining` bytes of them are left; a property that
/// runs past the length makes the packet malformed.
pub open spec fn spec_parse_properties_from(
    s: Seq<u8>,
    pos: int,
    remaining: int,
    p: PropertiesModel,
) -> Result<(PropertiesModel, int), ParseError>
    decreases remaining,
{
    if remaining <= 0 {
        Ok((p, pos))
    } else {
        match spec_parse_property(s, pos, p) {
            Err(e) => Err(e),
            Ok((p2, next)) => if next <= pos || next - pos > remaining {
                Err(ParseError::Malformed)
            } else {
                spec_parse_properties_from(s, next, remaining - (next - pos), p2)
            },
        }
    }
}

/// Parsing a property set at `pos`: nothing left at all stands for no property; otherwise a
/// Variable Byte Integer length, then that many bytes of properties.
pub open spec fn spec_parse_properties(s: Seq<u8>, pos: int) -> Result<
    (PropertiesModel, int),
    ParseError,
> {
    if pos >= s.len() {
        Ok((empty_properties(), pos))
    } else {
        match spec_parse_varint(s, pos) {
            Err(e) => Err(e),
            Ok((len, start)) => spec_parse_properties_from(s, start, len, empty_properties()),
        }
    }
}

/// Parses a QoS byte at `pos`.
pub fn parse_qos(input: &[u8], pos: usize) -> (res: Result<(QoS, usize), ParseError>)
    ensures
        match res {
            Ok((q, next)) => spec_parse_qos(input@, pos as int) == Ok::<(QoS, int), ParseError>((q, next as int)),
            Err(e) => spec_parse_qos(input@, pos as int) == Err::<(QoS, int), ParseError>(e),
        },
{
    if pos >= input.len() {
        return Err(ParseError::Unsupported);
    }
    match input[pos] {
        0 => Ok((QoS::AtMostOnce, pos + 1)),
        1 => Ok((QoS::AtLeastOnce, pos + 1)),
        2 => Ok((QoS::ExactlyOnce, pos + 1)),
        _ => Err(ParseError::Malformed),
    }
}

/// Parses a User Property (a string pair) at `pos`.
pub fn parse_string_pair(input: &[u8], pos: usize) -> (res: Result<(UserProperty, usize), ParseError>)
    ensures
        match res {
            Ok((u, next)) => spec_parse_string_pair(input@, pos as int) == Ok::<(UserPropertyModel, int), ParseError>(
                (u.deep_view(), next as int),
            ),
            Err(e) => spec_parse_string_pair(input@, pos as int) == Err::<(UserPropertyModel, int), ParseError>(e),
        },
{
    let (key, next) = parse_string(input, pos)?;
    let (value, end) = parse_string(input, next)?;
    Ok((UserProperty { key, value }, end))
}

/// Parses the value of the property with identifier `id` at `pos` into `props`.
fn parse_property_value(input: &[u8], pos: usize, id: u32, props: &mut Properties) -> (res: Result<
    usize,
    ParseError,
>)
    ensures
        match res {
            Ok(next) => spec_parse_property_value(input@, pos as int, id as int, old(props).deep_view())
                == Ok::<(PropertiesModel, int), ParseError>((final(props).deep_view(), next as int)),
            Err(e) => spec_parse_property_value(input@, pos as int, id as int, old(props).deep_view())
                == Err::<(PropertiesModel, int), ParseError>(e),
        },
{
    match id {
        1 => {
            let (v, next) = parse_byte(input, pos)?;
            if props.payload_format_indicator.is_some() {
                return Err(ParseError::Malformed);
            }
            props.payload_format_indicator = Some(v);
            Ok(next)
        },
        2 => {
            let (v, next) = parse_u32(input, pos)?;
            if props.message_expiry_interval.is_some() {
                return Err(ParseError::Malformed);
            }
            props.message_expiry_interval = Some(v);
            Ok(next)
        },
        3 => {
            let (v, next) = parse_string(input, pos)?;
            if props.content_type.is_some() {
                return Err(ParseError::Malformed);
            }
            props.content_type = Some(v);
            Ok(next)
        },
        8 => {
            let (v, next) = parse_string(input, pos)?;
            if props.response_topic.is_some() {
                return Err(ParseError::Malformed);
            }
            props.response_topic = Some(v);
            Ok(next)
        },
        9 => {
            let (v, next) = parse_binary_data(input, pos)?;
            if props.correlation_data.is_some() {
                return Err(ParseError::Malformed);
            }
            props.correlation_data = Some(v);
            Ok(next)
        },
        11 => {
            let (v, next) = parse_variable_u32(input, pos)?;
            if props.subscription_identifier.is_some() {
                return Err(ParseError::Malformed);
            }
            props.subscription_identifier = Some(v);
            Ok(next)
        },
        17 => {
            let (v, next) = parse_u32(input, pos)?;
            if props.session_expiry_interval.is_some() {
                return Err(ParseError::Malformed);
            }
            props.session_expiry_interval = Some(v);
            Ok(next)
        },
        18 => {
            let (v, next) = parse_string(input, pos)?;
            if props.assigned_client_identifier.is_some() {
                return Err(ParseError::Malformed);
            }
            props.assigned_client_identifier = Some(v);
            Ok(next)
        },
        19 => {
            let (v, next) = parse_u16(input, pos)?;
            if props.server_keep_alive.is_some() {
                return Err(ParseError::Malformed);
            }
            props.server_keep_alive = Some(v);
            Ok(next)
        },
        21 => {
            let (v, next) = parse_string(input, pos)?;
            if props.authentication_method.is_some() {
                return Err(ParseError::Malformed);
            }
            props.authentication_method = Some(v);
            Ok(next)
        },
        22 => {
            let (v, next) = parse_binary_data(input, pos)?;
            if props.authentication_data.is_some() {
                return Err(ParseError::Malformed);
            }
            props.authentication_data = Some(v);
            Ok(next)
        },
        23 => {
            let (v, next) = parse_byte(input, pos)?;
            if props.request_problem_information.is_some() {
                return Err(ParseError::Malformed);
            }
            props.request_problem_information = Some(v != 0);
            Ok(next)
        },
        24 => {
            let (v, next) = parse_u32(input, pos)?;
            if props.will_delay_interval.is_some() {
                return Err(ParseError::Malformed);
            }
            props.will_delay_interval = Some(v);
            Ok(next)
        },
        25 => {
            let (v, next) = parse_byte(input, pos)?;
            if props.request_response_information.is_some() {
                return Err(ParseError::Malformed);
            }
            props.request_response_information = Some(v != 0);
            Ok(next)
        },
        31 => {
            let (v, next) = parse_string(input, pos)?;
            if props.reason_string.is_some() {
                return Err(ParseError::Malformed);
            }
            props.reason_string = Some(v);
            Ok(next)
        },
        33 => {
            let (v, next) = parse_u16(input, pos)?;
            if props.receive_maximum.is_some() {
                return Err(ParseError::Malformed);
            }
            props.receive_maximum = Some(v);
            Ok(next)
        },
        34 => {
            let (v, next) = parse_u16(input, pos)?;
            if props.topic_alias_maximum.is_some() {
                return Err(ParseError::Malformed);
            }
            props.topic_alias_maximum = Some(v);
            Ok(next)
        },
        36 => {
            let (v, next) = parse_qos(input, pos)?;
            if props.maximum_qos.is_some() {
                return Err(ParseError::Malformed);
            }
            props.maximum_qos = Some(v);
            Ok(next)
        },
        38 => {
            let (u, next) = parse_string_pair(input, pos)?;
            let ghost before = props.user_properties.deep_view();
            match &mut props.user_properties {
                Some(us) => {
                    us.push(u);
                },
                None => {
                    let mut us: Vec<UserProperty> = Vec::new();
                    us.push(u);
                    props.user_properties = Some(us);
                },
            }
            proof {
                assert(props.user_properties.deep_view() == add_user_property(before, u.deep_view()));
            }
            Ok(next)
        },
        39 => {
            let (v, next) = parse_u32(input, pos)?;
            if props.maximum_packet_size.is_some() {
                return Err(ParseError::Malformed);
            }
            props.maximum_packet_size = Some(v);
            Ok(next)
        },
        26 | 28 | 35 | 37 | 40 | 41 | 42 => Err(ParseError::Unsupported),
        _ => Err(ParseError::Malformed),
    }
}

proof fn lemma_parse_property_value_advances(s: Seq<u8>, pos: int, id: int, p: PropertiesModel)
    requires
        spec_parse_property_value(s, pos, id, p) is Ok,
    ensures
        pos <= spec_parse_property_value(s, pos, id, p)->Ok_0.1 <= s.len(),
{
    if id == 11 {
        crate::codec::primitives::lemma_parse_varint_bounds(s, pos, 4);
    }
}

/// A parsed property set ends after the position it started at, and within the input when
/// it started within it.
pub proof fn lemma_parse_properties_bounds(s: Seq<u8>, pos: int)
    requires
        spec_parse_properties(s, pos) is Ok,
    ensures
        pos <= spec_parse_properties(s, pos)->Ok_0.1,
        0 <= pos <= s.len() ==> spec_parse_properties(s, pos)->Ok_0.1 <= s.len(),
{
    if pos < s.len() {
        crate::codec::primitives::lemma_parse_varint_bounds(s, pos, 4);
        let (len, start) = spec_parse_varint(s, pos)->Ok_0;
        lemma_parse_properties_from_bounds(s, start, len, empty_properties());
    }
}

proof fn lemma_parse_properties_from_bounds(s: Seq<u8>, pos: int, remaining: int, p: PropertiesModel)
    requires
        0 <= pos <= s.len(),
        spec_parse_properties_from(s, pos, remaining, p) is Ok,
    ensures
        pos <= spec_parse_properties_from(s, pos, remaining, p)->Ok_0.1 <= s.len(),
    decreases remaining,
{
    if remaining > 0 {
        crate::codec::primitives::lemma_parse_varint_bounds(s, pos, 4);
        let (id, at) = spec_parse_varint(s, pos)->Ok_0;
        lemma_parse_property_value_advances(s, at, id, p);
        let (p2, next) = spec_parse_property(s, pos, p)->Ok_0;
        lemma_parse_properties_from_bounds(s, next, remaining - (next - pos), p2);
    }
}

/// Parses a property set at `pos`.
pub fn parse_properties(input: &[u8], pos: usize) -> (res: Result<(Properties, usize), ParseError>)
    ensures
        match res {
            Ok((p, next)) => spec_parse_properties(input@, pos as int) == Ok::<(PropertiesModel, int), ParseError>(
                (p.deep_view(), next as int),
            ) && pos <= next && (pos <= input.len() ==> next <= input.len()),
            Err(e) => spec_parse_properties(input@, pos as int) == Err::<(PropertiesModel, int), ParseError>(e),
        },
{
    proof {
        if spec_parse_properties(input@, pos as int) is Ok {
            lemma_parse_properties_bounds(input@, pos as int);
        }
    }
    if pos >= input.len() {
        return Ok((Properties::new(), pos));
    }
    let (len, start) = parse_variable_u32(input, pos)?;
    let mut props = Properties::new();
    let mut remaining: u32 = len;
    let mut cur: usize = start;
    while remaining > 0
        invariant
            spec_parse_properties_from(input@, cur as int, remaining as int, props.deep_view())
                == spec_parse_properties(input@, pos as int),
        decreases remaining,
    {
        let (id, at) = parse_variable_u32(input, cur)?;
        proof {
            crate::codec::primitives::lemma_parse_varint_bounds(input@, cur as int, 4);
        }
        let ghost before = props.deep_view();
        let next = parse_property_value(input, at, id, &mut props)?;
        proof {
            lemma_parse_property_value_advances(input@, at as int, id as int, before);
        }
        if next - cur > remaining as usize {
            return Err(ParseError::Malformed);
        }
        remaining = remaining - (next - cur) as u32;
        cur = next;
    }
    Ok((props, cur))
}

} // verus!
