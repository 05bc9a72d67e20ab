//! What the encoding of a packet reads back as: for the packets that the codec carries both
//! ways, decoding the encoding gives the same packet and takes all of its bytes.
use vstd::prelude::*;
use vstd::utf8::encode_utf8;
use crate::codec::decoding::{
    bit, connect_reason_of, qos_of, retain_handling_of, spec_parse_connack, spec_parse_disconnect,
    spec_parse_connect, spec_parse_connect_rest, spec_parse_header, spec_parse_mqtt,
    spec_parse_opt_binary, spec_parse_opt_string, spec_parse_publish, spec_parse_publish_id,
    spec_parse_strings, spec_parse_will, connect_model, spec_parse_suback, spec_parse_subscribe,
    spec_parse_topic_filters, spec_parse_unsuback, spec_parse_puback, puback_reason_of, spec_parse_unsubscribe, subscribe_reasons_of,
    unsubscribe_reason_of, unsubscribe_reasons_of, MqttHeader,
};
use crate::codec::encoding::{
    connack_properties, connect_flags, connect_payload, connect_properties, connect_reason_code,
    connect_variable_header, payload_bytes, publish_properties, will_properties, disconnect_properties,
    disconnect_reason_code, encodable, publish_first_byte, spec_encode, spec_packet,
    strings_bytes, subscribe_properties, subscribe_reason_bytes, subscription_options,
    suback_properties, topic_filters_bytes, unsubscribe_properties, unsuback_properties,
    unsubscribe_reason_bytes, unsubscribe_reason_code, puback_properties, puback_reason_code,
};
use crate::codec::primitives::{
    lemma_encode_varint_len, lemma_string_roundtrip, lemma_u16_roundtrip, lemma_varint_roundtrip,
    lemma_binary_roundtrip, spec_encode_binary, spec_encode_string, string_fits, binary_fits,
    spec_encode_varint, spec_parse_binary, spec_parse_string, spec_parse_u16, spec_u16_be, utf8_bytes, ParseError, VARINT_MAX,
};
use crate::codec::properties::{
    bool_byte, lemma_properties_roundtrip, properties_body_from, properties_roundtrip,
    spec_encode_properties, spec_parse_properties,
};
use crate::types::{
    PayloadModel, WillModel, ConnAckModel, ConnectModel, ConnectReason, DisconnectModel, DisconnectReason, MqttPacketModel,
    PropertiesModel, PubAckModel, PublishModel, QoS, SubAckModel, SubscribeModel, SubscribeReason,
    TopicFilterModel, UnsubAckModel, UnsubscribeModel, UnsubscribeReason,
};

verus! {

// ---------------------------------------------------------------------------
// Pieces
// ---------------------------------------------------------------------------

/// A byte sequence that holds `e` at `pos` is what comes before, then `e`, then what follows.
proof fn lemma_split(s: Seq<u8>, pos: int, e: Seq<u8>)
    requires
        0 <= pos,
        pos + e.len() <= s.len(),
        s.subrange(pos, pos + e.len()) == e,
    ensures
        s == s.subrange(0, pos) + e + s.subrange(pos + e.len(), s.len() as int),
{
    assert(s =~= s.subrange(0, pos) + e + s.subrange(pos + e.len(), s.len() as int));
}

/// The bytes of `a + b` held at `pos` are those of `a` at `pos` and of `b` just after.
proof fn lemma_sub_concat(s: Seq<u8>, pos: int, a: Seq<u8>, b: Seq<u8>)
    requires
        0 <= pos,
        pos + a.len() + b.len() <= s.len(),
        s.subrange(pos, pos + a.len() + b.len()) == a + b,
    ensures
        s.subrange(pos, pos + a.len()) == a,
        s.subrange(pos + a.len(), pos + a.len() + b.len()) == b,
{
    assert(s.subrange(pos, pos + a.len()) =~= (a + b).subrange(0, a.len() as int));
    assert(s.subrange(pos + a.len(), pos + a.len() + b.len()) =~= (a + b).subrange(
        a.len() as int,
        (a.len() + b.len()) as int,
    ));
}

/// A property set encoded at `pos` reads back as itself.
proof fn lemma_properties_at(p: PropertiesModel, s: Seq<u8>, pos: int)
    requires
        properties_roundtrip(p),
        0 <= pos,
        pos + spec_encode_properties(p).len() <= s.len(),
        s.subrange(pos, pos + spec_encode_properties(p).len()) == spec_encode_properties(p),
    ensures
        spec_parse_properties(s, pos) == Ok::<(PropertiesModel, int), ParseError>(
            (p, pos + spec_encode_properties(p).len()),
        ),
{
    let e = spec_encode_properties(p);
    lemma_split(s, pos, e);
    lemma_properties_roundtrip(p, s.subrange(0, pos), s.subrange(pos + e.len(), s.len() as int));
}

/// A string encoded at `pos` reads back as itself.
proof fn lemma_string_at(t: Seq<char>, s: Seq<u8>, pos: int)
    requires
        string_fits(t),
        0 <= pos,
        pos + spec_encode_string(t).len() <= s.len(),
        s.subrange(pos, pos + spec_encode_string(t).len()) == spec_encode_string(t),
    ensures
        spec_parse_string(s, pos) == Ok::<(Seq<char>, int), ParseError>(
            (t, pos + spec_encode_string(t).len()),
        ),
{
    let e = spec_encode_string(t);
    lemma_split(s, pos, e);
    lemma_string_roundtrip(t, s.subrange(0, pos), s.subrange(pos + e.len(), s.len() as int));
}

/// Binary data encoded at `pos` reads back as itself.
proof fn lemma_binary_at(b: Seq<u8>, s: Seq<u8>, pos: int)
    requires
        binary_fits(b),
        0 <= pos,
        pos + spec_encode_binary(b).len() <= s.len(),
        s.subrange(pos, pos + spec_encode_binary(b).len()) == spec_encode_binary(b),
    ensures
        spec_parse_binary(s, pos) == Ok::<(Seq<u8>, int), ParseError>(
            (b, pos + spec_encode_binary(b).len()),
        ),
{
    let e = spec_encode_binary(b);
    lemma_split(s, pos, e);
    lemma_binary_roundtrip(b, s.subrange(0, pos), s.subrange(pos + e.len(), s.len() as int));
}

/// A Two Byte Integer encoded at `pos` reads back as itself.
proof fn lemma_u16_at(v: u16, s: Seq<u8>, pos: int)
    requires
        0 <= pos,
        pos + 2 <= s.len(),
        s.subrange(pos, pos + 2) == spec_u16_be(v),
    ensures
        spec_parse_u16(s, pos) == Ok::<(u16, int), ParseError>((v, pos + 2)),
{
    lemma_split(s, pos, spec_u16_be(v));
    lemma_u16_roundtrip(v, s.subrange(0, pos), s.subrange(pos + 2, s.len() as int));
}

proof fn lemma_ascii_scalar(v: u32)
    requires
        v <= 0x7f,
    ensures
        vstd::utf8::encode_scalar(v) == seq![v as u8],
{
    assert((v & 0x7f) as u8 == v as u8) by (bit_vector)
        requires
            v <= 0x7f,
    ;
}

/// The protocol name "MQTT" as a UTF-8 Encoded String.
proof fn lemma_mqtt_name_bytes()
    ensures
        spec_encode_string(seq!['M', 'Q', 'T', 'T']) == seq![0u8, 4u8, 77u8, 81u8, 84u8, 84u8],
{
    reveal(utf8_bytes);
    let c4 = seq!['M', 'Q', 'T', 'T'];
    let c3 = seq!['Q', 'T', 'T'];
    let c2 = seq!['T', 'T'];
    let c1 = seq!['T'];
    assert(c4.drop_first() =~= c3);
    assert(c3.drop_first() =~= c2);
    assert(c2.drop_first() =~= c1);
    assert(c1.drop_first() =~= Seq::<char>::empty());
    lemma_ascii_scalar(77);
    lemma_ascii_scalar(81);
    lemma_ascii_scalar(84);
    assert(encode_utf8(Seq::<char>::empty()) =~= Seq::<u8>::empty());
    assert(encode_utf8(c1) =~= seq![84u8]);
    assert(encode_utf8(c2) =~= seq![84u8, 84u8]);
    assert(encode_utf8(c3) =~= seq![81u8, 84u8, 84u8]);
    assert(encode_utf8(c4) =~= seq![77u8, 81u8, 84u8, 84u8]);
    assert(spec_u16_be(4u16) =~= seq![0u8, 4u8]);
}

proof fn lemma_connect_reason_code(r: ConnectReason)
    ensures
        connect_reason_of(connect_reason_code(r)) == Some(r),
{
}

proof fn lemma_unsubscribe_reason_code(r: UnsubscribeReason)
    ensures
        unsubscribe_reason_of(unsubscribe_reason_code(r)) == Some(r),
{
}

/// The first byte of a PUBLISH carries its packet type, QoS, DUP and RETAIN.
proof fn lemma_publish_flags(p: PublishModel)
    ensures
        ({
            let f = publish_first_byte(p);
            &&& f / 16 == 3
            &&& qos_of((((f % 16) as u8 / 2) % 4) as int) == Some(p.qos)
            &&& bit((f % 16) as u8, 3) == p.duplicate
            &&& bit((f % 16) as u8, 0) == p.retain
        }),
{
}

/// The options byte of a topic filter carries its maximum QoS, No Local, Retain As
/// Published and Retain Handling.
proof fn lemma_options(tf: TopicFilterModel)
    ensures
        ({
            let o = subscription_options(tf);
            &&& qos_of((o % 4) as int) == Some(tf.maximum_qos)
            &&& retain_handling_of(((o / 16) % 4) as int) == Some(tf.retain_handling)
            &&& bit(o, 2) == tf.no_local
            &&& bit(o, 3) == tf.retain_as_published
        }),
{
}

proof fn lemma_flag_bits(u: u8, pw: u8, wr: u8, q: u8, w: u8, cs: u8, f: u8)
    by (bit_vector)
    requires
        u <= 1,
        pw <= 1,
        wr <= 1,
        q <= 2,
        w <= 1,
        cs <= 1,
        f == u * 128 + pw * 64 + wr * 32 + q * 8 + w * 4 + cs * 2,
    ensures
        (f / 128) % 2 == u,
        (f / 64) % 2 == pw,
        (f / 32) % 2 == wr,
        (f / 8) % 4 == q,
        (f / 4) % 2 == w,
        (f / 2) % 2 == cs,
{
}

/// The connect flags carry the presence of user name, password and will, the will's QoS
/// and retain, and Clean Start.
proof fn lemma_connect_flags(c: ConnectModel)
    ensures
        ({
            let f = connect_flags(c);
            &&& bit(f, 7) == c.username is Some
            &&& bit(f, 6) == c.password is Some
            &&& bit(f, 2) == c.will is Some
            &&& bit(f, 1) == c.clean_start
            &&& (c.will matches Some(w) ==> bit(f, 5) == w.retain && qos_of(((f / 8) % 4) as int)
                == Some(w.qos))
            &&& (c.will is None ==> qos_of(((f / 8) % 4) as int) == Some(QoS::AtMostOnce))
        }),
{
    let u: u8 = if c.username is Some { 1 } else { 0 };
    let pw: u8 = if c.password is Some { 1 } else { 0 };
    let cs: u8 = if c.clean_start { 1 } else { 0 };
    let (wr, q, w): (u8, u8, u8) = match c.will {
        Some(wl) => (if wl.retain { 1u8 } else { 0u8 }, crate::types::qos_level(wl.qos), 1u8),
        None => (0u8, 0u8, 0u8),
    };
    lemma_flag_bits(u, pw, wr, q, w, cs, connect_flags(c));
}

// ---------------------------------------------------------------------------
// Packet bodies
// ---------------------------------------------------------------------------

/// What follows the fixed header of a DISCONNECT.
pub open spec fn disconnect_body(d: DisconnectModel) -> Seq<u8> {
    seq![disconnect_reason_code(d.disconnect_reason)] + spec_encode_properties(disconnect_properties(d))
}

/// What follows the fixed header of a CONNACK.
pub open spec fn connack_body(c: ConnAckModel) -> Seq<u8> {
    seq![bool_byte(c.session_present), connect_reason_code(c.connect_reason)]
        + spec_encode_properties(connack_properties(c))
}

/// What follows the fixed header of a SUBACK.
pub open spec fn suback_body(x: SubAckModel) -> Seq<u8> {
    spec_u16_be(x.packet_identifier) + spec_encode_properties(suback_properties(x))
        + subscribe_reason_bytes(x.reasons)
}

/// What follows the fixed header of a PUBACK.
pub open spec fn puback_body(x: PubAckModel) -> Seq<u8> {
    spec_u16_be(x.packet_identifier) + seq![puback_reason_code(x.reason)] + spec_encode_properties(
        puback_properties(x),
    )
}

#[verifier::spinoff_prover]
proof fn lemma_puback_body(x: PubAckModel, s: Seq<u8>, pos: int)
    requires
        properties_roundtrip(puback_properties(x)),
        puback_body(x).len() <= VARINT_MAX,
        0 <= pos,
        pos + puback_body(x).len() <= s.len(),
        s.subrange(pos, pos + puback_body(x).len()) == puback_body(x),
    ensures
        spec_parse_puback(s, pos, puback_body(x).len() as u32) == Ok::<(PubAckModel, int), ParseError>(
            (x, pos + puback_body(x).len()),
        ),
{
    let id = spec_u16_be(x.packet_identifier);
    let c = puback_reason_code(x.reason);
    let pe = spec_encode_properties(puback_properties(x));
    let body = puback_body(x);
    assert(body =~= id + seq![c] + pe);
    assert(body.len() == 3 + pe.len());
    assert(spec_parse_u16(s, pos) == Ok::<(u16, int), ParseError>((x.packet_identifier, pos + 2))) by {
        assert(s[pos] == body[0]);
        assert(s[pos + 1] == body[1]);
    }
    assert(crate::codec::primitives::spec_parse_byte(s, pos + 2) == Ok::<(u8, int), ParseError>((c, pos + 3))) by {
        assert(s[pos + 2] == body[2]);
    }
    assert(puback_reason_of(c) == Some(x.reason));
    assert(spec_parse_properties(s, pos + 3) == Ok::<(PropertiesModel, int), ParseError>(
        (puback_properties(x), pos + 3 + pe.len()),
    )) by {
        assert(s.subrange(pos + 3, pos + 3 + pe.len()) =~= pe) by {
            assert forall|i: int| 0 <= i < pe.len() implies s.subrange(pos + 3, pos + 3 + pe.len())[i] == pe[i] by {
                assert(s[pos + 3 + i] == body[3 + i]);
            }
        }
        lemma_split(s, pos + 3, pe);
        lemma_properties_roundtrip(
            puback_properties(x),
            s.subrange(0, pos + 3),
            s.subrange(pos + 3 + pe.len(), s.len() as int),
        );
    }
}

/// What follows the fixed header of an UNSUBACK.
pub open spec fn unsuback_body(x: UnsubAckModel) -> Seq<u8> {
    spec_u16_be(x.packet_identifier) + spec_encode_properties(unsuback_properties(x))
        + unsubscribe_reason_bytes(x.reasons)
}

proof fn lemma_disconnect_body(d: DisconnectModel, s: Seq<u8>, pos: int)
    requires
        d.disconnect_reason != DisconnectReason::ProtocolError,
        properties_roundtrip(disconnect_properties(d)),
        0 <= pos,
        pos + disconnect_body(d).len() <= s.len(),
        s.subrange(pos, pos + disconnect_body(d).len()) == disconnect_body(d),
    ensures
        spec_parse_disconnect(s, pos) == Ok::<(DisconnectModel, int), ParseError>(
            (d, pos + disconnect_body(d).len()),
        ),
{
    let code = disconnect_reason_code(d.disconnect_reason);
    let pe = spec_encode_properties(disconnect_properties(d));
    lemma_sub_concat(s, pos, seq![code], pe);
    assert(s[pos] == s.subrange(pos, pos + 1)[0]);
    lemma_split(s, pos + 1, pe);
    lemma_properties_roundtrip(
        disconnect_properties(d),
        s.subrange(0, pos + 1),
        s.subrange(pos + 1 + pe.len(), s.len() as int),
    );
}

/// Whether a CONNACK holds only what its encoding carries, in a form its decoding reads
/// back.
pub open spec fn connack_roundtrip(c: ConnAckModel) -> bool {
    &&& properties_roundtrip(connack_properties(c))
    &&& c.wildcard_subscription_available is None
    &&& c.subscription_identifiers_available is None
    &&& c.shared_subscription_available is None
    &&& c.response_information is None
    &&& c.server_reference is None
    &&& c.authentication_method is None
    &&& c.authentication_data is None
}

#[verifier::spinoff_prover]
#[verifier::rlimit(50)]
proof fn lemma_connack_body(c: ConnAckModel, s: Seq<u8>, pos: int)
    requires
        connack_roundtrip(c),
        0 <= pos,
        pos + connack_body(c).len() <= s.len(),
        s.subrange(pos, pos + connack_body(c).len()) == connack_body(c),
    ensures
        spec_parse_connack(s, pos) == Ok::<(ConnAckModel, int), ParseError>(
            (c, pos + connack_body(c).len()),
        ),
{
    let head = seq![bool_byte(c.session_present), connect_reason_code(c.connect_reason)];
    let pe = spec_encode_properties(connack_properties(c));
    lemma_sub_concat(s, pos, head, pe);
    assert(s[pos] == s.subrange(pos, pos + 2)[0]);
    assert(s[pos + 1] == s.subrange(pos, pos + 2)[1]);
    lemma_connect_reason_code(c.connect_reason);
    lemma_split(s, pos + 2, pe);
    lemma_properties_roundtrip(
        connack_properties(c),
        s.subrange(0, pos + 2),
        s.subrange(pos + 2 + pe.len(), s.len() as int),
    );
}

proof fn lemma_subscribe_reasons(rs: Seq<SubscribeReason>)
    requires
        forall|i: int| 0 <= i < rs.len() ==> rs[i] == SubscribeReason::GrantedQoS0,
    ensures
        subscribe_reasons_of(subscribe_reason_bytes(rs)) == Some(rs),
    decreases rs.len(),
{
    if rs.len() > 0 {
        lemma_subscribe_reasons(rs.drop_last());
        assert(subscribe_reason_bytes(rs).drop_last() =~= subscribe_reason_bytes(rs.drop_last()));
        assert(rs.drop_last().push(SubscribeReason::GrantedQoS0) =~= rs);
    }
}

proof fn lemma_unsubscribe_reasons(rs: Seq<UnsubscribeReason>)
    ensures
        unsubscribe_reasons_of(unsubscribe_reason_bytes(rs)) == Some(rs),
    decreases rs.len(),
{
    if rs.len() > 0 {
        lemma_unsubscribe_reasons(rs.drop_last());
        assert(unsubscribe_reason_bytes(rs).drop_last() =~= unsubscribe_reason_bytes(rs.drop_last()));
        lemma_unsubscribe_reason_code(rs.last());
        assert(rs.drop_last().push(rs.last()) =~= rs);
    }
}

/// A packet identifier and a property set at `pos`, with `rest` after them.
proof fn lemma_id_and_properties(
    s: Seq<u8>,
    pos: int,
    id: u16,
    p: PropertiesModel,
    rest: Seq<u8>,
)
    requires
        properties_roundtrip(p),
        0 <= pos,
        pos + 2 + spec_encode_properties(p).len() + rest.len() <= s.len(),
        s.subrange(pos, pos + 2 + spec_encode_properties(p).len() + rest.len()) == spec_u16_be(id)
            + spec_encode_properties(p) + rest,
    ensures
        spec_parse_u16(s, pos) == Ok::<(u16, int), ParseError>((id, pos + 2)),
        spec_parse_properties(s, pos + 2) == Ok::<(PropertiesModel, int), ParseError>(
            (p, pos + 2 + spec_encode_properties(p).len()),
        ),
        s.subrange(
            pos + 2 + spec_encode_properties(p).len(),
            pos + 2 + spec_encode_properties(p).len() + rest.len(),
        ) == rest,
{
    let pe = spec_encode_properties(p);
    lemma_sub_concat(s, pos, spec_u16_be(id) + pe, rest);
    lemma_sub_concat(s, pos, spec_u16_be(id), pe);
    lemma_split(s, pos, spec_u16_be(id));
    lemma_u16_roundtrip(id, s.subrange(0, pos), s.subrange(pos + 2, s.len() as int));
    lemma_split(s, pos + 2, pe);
    lemma_properties_roundtrip(p, s.subrange(0, pos + 2), s.subrange(pos + 2 + pe.len(), s.len() as int));
}

proof fn lemma_suback_body(x: SubAckModel, s: Seq<u8>, pos: int)
    requires
        properties_roundtrip(suback_properties(x)),
        forall|i: int| 0 <= i < x.reasons.len() ==> x.reasons[i] == SubscribeReason::GrantedQoS0,
        suback_body(x).len() <= VARINT_MAX,
        0 <= pos,
        pos + suback_body(x).len() <= s.len(),
        s.subrange(pos, pos + suback_body(x).len()) == suback_body(x),
    ensures
        spec_parse_suback(s, pos, suback_body(x).len() as u32) == Ok::<(SubAckModel, int), ParseError>(
            (x, pos + suback_body(x).len()),
        ),
{
    let rb = subscribe_reason_bytes(x.reasons);
    lemma_id_and_properties(s, pos, x.packet_identifier, suback_properties(x), rb);
    lemma_subscribe_reasons(x.reasons);
}

proof fn lemma_unsuback_body(x: UnsubAckModel, s: Seq<u8>, pos: int)
    requires
        properties_roundtrip(unsuback_properties(x)),
        x.reasons.len() > 0,
        unsuback_body(x).len() <= VARINT_MAX,
        0 <= pos,
        pos + unsuback_body(x).len() <= s.len(),
        s.subrange(pos, pos + unsuback_body(x).len()) == unsuback_body(x),
    ensures
        spec_parse_unsuback(s, pos, unsuback_body(x).len() as u32) == Ok::<(UnsubAckModel, int), ParseError>(
            (x, pos + unsuback_body(x).len()),
        ),
{
    let rb = unsubscribe_reason_bytes(x.reasons);
    lemma_id_and_properties(s, pos, x.packet_identifier, unsuback_properties(x), rb);
    lemma_unsubscribe_reasons(x.reasons);
}

/// What follows the fixed header of a SUBSCRIBE.
pub open spec fn subscribe_body(x: SubscribeModel) -> Seq<u8> {
    spec_u16_be(x.packet_identifier) + spec_encode_properties(subscribe_properties(x))
        + topic_filters_bytes(x.topic_filters)
}

/// What follows the fixed header of an UNSUBSCRIBE.
pub open spec fn unsubscribe_body(x: UnsubscribeModel) -> Seq<u8> {
    spec_u16_be(x.packet_identifier) + spec_encode_properties(unsubscribe_properties(x))
        + strings_bytes(x.topic_filters)
}

/// The bytes of one topic filter of a SUBSCRIBE.
pub open spec fn topic_filter_bytes(tf: TopicFilterModel) -> Seq<u8> {
    spec_encode_string(tf.filter) + seq![subscription_options(tf)]
}

proof fn lemma_filters_step(fs: Seq<TopicFilterModel>, k: int)
    requires
        0 <= k < fs.len(),
    ensures
        topic_filters_bytes(fs.take(k + 1)) == topic_filters_bytes(fs.take(k)) + topic_filter_bytes(fs[k]),
{
    assert(fs.take(k + 1).drop_last() =~= fs.take(k));
    assert(topic_filters_bytes(fs.take(k + 1)) =~= topic_filters_bytes(fs.take(k)) + topic_filter_bytes(
        fs[k],
    ));
}

proof fn lemma_filters_prefix(fs: Seq<TopicFilterModel>, k: int)
    requires
        0 <= k <= fs.len(),
    ensures
        topic_filters_bytes(fs.take(k)).len() <= topic_filters_bytes(fs).len(),
        topic_filters_bytes(fs).subrange(0, topic_filters_bytes(fs.take(k)).len() as int)
            == topic_filters_bytes(fs.take(k)),
    decreases fs.len(),
{
    if k == fs.len() {
        assert(fs.take(k) =~= fs);
        assert(topic_filters_bytes(fs).subrange(0, topic_filters_bytes(fs).len() as int)
            =~= topic_filters_bytes(fs));
    } else {
        let d = fs.drop_last();
        lemma_filters_prefix(d, k);
        assert(fs.take(k) =~= d.take(k));
        let l = topic_filters_bytes(d.take(k)).len() as int;
        assert(topic_filters_bytes(fs).subrange(0, l) =~= topic_filters_bytes(d).subrange(0, l));
    }
}

proof fn lemma_filters_parse(s: Seq<u8>, base: int, fs: Seq<TopicFilterModel>, k: int)
    requires
        0 <= base,
        base + topic_filters_bytes(fs).len() <= s.len(),
        s.subrange(base, base + topic_filters_bytes(fs).len()) == topic_filters_bytes(fs),
        forall|i: int| 0 <= i < fs.len() ==> string_fits(#[trigger] fs[i].filter),
        0 <= k <= fs.len(),
    ensures
        spec_parse_topic_filters(
            s,
            base + topic_filters_bytes(fs.take(k)).len(),
            topic_filters_bytes(fs).len() - topic_filters_bytes(fs.take(k)).len(),
            fs.take(k),
        ) == Ok::<(Seq<TopicFilterModel>, int), ParseError>((fs, base + topic_filters_bytes(fs).len())),
    decreases fs.len() - k,
{
    let total = topic_filters_bytes(fs);
    if k == fs.len() {
        assert(fs.take(k) =~= fs);
    } else {
        lemma_filters_prefix(fs, k + 1);
        lemma_filters_step(fs, k);
        let before = topic_filters_bytes(fs.take(k));
        let upto = topic_filters_bytes(fs.take(k + 1));
        let tf = fs[k];
        let enc = spec_encode_string(tf.filter);
        let o = subscription_options(tf);
        let pos = base + before.len();
        assert(s.subrange(base, base + upto.len()) =~= total.subrange(0, upto.len() as int));
        lemma_sub_concat(s, base, before, topic_filter_bytes(tf));
        lemma_sub_concat(s, pos, enc, seq![o]);
        assert(s[pos + enc.len()] == s.subrange(pos + enc.len(), pos + enc.len() + 1)[0]);
        lemma_split(s, pos, enc);
        assert(string_fits(fs[k].filter));
        lemma_string_roundtrip(tf.filter, s.subrange(0, pos), s.subrange(pos + enc.len(), s.len() as int));
        lemma_options(tf);
        assert(fs.take(k).push(tf) =~= fs.take(k + 1));
        lemma_filters_parse(s, base, fs, k + 1);
    }
}

proof fn lemma_subscribe_body(x: SubscribeModel, s: Seq<u8>, pos: int)
    requires
        properties_roundtrip(subscribe_properties(x)),
        forall|i: int| 0 <= i < x.topic_filters.len() ==> string_fits(#[trigger] x.topic_filters[i].filter),
        subscribe_body(x).len() <= VARINT_MAX,
        0 <= pos,
        pos + subscribe_body(x).len() <= s.len(),
        s.subrange(pos, pos + subscribe_body(x).len()) == subscribe_body(x),
    ensures
        spec_parse_subscribe(s, pos, subscribe_body(x).len() as u32) == Ok::<(SubscribeModel, int), ParseError>(
            (x, pos + subscribe_body(x).len()),
        ),
{
    let fb = topic_filters_bytes(x.topic_filters);
    let pe = spec_encode_properties(subscribe_properties(x));
    lemma_id_and_properties(s, pos, x.packet_identifier, subscribe_properties(x), fb);
    assert(x.topic_filters.take(0) =~= Seq::<TopicFilterModel>::empty());
    lemma_filters_parse(s, pos + 2 + pe.len(), x.topic_filters, 0);
}

proof fn lemma_strings_step(ss: Seq<Seq<char>>, k: int)
    requires
        0 <= k < ss.len(),
    ensures
        strings_bytes(ss.take(k + 1)) == strings_bytes(ss.take(k)) + spec_encode_string(ss[k]),
{
    assert(ss.take(k + 1).drop_last() =~= ss.take(k));
}

proof fn lemma_strings_prefix(ss: Seq<Seq<char>>, k: int)
    requires
        0 <= k <= ss.len(),
    ensures
        strings_bytes(ss.take(k)).len() <= strings_bytes(ss).len(),
        strings_bytes(ss).subrange(0, strings_bytes(ss.take(k)).len() as int) == strings_bytes(ss.take(k)),
    decreases ss.len(),
{
    if k == ss.len() {
        assert(ss.take(k) =~= ss);
        assert(strings_bytes(ss).subrange(0, strings_bytes(ss).len() as int) =~= strings_bytes(ss));
    } else {
        let d = ss.drop_last();
        lemma_strings_prefix(d, k);
        assert(ss.take(k) =~= d.take(k));
        let l = strings_bytes(d.take(k)).len() as int;
        assert(strings_bytes(ss).subrange(0, l) =~= strings_bytes(d).subrange(0, l));
    }
}

proof fn lemma_strings_parse(s: Seq<u8>, base: int, ss: Seq<Seq<char>>, k: int)
    requires
        0 <= base,
        base + strings_bytes(ss).len() <= s.len(),
        s.subrange(base, base + strings_bytes(ss).len()) == strings_bytes(ss),
        forall|i: int| 0 <= i < ss.len() ==> string_fits(#[trigger] ss[i]),
        0 <= k <= ss.len(),
    ensures
        spec_parse_strings(
            s,
            base + strings_bytes(ss.take(k)).len(),
            strings_bytes(ss).len() - strings_bytes(ss.take(k)).len(),
            ss.take(k),
        ) == Ok::<(Seq<Seq<char>>, int), ParseError>((ss, base + strings_bytes(ss).len())),
    decreases ss.len() - k,
{
    let total = strings_bytes(ss);
    if k == ss.len() {
        assert(ss.take(k) =~= ss);
    } else {
        lemma_strings_prefix(ss, k + 1);
        lemma_strings_step(ss, k);
        let before = strings_bytes(ss.take(k));
        let upto = strings_bytes(ss.take(k + 1));
        let enc = spec_encode_string(ss[k]);
        let pos = base + before.len();
        assert(s.subrange(base, base + upto.len()) =~= total.subrange(0, upto.len() as int));
        lemma_sub_concat(s, base, before, enc);
        lemma_split(s, pos, enc);
        assert(string_fits(ss[k]));
        lemma_string_roundtrip(ss[k], s.subrange(0, pos), s.subrange(pos + enc.len(), s.len() as int));
        assert(ss.take(k).push(ss[k]) =~= ss.take(k + 1));
        lemma_strings_parse(s, base, ss, k + 1);
    }
}

proof fn lemma_unsubscribe_body(x: UnsubscribeModel, s: Seq<u8>, pos: int)
    requires
        properties_roundtrip(unsubscribe_properties(x)),
        x.topic_filters.len() > 0,
        forall|i: int| 0 <= i < x.topic_filters.len() ==> string_fits(#[trigger] x.topic_filters[i]),
        unsubscribe_body(x).len() <= VARINT_MAX,
        0 <= pos,
        pos + unsubscribe_body(x).len() <= s.len(),
        s.subrange(pos, pos + unsubscribe_body(x).len()) == unsubscribe_body(x),
    ensures
        spec_parse_unsubscribe(s, pos, unsubscribe_body(x).len() as u32) == Ok::<(UnsubscribeModel, int), ParseError>(
            (x, pos + unsubscribe_body(x).len()),
        ),
{
    let sb = strings_bytes(x.topic_filters);
    let pe = spec_encode_properties(unsubscribe_properties(x));
    lemma_id_and_properties(s, pos, x.packet_identifier, unsubscribe_properties(x), sb);
    assert(x.topic_filters.take(0) =~= Seq::<Seq<char>>::empty());
    lemma_strings_prefix(x.topic_filters, 1);
    lemma_strings_step(x.topic_filters, 0);
    lemma_strings_parse(s, pos + 2 + pe.len(), x.topic_filters, 0);
}

/// The packet identifier bytes of a PUBLISH: two bytes when there is one.
pub open spec fn publish_id_bytes(x: PublishModel) -> Seq<u8> {
    match x.packet_identifier {
        Some(id) => spec_u16_be(id),
        None => Seq::empty(),
    }
}

/// What follows the fixed header of a PUBLISH.
pub open spec fn publish_body(x: PublishModel) -> Seq<u8> {
    spec_encode_string(x.topic_name) + publish_id_bytes(x) + spec_encode_properties(publish_properties(x))
        + payload_bytes(x.payload)
}

/// Whether a PUBLISH is in a form its decoding reads back: a packet identifier (not 0)
/// exactly when the QoS is above 0, bytes as payload, and properties that read back.
pub open spec fn publish_roundtrip(x: PublishModel) -> bool {
    &&& string_fits(x.topic_name)
    &&& (x.qos == QoS::AtMostOnce <==> x.packet_identifier is None)
    &&& (x.packet_identifier matches Some(id) ==> id != 0)
    &&& x.payload is Unspecified
    &&& properties_roundtrip(publish_properties(x))
}

#[verifier::spinoff_prover]
#[verifier::rlimit(50)]
proof fn lemma_publish_body(x: PublishModel, s: Seq<u8>, pos: int)
    requires
        publish_roundtrip(x),
        publish_body(x).len() <= VARINT_MAX,
        0 <= pos,
        pos + publish_body(x).len() <= s.len(),
        s.subrange(pos, pos + publish_body(x).len()) == publish_body(x),
    ensures
        spec_parse_publish(s, pos, publish_body(x).len() as u32, (publish_first_byte(x) % 16) as u8)
            == Ok::<(PublishModel, int), ParseError>((x, pos + publish_body(x).len())),
{
    let enc = spec_encode_string(x.topic_name);
    let idb = publish_id_bytes(x);
    let pe = spec_encode_properties(publish_properties(x));
    let pay = payload_bytes(x.payload);
    lemma_publish_flags(x);
    lemma_sub_concat(s, pos, enc + idb + pe, pay);
    lemma_sub_concat(s, pos, enc + idb, pe);
    lemma_sub_concat(s, pos, enc, idb);
    lemma_string_at(x.topic_name, s, pos);
    let a = pos + enc.len();
    if let Some(id) = x.packet_identifier {
        lemma_u16_at(id, s, a);
    }
    let b = a + idb.len();
    lemma_properties_at(publish_properties(x), s, b);
    let c = b + pe.len();
    let flags = (publish_first_byte(x) % 16) as u8;
    assert(spec_parse_publish_id(s, a, x.qos) == Ok::<(Option<u16>, int), ParseError>(
        (x.packet_identifier, b),
    ));
    let size = publish_body(x).len() as u32;
    assert(((c - pos) as u32) as int == c - pos);
    let p = publish_properties(x);
    assert(PublishModel {
        duplicate: bit(flags, 3),
        qos: x.qos,
        retain: bit(flags, 0),
        topic_name: x.topic_name,
        packet_identifier: x.packet_identifier,
        message_expiry_interval: p.message_expiry_interval,
        topic_alias: p.topic_alias,
        response_topic: p.response_topic,
        correlation_data: p.correlation_data,
        user_properties: p.user_properties,
        subscription_identifier: p.subscription_identifier,
        content_type: p.content_type,
        payload: PayloadModel::Unspecified(pay),
    } == x);
}

/// The bytes of the will of a CONNECT.
pub open spec fn will_bytes(w: WillModel) -> Seq<u8> {
    spec_encode_properties(will_properties(w)) + spec_encode_string(w.topic) + spec_encode_binary(
        payload_bytes(w.payload),
    )
}

/// Whether a will is in a form its decoding reads back.
pub open spec fn will_roundtrip(w: WillModel) -> bool {
    &&& properties_roundtrip(will_properties(w))
    &&& string_fits(w.topic)
    &&& match w.payload {
        PayloadModel::String(t) => string_fits(t),
        PayloadModel::Unspecified(b) => binary_fits(b),
    }
}

#[verifier::spinoff_prover]
#[verifier::rlimit(50)]
proof fn lemma_will_part(w: WillModel, s: Seq<u8>, pos: int, flags: u8)
    requires
        will_roundtrip(w),
        bit(flags, 2),
        bit(flags, 5) == w.retain,
        0 <= pos,
        pos + will_bytes(w).len() <= s.len(),
        s.subrange(pos, pos + will_bytes(w).len()) == will_bytes(w),
    ensures
        spec_parse_will(s, pos, flags, w.qos) == Ok::<(Option<WillModel>, int), ParseError>(
            (Some(w), pos + will_bytes(w).len()),
        ),
{
    let pe = spec_encode_properties(will_properties(w));
    let te = spec_encode_string(w.topic);
    let be = spec_encode_binary(payload_bytes(w.payload));
    lemma_sub_concat(s, pos, pe + te, be);
    lemma_sub_concat(s, pos, pe, te);
    lemma_split(s, pos, pe);
    lemma_properties_roundtrip(will_properties(w), s.subrange(0, pos), s.subrange(pos + pe.len(), s.len() as int));
    let a = pos + pe.len();
    lemma_split(s, a, te);
    lemma_string_roundtrip(w.topic, s.subrange(0, a), s.subrange(a + te.len(), s.len() as int));
    let b = a + te.len();
    lemma_split(s, b, be);
    match w.payload {
        PayloadModel::String(t) => {
            lemma_string_roundtrip(t, s.subrange(0, b), s.subrange(b + be.len(), s.len() as int));
        },
        PayloadModel::Unspecified(bb) => {
            lemma_binary_roundtrip(bb, s.subrange(0, b), s.subrange(b + be.len(), s.len() as int));
        },
    }
}

/// The will bytes of a CONNECT, when it has a will.
pub open spec fn connect_will_bytes(c: ConnectModel) -> Seq<u8> {
    match c.will {
        Some(w) => will_bytes(w),
        None => Seq::empty(),
    }
}

/// The user name bytes of a CONNECT, when it has a user name.
pub open spec fn connect_username_bytes(c: ConnectModel) -> Seq<u8> {
    match c.username {
        Some(u) => spec_encode_string(u),
        None => Seq::empty(),
    }
}

/// The password bytes of a CONNECT, when it has a password.
pub open spec fn connect_password_bytes(c: ConnectModel) -> Seq<u8> {
    match c.password {
        Some(pw) => spec_encode_binary(pw),
        None => Seq::empty(),
    }
}

/// Whether a CONNECT is in a form its decoding reads back: the protocol name and version
/// that the encoding writes, no authentication (which the encoding leaves out), and fields
/// that fit their lengths.
pub open spec fn connect_roundtrip(c: ConnectModel) -> bool {
    &&& c.protocol_name == seq!['M', 'Q', 'T', 'T']
    &&& c.protocol_version == 5
    &&& c.authentication is None
    &&& properties_roundtrip(connect_properties(c))
    &&& string_fits(c.client_identifier)
    &&& (c.will matches Some(w) ==> will_roundtrip(w))
    &&& (c.username matches Some(u) ==> string_fits(u))
    &&& (c.password matches Some(pw) ==> binary_fits(pw))
}

/// The will QoS that the connect flags of `c` carry.
pub open spec fn connect_will_qos(c: ConnectModel) -> QoS {
    match c.will {
        Some(w) => w.qos,
        None => QoS::AtMostOnce,
    }
}

/// The payload of a CONNECT at `pos` reads back: client identifier, will, user name and
/// password.
#[verifier::spinoff_prover]
#[verifier::rlimit(50)]
proof fn lemma_connect_payload(c: ConnectModel, s: Seq<u8>, pos: int)
    requires
        connect_roundtrip(c),
        0 <= pos,
        pos + connect_payload(c).len() <= s.len(),
        s.subrange(pos, pos + connect_payload(c).len()) == connect_payload(c),
    ensures
        ({
            let ide = spec_encode_string(c.client_identifier);
            let b = pos + ide.len();
            let d = b + connect_will_bytes(c).len();
            let e = d + connect_username_bytes(c).len();
            &&& spec_parse_string(s, pos) == Ok::<(Seq<char>, int), ParseError>((c.client_identifier, b))
            &&& spec_parse_will(s, b, connect_flags(c), connect_will_qos(c)) == Ok::<
                (Option<WillModel>, int),
                ParseError,
            >((c.will, d))
            &&& spec_parse_opt_string(s, d, bit(connect_flags(c), 7)) == Ok::<
                (Option<Seq<char>>, int),
                ParseError,
            >((c.username, e))
            &&& spec_parse_opt_binary(s, e, bit(connect_flags(c), 6)) == Ok::<
                (Option<Seq<u8>>, int),
                ParseError,
            >((c.password, pos + connect_payload(c).len()))
        }),
{
    let ide = spec_encode_string(c.client_identifier);
    let wb = connect_will_bytes(c);
    let ub = connect_username_bytes(c);
    let pb = connect_password_bytes(c);
    let flags = connect_flags(c);
    lemma_connect_flags(c);
    assert(connect_payload(c) == ide + wb + ub + pb);
    lemma_sub_concat(s, pos, ide + wb + ub, pb);
    lemma_sub_concat(s, pos, ide + wb, ub);
    lemma_sub_concat(s, pos, ide, wb);
    lemma_string_at(c.client_identifier, s, pos);
    let b = pos + ide.len();
    if let Some(w) = c.will {
        lemma_will_part(w, s, b, flags);
    }
    let d = b + wb.len();
    if let Some(u) = c.username {
        lemma_string_at(u, s, d);
    }
    let e = d + ub.len();
    if let Some(pw) = c.password {
        lemma_binary_at(pw, s, e);
    }
}

#[verifier::spinoff_prover]
#[verifier::rlimit(50)]
proof fn lemma_connect_rest(c: ConnectModel, s: Seq<u8>, pos: int)
    requires
        connect_roundtrip(c),
        0 <= pos,
        pos + spec_encode_properties(connect_properties(c)).len() + connect_payload(c).len() <= s.len(),
        s.subrange(pos, pos + spec_encode_properties(connect_properties(c)).len() + connect_payload(c).len())
            == spec_encode_properties(connect_properties(c)) + connect_payload(c),
    ensures
        spec_parse_connect_rest(
            s,
            pos,
            seq!['M', 'Q', 'T', 'T'],
            5,
            connect_flags(c),
            connect_will_qos(c),
            c.keep_alive,
        ) == Ok::<(ConnectModel, int), ParseError>(
            (c, pos + spec_encode_properties(connect_properties(c)).len() + connect_payload(c).len()),
        ),
{
    let pe = spec_encode_properties(connect_properties(c));
    lemma_connect_flags(c);
    lemma_sub_concat(s, pos, pe, connect_payload(c));
    lemma_properties_at(connect_properties(c), s, pos);
    lemma_connect_payload(c, s, pos + pe.len());
    let p = connect_properties(c);
    assert(connect_model(
        seq!['M', 'Q', 'T', 'T'],
        5,
        connect_flags(c),
        c.keep_alive,
        p,
        c.client_identifier,
        c.will,
        c.username,
        c.password,
    ) == c);
}

/// What follows the fixed header of a CONNECT.
pub open spec fn connect_body(c: ConnectModel) -> Seq<u8> {
    connect_variable_header(c) + connect_payload(c)
}

#[verifier::spinoff_prover]
#[verifier::rlimit(50)]
proof fn lemma_connect_body(c: ConnectModel, s: Seq<u8>, pos: int)
    requires
        connect_roundtrip(c),
        0 <= pos,
        pos + connect_body(c).len() <= s.len(),
        s.subrange(pos, pos + connect_body(c).len()) == connect_body(c),
    ensures
        spec_parse_connect(s, pos) == Ok::<(ConnectModel, int), ParseError>(
            (c, pos + connect_body(c).len()),
        ),
{
    let flags = connect_flags(c);
    let name = seq!['M', 'Q', 'T', 'T'];
    let ne = spec_encode_string(name);
    let ka = spec_u16_be(c.keep_alive);
    let pe = spec_encode_properties(connect_properties(c));
    let pl = connect_payload(c);
    lemma_mqtt_name_bytes();
    lemma_connect_flags(c);
    assert(connect_body(c) =~= ne + seq![5u8, flags] + ka + (pe + pl));
    lemma_sub_concat(s, pos, ne + seq![5u8, flags] + ka, pe + pl);
    lemma_sub_concat(s, pos, ne + seq![5u8, flags], ka);
    lemma_sub_concat(s, pos, ne, seq![5u8, flags]);
    lemma_split(s, pos, ne);
    lemma_string_roundtrip(name, s.subrange(0, pos), s.subrange(pos + ne.len(), s.len() as int));
    let a = pos + 6;
    assert(s[a] == s.subrange(a, a + 2)[0]);
    assert(s[a + 1] == s.subrange(a, a + 2)[1]);
    let c8 = pos + 8;
    lemma_split(s, c8, ka);
    lemma_u16_roundtrip(c.keep_alive, s.subrange(0, c8), s.subrange(c8 + 2, s.len() as int));
    lemma_connect_rest(c, s, pos + 10);
}

/// The fixed header of a framed packet, whatever follows the packet, reads back as its
/// first byte and the length of the rest, and ends just before the rest.
proof fn lemma_header_roundtrip(first: u8, rest: Seq<u8>, after: Seq<u8>)
    requires
        rest.len() <= VARINT_MAX,
    ensures
        ({
            let s = spec_packet(first, rest) + after;
            let hl = 1 + spec_encode_varint(rest.len()).len() as int;
            &&& spec_parse_header(s, 0) == Ok::<(MqttHeader, int), ParseError>(
                (
                    MqttHeader {
                        packet_type: first / 16,
                        flags: first % 16,
                        packet_size: rest.len() as u32,
                    },
                    hl,
                ),
            )
            &&& spec_packet(first, rest).len() == hl + rest.len()
            &&& s.subrange(hl, hl + rest.len()) == rest
        }),
{
    let l = rest.len();
    assert((l as u32) as nat == l);
    let s = spec_packet(first, rest) + after;
    assert(s == seq![first] + spec_encode_varint(l) + (rest + after));
    lemma_varint_roundtrip(l, seq![first], rest + after);
    lemma_encode_varint_len(l);
    assert(s[0] == first);
    let hl = 1 + spec_encode_varint(l).len() as int;
    assert(s.subrange(hl, hl + l) =~= rest);
}

// ---------------------------------------------------------------------------
// Packets
// ---------------------------------------------------------------------------

/// Whether a packet is one that the codec carries both ways: `encode` handles it, its
/// decoding handles what the encoding writes, each field is in the form the encoding keeps
/// (see the `*_roundtrip` predicates), and what follows the fixed header fits the
/// remaining length.
pub open spec fn packet_roundtrip(p: MqttPacketModel) -> bool {
    match p {
        MqttPacketModel::PingReq => true,
        MqttPacketModel::PingResp => true,
        MqttPacketModel::ConnAck(c) => connack_roundtrip(c) && connack_body(c).len() <= VARINT_MAX,
        MqttPacketModel::Publish(x) => publish_roundtrip(x) && publish_body(x).len() <= VARINT_MAX,
        MqttPacketModel::Subscribe(x) => {
            &&& properties_roundtrip(subscribe_properties(x))
            &&& forall|i: int| 0 <= i < x.topic_filters.len() ==> string_fits(#[trigger] x.topic_filters[i].filter)
            &&& subscribe_body(x).len() <= VARINT_MAX
        },
        MqttPacketModel::SubAck(x) => {
            &&& properties_roundtrip(suback_properties(x))
            &&& forall|i: int| 0 <= i < x.reasons.len() ==> x.reasons[i] == SubscribeReason::GrantedQoS0
            &&& suback_body(x).len() <= VARINT_MAX
        },
        MqttPacketModel::Connect(c) => connect_roundtrip(c) && connect_body(c).len() <= VARINT_MAX,
        MqttPacketModel::Unsubscribe(x) => {
            &&& properties_roundtrip(unsubscribe_properties(x))
            &&& x.topic_filters.len() > 0
            &&& forall|i: int| 0 <= i < x.topic_filters.len() ==> string_fits(#[trigger] x.topic_filters[i])
            &&& unsubscribe_body(x).len() <= VARINT_MAX
        },
        MqttPacketModel::UnsubAck(x) => {
            &&& properties_roundtrip(unsuback_properties(x))
            &&& x.reasons.len() > 0
            &&& unsuback_body(x).len() <= VARINT_MAX
        },
        MqttPacketModel::Disconnect(d) => {
            &&& d.disconnect_reason != DisconnectReason::ProtocolError
            &&& properties_roundtrip(disconnect_properties(d))
            &&& disconnect_body(d).len() <= VARINT_MAX
        },
        MqttPacketModel::PubAck(x) => {
            &&& properties_roundtrip(puback_properties(x))
            &&& puback_body(x).len() <= VARINT_MAX
        },
        _ => false,
    }
}

#[verifier::spinoff_prover]
proof fn lemma_connack_packet(c: ConnAckModel, after: Seq<u8>)
    requires
        packet_roundtrip(MqttPacketModel::ConnAck(c)),
    ensures
        spec_parse_mqtt(spec_encode(MqttPacketModel::ConnAck(c)) + after) == Ok::<(MqttPacketModel, int), ParseError>(
            (MqttPacketModel::ConnAck(c), spec_encode(MqttPacketModel::ConnAck(c)).len() as int),
        ),
{
    let e = spec_encode(MqttPacketModel::ConnAck(c));
    let s = e + after;
    lemma_header_roundtrip(0x20, connack_body(c), after);
    lemma_connack_body(c, s, e.len() - connack_body(c).len());
}

#[verifier::spinoff_prover]
proof fn lemma_publish_packet(x: PublishModel, after: Seq<u8>)
    requires
        packet_roundtrip(MqttPacketModel::Publish(x)),
    ensures
        spec_parse_mqtt(spec_encode(MqttPacketModel::Publish(x)) + after) == Ok::<(MqttPacketModel, int), ParseError>(
            (MqttPacketModel::Publish(x), spec_encode(MqttPacketModel::Publish(x)).len() as int),
        ),
{
    let e = spec_encode(MqttPacketModel::Publish(x));
    let s = e + after;
    lemma_header_roundtrip(publish_first_byte(x), publish_body(x), after);
    lemma_publish_body(x, s, e.len() - publish_body(x).len());
}

#[verifier::spinoff_prover]
proof fn lemma_subscribe_packet(x: SubscribeModel, after: Seq<u8>)
    requires
        packet_roundtrip(MqttPacketModel::Subscribe(x)),
    ensures
        spec_parse_mqtt(spec_encode(MqttPacketModel::Subscribe(x)) + after) == Ok::<(MqttPacketModel, int), ParseError>(
            (MqttPacketModel::Subscribe(x), spec_encode(MqttPacketModel::Subscribe(x)).len() as int),
        ),
{
    let e = spec_encode(MqttPacketModel::Subscribe(x));
    let s = e + after;
    lemma_header_roundtrip(0x82, subscribe_body(x), after);
    lemma_subscribe_body(x, s, e.len() - subscribe_body(x).len());
}

#[verifier::spinoff_prover]
proof fn lemma_suback_packet(x: SubAckModel, after: Seq<u8>)
    requires
        packet_roundtrip(MqttPacketModel::SubAck(x)),
    ensures
        spec_parse_mqtt(spec_encode(MqttPacketModel::SubAck(x)) + after) == Ok::<(MqttPacketModel, int), ParseError>(
            (MqttPacketModel::SubAck(x), spec_encode(MqttPacketModel::SubAck(x)).len() as int),
        ),
{
    let e = spec_encode(MqttPacketModel::SubAck(x));
    let s = e + after;
    lemma_header_roundtrip(0x90, suback_body(x), after);
    lemma_suback_body(x, s, e.len() - suback_body(x).len());
}

#[verifier::spinoff_prover]
proof fn lemma_connect_packet(c: ConnectModel, after: Seq<u8>)
    requires
        packet_roundtrip(MqttPacketModel::Connect(c)),
    ensures
        spec_parse_mqtt(spec_encode(MqttPacketModel::Connect(c)) + after) == Ok::<(MqttPacketModel, int), ParseError>(
            (MqttPacketModel::Connect(c), spec_encode(MqttPacketModel::Connect(c)).len() as int),
        ),
{
    let e = spec_encode(MqttPacketModel::Connect(c));
    let s = e + after;
    lemma_header_roundtrip(0x10, connect_body(c), after);
    lemma_connect_body(c, s, e.len() - connect_body(c).len());
}

#[verifier::spinoff_prover]
proof fn lemma_unsubscribe_packet(x: UnsubscribeModel, after: Seq<u8>)
    requires
        packet_roundtrip(MqttPacketModel::Unsubscribe(x)),
    ensures
        spec_parse_mqtt(spec_encode(MqttPacketModel::Unsubscribe(x)) + after) == Ok::<(MqttPacketModel, int), ParseError>(
            (MqttPacketModel::Unsubscribe(x), spec_encode(MqttPacketModel::Unsubscribe(x)).len() as int),
        ),
{
    let e = spec_encode(MqttPacketModel::Unsubscribe(x));
    let s = e + after;
    lemma_header_roundtrip(0xa0, unsubscribe_body(x), after);
    lemma_unsubscribe_body(x, s, e.len() - unsubscribe_body(x).len());
}

#[verifier::spinoff_prover]
proof fn lemma_unsuback_packet(x: UnsubAckModel, after: Seq<u8>)
    requires
        packet_roundtrip(MqttPacketModel::UnsubAck(x)),
    ensures
        spec_parse_mqtt(spec_encode(MqttPacketModel::UnsubAck(x)) + after) == Ok::<(MqttPacketModel, int), ParseError>(
            (MqttPacketModel::UnsubAck(x), spec_encode(MqttPacketModel::UnsubAck(x)).len() as int),
        ),
{
    let e = spec_encode(MqttPacketModel::UnsubAck(x));
    let s = e + after;
    lemma_header_roundtrip(0xb0, unsuback_body(x), after);
    lemma_unsuback_body(x, s, e.len() - unsuback_body(x).len());
}

#[verifier::spinoff_prover]
proof fn lemma_disconnect_packet(d: DisconnectModel, after: Seq<u8>)
    requires
        packet_roundtrip(MqttPacketModel::Disconnect(d)),
    ensures
        spec_parse_mqtt(spec_encode(MqttPacketModel::Disconnect(d)) + after) == Ok::<(MqttPacketModel, int), ParseError>(
            (MqttPacketModel::Disconnect(d), spec_encode(MqttPacketModel::Disconnect(d)).len() as int),
        ),
{
    let e = spec_encode(MqttPacketModel::Disconnect(d));
    let s = e + after;
    lemma_header_roundtrip(0xe0, disconnect_body(d), after);
    lemma_disconnect_body(d, s, e.len() - disconnect_body(d).len());
}

#[verifier::spinoff_prover]
proof fn lemma_puback_packet(x: PubAckModel, after: Seq<u8>)
    requires
        packet_roundtrip(MqttPacketModel::PubAck(x)),
    ensures
        spec_parse_mqtt(spec_encode(MqttPacketModel::PubAck(x)) + after) == Ok::<(MqttPacketModel, int), ParseError>(
            (MqttPacketModel::PubAck(x), spec_encode(MqttPacketModel::PubAck(x)).len() as int),
        ),
{
    let e = spec_encode(MqttPacketModel::PubAck(x));
    let s = e + after;
    lemma_header_roundtrip(0x40, puback_body(x), after);
    lemma_puback_body(x, s, e.len() - puback_body(x).len());
}

#[verifier::spinoff_prover]
proof fn lemma_ping_packet(request: bool, after: Seq<u8>)
    ensures
        ({
            let p = if request {
                MqttPacketModel::PingReq
            } else {
                MqttPacketModel::PingResp
            };
            spec_parse_mqtt(spec_encode(p) + after) == Ok::<(MqttPacketModel, int), ParseError>(
                (p, spec_encode(p).len() as int),
            )
        }),
{
    let first: u8 = if request {
        0xc0
    } else {
        0xd0
    };
    lemma_header_roundtrip(first, Seq::empty(), after);
    assert(spec_packet(first, Seq::empty()) =~= seq![first, 0u8]);
}

/// Decoding the encoding of a packet, whatever bytes follow it on the stream, gives the
/// same packet and takes exactly the bytes of its encoding, for each packet that the codec
/// carries both ways.
#[verifier::spinoff_prover]
pub proof fn lemma_packet_roundtrip(p: MqttPacketModel, after: Seq<u8>)
    requires
        packet_roundtrip(p),
    ensures
        encodable(p),
        spec_parse_mqtt(spec_encode(p) + after) == Ok::<(MqttPacketModel, int), ParseError>(
            (p, spec_encode(p).len() as int),
        ),
{
    match p {
        MqttPacketModel::PingReq => lemma_ping_packet(true, after),
        MqttPacketModel::PingResp => lemma_ping_packet(false, after),
        MqttPacketModel::ConnAck(c) => lemma_connack_packet(c, after),
        MqttPacketModel::Publish(x) => lemma_publish_packet(x, after),
        MqttPacketModel::Subscribe(x) => lemma_subscribe_packet(x, after),
        MqttPacketModel::SubAck(x) => lemma_suback_packet(x, after),
        MqttPacketModel::Connect(c) => lemma_connect_packet(c, after),
        MqttPacketModel::Unsubscribe(x) => lemma_unsubscribe_packet(x, after),
        MqttPacketModel::UnsubAck(x) => lemma_unsuback_packet(x, after),
        MqttPacketModel::Disconnect(d) => lemma_disconnect_packet(d, after),
        MqttPacketModel::PubAck(x) => lemma_puback_packet(x, after),
        _ => {},
    }
}

/// Whether `input` begins with bytes in the form that `encode` writes: the encoding of a
/// packet that the codec carries both ways.
pub open spec fn starts_canonical(input: Seq<u8>) -> bool {
    exists|p: MqttPacketModel|
        #[trigger] packet_roundtrip(p) && spec_encode(p).len() <= input.len() && input.take(
            spec_encode(p).len() as int,
        ) == spec_encode(p)
}

/// Decoding bytes in the form that `encode` writes and encoding what came out gives back the
/// bytes that were read: the packet takes all of its encoding, and no more.
pub proof fn lemma_canonical_reencode(input: Seq<u8>)
    requires
        starts_canonical(input),
    ensures
        spec_parse_mqtt(input) matches Ok((q, n)) && 0 <= n <= input.len() && encodable(q)
            && spec_encode(q) == input.take(n),
{
    let p = choose|p: MqttPacketModel|
        #[trigger] packet_roundtrip(p) && spec_encode(p).len() <= input.len() && input.take(
            spec_encode(p).len() as int,
        ) == spec_encode(p);
    let e = spec_encode(p);
    let after = input.skip(e.len() as int);
    assert(input =~= e + after);
    lemma_packet_roundtrip(p, after);
}

proof fn lemma_empty_body_from(k: int)
    ensures
        properties_body_from(crate::types::empty_properties(), k) == Seq::<u8>::empty(),
    decreases 27 - k,
{
    if 0 <= k < 27 {
        lemma_empty_body_from(k + 1);
        assert(properties_body_from(crate::types::empty_properties(), k) =~= Seq::<u8>::empty());
    }
}

/// A PUBACK reads back from its encoding as itself, whatever follows it.
pub proof fn lemma_puback_roundtrip(x: PubAckModel, after: Seq<u8>)
    requires
        properties_roundtrip(puback_properties(x)),
        puback_body(x).len() <= VARINT_MAX,
    ensures
        spec_parse_mqtt(spec_encode(MqttPacketModel::PubAck(x)) + after) == Ok::<(MqttPacketModel, int), ParseError>(
            (MqttPacketModel::PubAck(x), spec_encode(MqttPacketModel::PubAck(x)).len() as int),
        ),
{
    lemma_puback_packet(x, after);
}

/// A PUBACK with neither reason string nor user properties, the one the broker sends, takes
/// four bytes after its first two and reads back from its encoding as itself.
pub proof fn lemma_plain_puback_roundtrip(packet_identifier: u16, reason: crate::types::PubAckReason)
    ensures
        ({
            let x = PubAckModel { packet_identifier, reason, reason_string: None, user_properties: None };
            &&& spec_encode(MqttPacketModel::PubAck(x)).len() == 6
            &&& spec_parse_mqtt(spec_encode(MqttPacketModel::PubAck(x))) == Ok::<(MqttPacketModel, int), ParseError>(
                (MqttPacketModel::PubAck(x), 6),
            )
        }),
{
    let x = PubAckModel { packet_identifier, reason, reason_string: None, user_properties: None };
    let p = puback_properties(x);
    assert(p == crate::types::empty_properties());
    lemma_empty_body_from(0);
    lemma_encode_varint_len(0);
    assert(puback_body(x).len() == 4);
    lemma_puback_packet(x, Seq::empty());
    lemma_encode_varint_len(4);
    assert(spec_encode(MqttPacketModel::PubAck(x)) + Seq::<u8>::empty() =~= spec_encode(MqttPacketModel::PubAck(x)));
}

} // verus!
