//! What the broker decides for one client: its identifier, the CONNACK it gets, how long it
//! may stay silent, what its will becomes, and which messages it receives.
use vstd::prelude::*;
use crate::broker::decimal::{decimal, decimal_string};
use crate::broker::session::{ClientSubscription, ClientSubscriptionModel, MemorySession};
use crate::codec::framed::MqttPacketDecoderError;
use crate::topic_filter::{spec_matches, spec_split};
use crate::types::{
    clone_opt_bytes, clone_opt_string, clone_opt_user_properties, clone_payload, qos_level, ConnAck,
    ConnAckModel, Connect, ConnectReason, MqttPacket, Publish, PublishModel, QoS, Will, WillModel,
};

verus! {

/// The longest keep alive the server accepts, in seconds.
pub const MAX_KEEP_ALIVE: u16 = 60;

/// The highest topic alias the server accepts.
pub const MAX_TOPIC_ALIAS: u16 = 10;

/// How long the server waits for the CONNECT of a new connection, in milliseconds.
pub const MAX_CONNECT_DELAY_MILLIS: u64 = 20000;

/// The identifier of a connected client: the one it gave, or one that the server assigned.
#[derive(Debug)]
pub enum ClientIdentifier {
    Normal { client_identifier: String },
    ServerAssigned { client_identifier: String },
}

impl ClientIdentifier {
    /// The identifier itself.
    pub open spec fn id(&self) -> Seq<char> {
        match self {
            ClientIdentifier::Normal { client_identifier } => client_identifier@,
            ClientIdentifier::ServerAssigned { client_identifier } => client_identifier@,
        }
    }

    /// The identifier itself.
    pub fn get_client_identifier(&self) -> (res: String)
        ensures
            res@ == self.id(),
    {
        match self {
            ClientIdentifier::ServerAssigned { client_identifier } => client_identifier.clone(),
            ClientIdentifier::Normal { client_identifier } => client_identifier.clone(),
        }
    }
}

/// Why a new connection was not accepted.
#[derive(Debug, Clone, Copy, PartialEq, Eq, Structural)]
pub enum HandleConnectError {
    /// The first packet of the connection was not a CONNECT.
    ConnectNotFirstPacket,
    /// No CONNECT came in time.
    ConnectTimeoutError,
}

impl HandleConnectError {
    /// The text of the error.
    pub fn message(&self) -> (res: String)
        ensures
            res@ == "something happened during connection."@,
    {
        "something happened during connection.".to_owned()
    }
}

/// The identifier of a client that gave `client_identifier`: that one, or, when it is
/// empty, `random` written in decimal.
pub fn assign_client_identifier(client_identifier: &String, random: u128) -> (res: ClientIdentifier)
    ensures
        client_identifier@.len() == 0 ==> res is ServerAssigned && res.id() == decimal(random as nat),
        client_identifier@.len() != 0 ==> res is Normal && res.id() == client_identifier@,
{
    if client_identifier.as_str().is_empty() {
        ClientIdentifier::ServerAssigned { client_identifier: decimal_string(random) }
    } else {
        ClientIdentifier::Normal { client_identifier: client_identifier.clone() }
    }
}

/// A random number.
///
/// Calls `rand::random::<u128>()`, which draws from the thread-local generator; nothing is
/// promised of the value.
#[verifier::external_body]
fn random_u128() -> u128 {
    rand::random::<u128>()
}

/// Accepts the first packet of a connection: it must be a CONNECT; a client that gave no
/// identifier gets a random one, in decimal.
pub fn handle_connect(packet: Option<Result<MqttPacket, MqttPacketDecoderError>>) -> (res: Result<
    (ClientIdentifier, Connect),
    HandleConnectError,
>)
    ensures
        match packet {
            Some(Ok(MqttPacket::Connect(c))) => res matches Ok((id, c2)) && c2 == c && (
            c.client_identifier@.len() == 0 ==> id is ServerAssigned && exists|r: u128|
                id.id() == decimal(r as nat)) && (c.client_identifier@.len() != 0 ==> id is Normal
                && id.id() == c.client_identifier@),
            _ => res matches Err(e) && e == HandleConnectError::ConnectNotFirstPacket,
        },
{
    match packet {
        Some(Ok(MqttPacket::Connect(connect))) => {
            let random = if connect.client_identifier.as_str().is_empty() {
                random_u128()
            } else {
                0
            };
            let id = assign_client_identifier(&connect.client_identifier, random);
            Ok((id, connect))
        },
        _ => Err(HandleConnectError::ConnectNotFirstPacket),
    }
}

/// The keep alive that the server imposes on a client asking for `keep_alive` seconds: the
/// maximum when it asks for none (0) or more than the maximum.
pub open spec fn spec_server_keep_alive(keep_alive: u16) -> Option<u16> {
    if keep_alive == 0 || keep_alive > MAX_KEEP_ALIVE {
        Some(MAX_KEEP_ALIVE)
    } else {
        None
    }
}

/// The keep alive that the server imposes, if it overrides the client's.
pub fn server_keep_alive(keep_alive: u16) -> (res: Option<u16>)
    ensures
        res == spec_server_keep_alive(keep_alive),
{
    if keep_alive == 0 || keep_alive > MAX_KEEP_ALIVE {
        Some(MAX_KEEP_ALIVE)
    } else {
        None
    }
}

/// The CONNACK of a successful connection: with Clean Start the server announces QoS 0 as
/// the maximum and the identifier it assigned, if it did.
pub open spec fn spec_connack(clean_start: bool, id: Option<Seq<char>>, keep: Option<u16>) -> ConnAckModel {
    ConnAckModel {
        session_present: false,
        connect_reason: ConnectReason::Success,
        session_expiry_interval: None,
        receive_maximum: None,
        maximum_qos: if clean_start {
            Some(QoS::AtMostOnce)
        } else {
            None
        },
        retain_available: None,
        maximum_packet_size: None,
        assigned_client_identifier: if clean_start {
            id
        } else {
            None
        },
        topic_alias_maximum: None,
        reason_string: None,
        user_properties: None,
        wildcard_subscription_available: None,
        subscription_identifiers_available: None,
        shared_subscription_available: None,
        server_keep_alive: keep,
        response_information: None,
        server_reference: None,
        authentication_method: None,
        authentication_data: None,
    }
}

/// The identifier the server assigned, if it did.
pub open spec fn assigned_id(id: ClientIdentifier) -> Option<Seq<char>> {
    match id {
        ClientIdentifier::ServerAssigned { client_identifier } => Some(client_identifier@),
        ClientIdentifier::Normal { .. } => None,
    }
}

/// The CONNACK of a successful connection.
pub fn connack_for(clean_start: bool, client_identifier: ClientIdentifier, server_keep_alive: Option<u16>) -> (res:
    ConnAck)
    ensures
        res.deep_view() == spec_connack(clean_start, assigned_id(client_identifier), server_keep_alive),
{
    let assigned_client_identifier = if clean_start {
        match client_identifier {
            ClientIdentifier::ServerAssigned { client_identifier } => Some(client_identifier),
            ClientIdentifier::Normal { .. } => None,
        }
    } else {
        None
    };
    ConnAck {
        session_present: false,
        connect_reason: ConnectReason::Success,
        session_expiry_interval: None,
        receive_maximum: None,
        maximum_qos: if clean_start {
            Some(QoS::AtMostOnce)
        } else {
            None
        },
        retain_available: None,
        maximum_packet_size: None,
        assigned_client_identifier,
        topic_alias_maximum: None,
        reason_string: None,
        user_properties: None,
        wildcard_subscription_available: None,
        subscription_identifiers_available: None,
        shared_subscription_available: None,
        server_keep_alive,
        response_information: None,
        server_reference: None,
        authentication_method: None,
        authentication_data: None,
    }
}

/// The message that a will becomes when it is published.
pub open spec fn spec_will_publish(w: WillModel) -> PublishModel {
    PublishModel {
        duplicate: false,
        qos: w.qos,
        retain: w.retain,
        topic_name: w.topic,
        packet_identifier: None,
        message_expiry_interval: w.message_expiry_interval,
        topic_alias: None,
        response_topic: w.response_topic,
        correlation_data: w.correlation_data,
        user_properties: w.user_properties,
        subscription_identifier: None,
        content_type: w.content_type,
        payload: w.payload,
    }
}

/// The message that a will becomes when it is published.
pub fn will_publish(will: Will) -> (res: Publish)
    ensures
        res.deep_view() == spec_will_publish(will.deep_view()),
{
    Publish {
        duplicate: false,
        qos: will.qos,
        retain: will.retain,
        topic_name: will.topic,
        packet_identifier: None,
        message_expiry_interval: will.message_expiry_interval,
        topic_alias: None,
        response_topic: will.response_topic,
        correlation_data: will.correlation_data,
        user_properties: will.user_properties,
        subscription_identifier: None,
        content_type: will.content_type,
        payload: will.payload,
    }
}

/// The lower of two QoS levels.
pub open spec fn min_qos(a: QoS, b: QoS) -> QoS {
    if qos_level(a) > qos_level(b) {
        b
    } else {
        a
    }
}

/// Whether the message expiry of a PUBLISH that waited `elapsed_secs` seconds (taken as a
/// `u32`) can be counted down: it has not run out.
pub open spec fn expiry_fits(p: PublishModel, elapsed_secs: u64) -> bool {
    p.message_expiry_interval matches Some(e) ==> e >= elapsed_secs as u32
}

/// What a subscription receives of a PUBLISH that waited `elapsed_secs` seconds in the
/// server: nothing when the topic does not match; otherwise the message at the lower of the
/// two QoS levels, retained only when the subscription keeps the flag, with a packet
/// identifier only above QoS 0, the expiry counted down by the time it waited, no
/// topic alias, and the subscription's identifier.
pub open spec fn spec_forward(sub: ClientSubscriptionModel, p: PublishModel, elapsed_secs: u64) -> Option<
    PublishModel,
> {
    if !spec_matches(sub.topic_filter, spec_split(p.topic_name)) {
        None
    } else {
        let qos = min_qos(sub.maximum_qos, p.qos);
        Some(
            PublishModel {
                duplicate: false,
                qos,
                retain: sub.retain_as_published && p.retain,
                topic_name: p.topic_name,
                packet_identifier: if qos_level(qos) > 0 {
                    p.packet_identifier
                } else {
                    None
                },
                message_expiry_interval: match p.message_expiry_interval {
                    Some(e) => Some((e - (elapsed_secs as u32)) as u32),
                    None => None,
                },
                topic_alias: None,
                response_topic: p.response_topic,
                correlation_data: p.correlation_data,
                user_properties: p.user_properties,
                subscription_identifier: sub.subscription_identifier,
                content_type: p.content_type,
                payload: p.payload,
            },
        )
    }
}

/// What a subscription receives never has a higher QoS than the message or the
/// subscription allow, is retained only when the subscription keeps the flag and the message
/// had it, carries a packet identifier only above QoS 0, and is never sent under a topic
/// alias.
pub proof fn lemma_forward_respects_subscription(sub: ClientSubscriptionModel, p: PublishModel, elapsed_secs: u64)
    requires
        spec_forward(sub, p, elapsed_secs) is Some,
    ensures
        ({
            let f = spec_forward(sub, p, elapsed_secs)->0;
            &&& qos_level(f.qos) <= qos_level(p.qos)
            &&& qos_level(f.qos) <= qos_level(sub.maximum_qos)
            &&& (f.retain ==> sub.retain_as_published && p.retain)
            &&& (qos_level(f.qos) == 0 ==> f.packet_identifier is None)
            &&& f.topic_alias is None
            &&& f.topic_name == p.topic_name
            &&& f.payload == p.payload
        }),
{
}

/// A forwarded message is the incoming one as its publisher wrote it: the same topic name,
/// payload, content type, response topic, correlation data and user properties, whatever
/// the subscription; only the subscription's identifier is added.
pub proof fn lemma_forward_carries_message(sub: ClientSubscriptionModel, p: PublishModel, elapsed_secs: u64)
    ensures
        spec_forward(sub, p, elapsed_secs) is Some <==> spec_matches(sub.topic_filter, spec_split(p.topic_name)),
        spec_forward(sub, p, elapsed_secs) matches Some(f) ==> {
            &&& f.topic_name == p.topic_name
            &&& f.payload == p.payload
            &&& f.content_type == p.content_type
            &&& f.response_topic == p.response_topic
            &&& f.correlation_data == p.correlation_data
            &&& f.user_properties == p.user_properties
            &&& f.subscription_identifier == sub.subscription_identifier
            &&& !f.duplicate
        },
{
}

/// The PUBLISH made from a will is the will's message as the client gave it: its topic,
/// payload, QoS and RETAIN flag, content type, response topic, correlation data, user
/// properties and message expiry; it has no packet identifier, topic alias or
/// subscription identifier.
pub proof fn lemma_will_publish_carries_will(w: WillModel)
    ensures
        ({
            let p = spec_will_publish(w);
            &&& p.topic_name == w.topic
            &&& p.payload == w.payload
            &&& p.qos == w.qos
            &&& p.retain == w.retain
            &&& p.content_type == w.content_type
            &&& p.response_topic == w.response_topic
            &&& p.correlation_data == w.correlation_data
            &&& p.user_properties == w.user_properties
            &&& p.message_expiry_interval == w.message_expiry_interval
            &&& p.packet_identifier is None
            &&& p.topic_alias is None
            &&& p.subscription_identifier is None
            &&& !p.duplicate
        }),
{
}

/// The CONNACK of a connection accepts it without a session present; it tells the client
/// the keep alive the server imposes, and, on a clean start, the identifier the server
/// assigned (if it did) and QoS 0 as the maximum. Without a clean start it announces
/// neither.
pub proof fn lemma_connack_announces(clean_start: bool, id: Option<Seq<char>>, keep: Option<u16>)
    ensures
        ({
            let c = spec_connack(clean_start, id, keep);
            &&& c.connect_reason == ConnectReason::Success
            &&& !c.session_present
            &&& c.server_keep_alive == keep
            &&& (clean_start ==> c.assigned_client_identifier == id && c.maximum_qos == Some(QoS::AtMostOnce))
            &&& (!clean_start ==> c.assigned_client_identifier is None && c.maximum_qos is None)
        }),
{
}

/// The server overrides a keep alive exactly when the client asks for none (0) or for more
/// than the maximum, and then imposes the maximum; a connection may stay silent for one
/// and a half times its keep alive.
pub proof fn lemma_keep_alive_rules(keep_alive: u16)
    ensures
        spec_server_keep_alive(keep_alive) is Some <==> (keep_alive == 0 || keep_alive > MAX_KEEP_ALIVE),
        spec_server_keep_alive(keep_alive) matches Some(k) ==> k == MAX_KEEP_ALIVE,
        2 * silence_limit_millis(keep_alive) == 3 * (keep_alive * 1000),
{
}

fn qos_number(q: QoS) -> (res: u8)
    ensures
        res == qos_level(q),
{
    match q {
        QoS::AtMostOnce => 0,
        QoS::AtLeastOnce => 1,
        QoS::ExactlyOnce => 2,
    }
}

/// What `subscription` receives of `publish`, which waited `elapsed_secs` seconds.
pub fn forward_publish(subscription: &ClientSubscription, publish: &Publish, elapsed_secs: u64) -> (res:
    Option<Publish>)
    requires
        spec_matches(subscription.topic_filter.deep_view(), spec_split(publish.topic_name@)) ==> expiry_fits(
            publish.deep_view(),
            elapsed_secs,
        ),
    ensures
        res.deep_view() == spec_forward(subscription.deep_view(), publish.deep_view(), elapsed_secs),
{
    if !subscription.topic_filter.matches(publish.topic_name.as_str()) {
        return None;
    }
    let qos = if qos_number(subscription.maximum_qos) > qos_number(publish.qos) {
        publish.qos
    } else {
        subscription.maximum_qos
    };
    let retain = subscription.retain_as_published && publish.retain;
    let packet_identifier = if qos_number(qos) > 0 {
        publish.packet_identifier
    } else {
        None
    };
    let elapsed = elapsed_secs as u32;
    let message_expiry_interval = match publish.message_expiry_interval {
        Some(e) => Some(e - elapsed),
        None => None,
    };
    Some(
        Publish {
            duplicate: false,
            qos,
            retain,
            topic_name: publish.topic_name.clone(),
            packet_identifier,
            message_expiry_interval,
            topic_alias: None,
            response_topic: clone_opt_string(&publish.response_topic),
            correlation_data: clone_opt_bytes(&publish.correlation_data),
            user_properties: clone_opt_user_properties(&publish.user_properties),
            subscription_identifier: subscription.subscription_identifier,
            content_type: clone_opt_string(&publish.content_type),
            payload: clone_payload(&publish.payload),
        },
    )
}

/// What the subscriptions `order` (looked up in `subs`) receive of a PUBLISH, in that order.
pub open spec fn spec_forwards(
    subs: Map<Seq<char>, ClientSubscriptionModel>,
    order: Seq<Seq<char>>,
    p: PublishModel,
    elapsed_secs: u64,
) -> Seq<PublishModel>
    decreases order.len(),
{
    if order.len() == 0 {
        Seq::empty()
    } else {
        let before = spec_forwards(subs, order.drop_last(), p, elapsed_secs);
        match spec_forward(subs[order.last()], p, elapsed_secs) {
            Some(f) => before.push(f),
            None => before,
        }
    }
}

/// Whether every subscription of a session that a PUBLISH reaches can count its expiry down.
pub open spec fn forwards_fit(s: MemorySession, p: PublishModel, elapsed_secs: u64) -> bool {
    forall|k: Seq<char>|
        #![trigger s.view().subscriptions[k]]
        s.view().subscriptions.contains_key(k) && spec_matches(
            s.view().subscriptions[k].topic_filter,
            spec_split(p.topic_name),
        ) ==> expiry_fits(p, elapsed_secs)
}

/// The messages that the subscriptions of `session` receive of `publish`, which waited
/// `elapsed_secs` seconds in the server.
pub fn forwards_for(session: &MemorySession, publish: &Publish, elapsed_secs: u64) -> (res: Vec<Publish>)
    requires
        session.wf(),
        forwards_fit(*session, publish.deep_view(), elapsed_secs),
    ensures
        res.deep_view() == spec_forwards(
            session.view().subscriptions,
            session.subscription_order(),
            publish.deep_view(),
            elapsed_secs,
        ),
{
    let subscriptions = match session.get_subscriptions() {
        Ok(s) => s,
        Err(_) => Vec::new(),
    };
    let ghost order = session.subscription_order();
    let ghost subs = session.view().subscriptions;
    let mut out: Vec<Publish> = Vec::new();
    let mut i: usize = 0;
    while i < subscriptions.len()
        invariant
            i <= subscriptions@.len(),
            subscriptions@.len() == order.len(),
            forall|j: int| 0 <= j < subscriptions@.len() ==> (#[trigger] subscriptions@[j]).deep_view()
                == subs[order[j]],
            forall|k: Seq<char>| subs.contains_key(k) <==> order.contains(k),
            forwards_fit(*session, publish.deep_view(), elapsed_secs),
            subs == session.view().subscriptions,
            out.deep_view() == spec_forwards(subs, order.take(i as int), publish.deep_view(), elapsed_secs),
        decreases subscriptions@.len() - i,
    {
        let sub = subscriptions[i];
        assert(sub.deep_view() == subs[order[i as int]]);
        assert(order.contains(order[i as int]));
        assert(order.take(i + 1).drop_last() =~= order.take(i as int));
        assert(order.take(i + 1).last() == order[i as int]);
        match forward_publish(sub, publish, elapsed_secs) {
            Some(f) => {
                let ghost before = out.deep_view();
                out.push(f);
                assert(out.deep_view() =~= before.push(f.deep_view()));
            },
            None => {},
        }
        i = i + 1;
    }
    assert(order.take(i as int) =~= order);
    out
}

/// How long a connection may stay silent: three halves of its keep alive.
pub open spec fn silence_limit_millis(keep_alive_secs: u16) -> int {
    keep_alive_secs * 1500
}

/// What the keep alive timer decides.
#[derive(Debug, Clone, Copy, PartialEq, Eq, Structural)]
pub enum KeepAliveCheck {
    /// The client was silent too long: the connection is closed.
    Expired,
    /// Check again after this many milliseconds.
    WaitMillis(u64),
}

/// What the keep alive timer decides after `elapsed_millis` milliseconds of silence.
pub fn keep_alive_check(elapsed_millis: u64, keep_alive_secs: u16) -> (res: KeepAliveCheck)
    ensures
        elapsed_millis > silence_limit_millis(keep_alive_secs) ==> res == KeepAliveCheck::Expired,
        elapsed_millis <= silence_limit_millis(keep_alive_secs) ==> res == KeepAliveCheck::WaitMillis(
            (silence_limit_millis(keep_alive_secs) - elapsed_millis) as u64,
        ),
{
    let limit: u64 = keep_alive_secs as u64 * 1500;
    if elapsed_millis > limit {
        KeepAliveCheck::Expired
    } else {
        KeepAliveCheck::WaitMillis(limit - elapsed_millis)
    }
}

/// Whether every subscription of `session` that `publish` reaches can count its expiry
/// down after `elapsed_secs` seconds.
pub fn forwards_defined(session: &MemorySession, publish: &Publish, elapsed_secs: u64) -> (res: bool)
    requires
        session.wf(),
    ensures
        res == forwards_fit(*session, publish.deep_view(), elapsed_secs),
{
    let fits = match publish.message_expiry_interval {
        Some(e) => e >= elapsed_secs as u32,
        None => true,
    };
    if fits {
        return true;
    }
    let subscriptions = match session.get_subscriptions() {
        Ok(s) => s,
        Err(_) => Vec::new(),
    };
    let ghost order = session.subscription_order();
    let ghost subs = session.view().subscriptions;
    let mut i: usize = 0;
    while i < subscriptions.len()
        invariant
            i <= subscriptions@.len(),
            subscriptions@.len() == order.len(),
            forall|j: int| 0 <= j < subscriptions@.len() ==> (#[trigger] subscriptions@[j]).deep_view()
                == subs[order[j]],
            forall|k: Seq<char>| subs.contains_key(k) <==> order.contains(k),
            subs == session.view().subscriptions,
            !expiry_fits(publish.deep_view(), elapsed_secs),
            forall|j: int| 0 <= j < i ==> !spec_matches(
                #[trigger] subs[order[j]].topic_filter,
                spec_split(publish.topic_name@),
            ),
        decreases subscriptions@.len() - i,
    {
        assert(subscriptions@[i as int].deep_view() == subs[order[i as int]]);
        if subscriptions[i].topic_filter.matches(publish.topic_name.as_str()) {
            assert(order.contains(order[i as int]));
            return false;
        }
        i = i + 1;
    }
    proof {
        assert forall|k: Seq<char>| #[trigger] subs[k] == subs[k] && subs.contains_key(k) implies !spec_matches(
            subs[k].topic_filter,
            spec_split(publish.topic_name@),
        ) by {
            assert(order.contains(k));
            let j = choose|j: int| 0 <= j < order.len() && order[j] == k;
            assert(!spec_matches(subs[order[j]].topic_filter, spec_split(publish.topic_name@)));
        }
    }
    true
}

/// Where the CONNECT of a client goes.
#[derive(Debug, Clone, Copy, PartialEq, Eq, Structural)]
pub enum ConnectionRoute {
    /// To the task that already serves the client.
    Existing,
    /// To a new task, with a session from the provider.
    New,
}

/// Where the CONNECT of a client goes: to the task that serves it, when there is one and
/// it still runs.
pub fn route_connection(known: bool, task_gone: bool) -> (res: ConnectionRoute)
    ensures
        res == ConnectionRoute::Existing <==> known && !task_gone,
{
    if known && !task_gone {
        ConnectionRoute::Existing
    } else {
        ConnectionRoute::New
    }
}

} // verus!
