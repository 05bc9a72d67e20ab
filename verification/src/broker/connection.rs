//! The state of one client's connection and what it does on each event: a CONNECT handed
//! over by the listener, a packet from the client, the end of its stream, the will timer.
//! The caller performs the I/O that each decision asks for.
use vstd::prelude::*;
use std::collections::HashMap;
use crate::broker::client::{
    connack_for, server_keep_alive, spec_connack, spec_server_keep_alive, spec_will_publish,
    will_publish, assigned_id, ClientIdentifier,
};
use crate::broker::publish::{
    alias_names, aliases_after, bare_disconnect, puback_for, qos_handled, refusal_message,
    refusal_reason, resolve_publish, resolved_topic, retained_after, store_retained_in, HandlePublishError,
    PublishAction,
};
use crate::broker::session::{
    entries_map,
    ClientSubscription, ClientSubscriptionModel, MemorySession, SessionError, SessionModel,
};
use crate::broker::store::{retained_matching, ClusterStore, ClusterStoreError};
use crate::codec::framed::MqttPacketEncoderError;
use crate::topic_filter::{chars_of, spec_parse_topic_filter, TopicFilter};
use crate::types::{
    clone_publish, QoS, ConnAck, Connect, Disconnect, DisconnectReason, MqttPacket,
    MqttPacketModel, PubAck, Publish, PublishModel, RetainHandling, SubAck, SubAckModel, Subscribe,
    SubscribeReason, TopicFilterModel, UnsubAck, UnsubAckModel, Unsubscribe, UnsubscribeReason,
    Will,
};

verus! {

broadcast use vstd::std_specs::hash::group_hash_axioms;

// ---------------------------------------------------------------------------
// SUBSCRIBE
// ---------------------------------------------------------------------------

/// Why handling a SUBSCRIBE failed.
#[derive(Debug)]
pub enum HandleSubscribeError {
    SessionError(SessionError),
    FramedError(MqttPacketEncoderError),
    ClusterStore(ClusterStoreError),
}

impl From<SessionError> for HandleSubscribeError {
    fn from(error: SessionError) -> (r: Self) {
        HandleSubscribeError::SessionError(error)
    }
}

impl vstd::std_specs::convert::FromSpecImpl<SessionError> for HandleSubscribeError {
    open spec fn obeys_from_spec() -> bool {
        true
    }

    open spec fn from_spec(error: SessionError) -> Self {
        HandleSubscribeError::SessionError(error)
    }
}

impl From<MqttPacketEncoderError> for HandleSubscribeError {
    fn from(error: MqttPacketEncoderError) -> (r: Self) {
        HandleSubscribeError::FramedError(error)
    }
}

impl vstd::std_specs::convert::FromSpecImpl<MqttPacketEncoderError> for HandleSubscribeError {
    open spec fn obeys_from_spec() -> bool {
        true
    }

    open spec fn from_spec(error: MqttPacketEncoderError) -> Self {
        HandleSubscribeError::FramedError(error)
    }
}

impl From<ClusterStoreError> for HandleSubscribeError {
    fn from(error: ClusterStoreError) -> (r: Self) {
        HandleSubscribeError::ClusterStore(error)
    }
}

impl vstd::std_specs::convert::FromSpecImpl<ClusterStoreError> for HandleSubscribeError {
    open spec fn obeys_from_spec() -> bool {
        true
    }

    open spec fn from_spec(error: ClusterStoreError) -> Self {
        HandleSubscribeError::ClusterStore(error)
    }
}

/// Whether a topic filter asks for a shared subscription, which the broker does not handle.
pub open spec fn is_shared(filter: Seq<char>) -> bool {
    filter.len() >= 7 && filter.take(7) == "$shared"@
}

fn starts_with_shared(filter: &String) -> (res: bool)
    ensures
        res == is_shared(filter@),
{
    let chars = chars_of(filter.as_str());
    proof {
        reveal_strlit("$shared");
    }
    if chars.len() < 7 {
        return false;
    }
    let res = chars[0] == '$' && chars[1] == 's' && chars[2] == 'h' && chars[3] == 'a' && chars[4] == 'r'
        && chars[5] == 'e' && chars[6] == 'd';
    let ghost expected = seq!['$', 's', 'h', 'a', 'r', 'e', 'd'];
    assert("$shared"@ =~= expected);
    if res {
        assert(chars@.take(7) =~= expected);
    } else {
        assert(chars@.take(7) != expected) by {
            if chars@.take(7) == expected {
                assert(chars@.take(7)[0] == '$' && chars@.take(7)[1] == 's' && chars@.take(7)[2] == 'h');
                assert(chars@.take(7)[3] == 'a' && chars@.take(7)[4] == 'r' && chars@.take(7)[5] == 'e');
                assert(chars@.take(7)[6] == 'd');
            }
        }
    }
    res
}

/// The progress of a SUBSCRIBE: the subscriptions so far, the retained messages to send and
/// the reasons of the SUBACK.
pub struct SubscribeProgress {
    pub subscriptions: Map<Seq<char>, ClientSubscriptionModel>,
    pub retained: Seq<PublishModel>,
    pub reasons: Seq<SubscribeReason>,
}

/// The retained messages as they are sent to a new subscriber: with the RETAIN flag.
pub open spec fn as_retained(ps: Seq<PublishModel>) -> Seq<PublishModel> {
    ps.map_values(|p: PublishModel| PublishModel { retain: true, ..p })
}

/// One topic filter of a SUBSCRIBE: one that does not parse is refused; another
/// adds or replaces the subscription for it, and sends the retained messages that match it
/// when its Retain Handling asks for them (always, or only for a new subscription).
pub open spec fn subscribe_step(
    st: SubscribeProgress,
    tf: TopicFilterModel,
    subscription_identifier: Option<u32>,
    store: Seq<(Seq<char>, PublishModel)>,
) -> SubscribeProgress {
    match spec_parse_topic_filter(tf.filter) {
        Err(_) => SubscribeProgress { reasons: st.reasons.push(SubscribeReason::UnspecifiedError), ..st },
        Ok(f) => {
            let send = step_consults(st.subscriptions, tf);
            SubscribeProgress {
                subscriptions: st.subscriptions.insert(
                    tf.filter,
                    ClientSubscriptionModel {
                        topic_filter: f,
                        subscription_identifier,
                        maximum_qos: tf.maximum_qos,
                        retain_as_published: tf.retain_as_published,
                    },
                ),
                retained: if send {
                    st.retained + as_retained(retained_matching(store, f))
                } else {
                    st.retained
                },
                reasons: st.reasons.push(SubscribeReason::GrantedQoS0),
            }
        },
    }
}

/// The topic filters of a SUBSCRIBE, handled in order.
pub open spec fn subscribe_all(
    st: SubscribeProgress,
    tfs: Seq<TopicFilterModel>,
    subscription_identifier: Option<u32>,
    store: Seq<(Seq<char>, PublishModel)>,
) -> SubscribeProgress
    decreases tfs.len(),
{
    if tfs.len() == 0 {
        st
    } else {
        subscribe_step(
            subscribe_all(st, tfs.drop_last(), subscription_identifier, store),
            tfs.last(),
            subscription_identifier,
            store,
        )
    }
}

/// The SUBACK of a SUBSCRIBE with the given reasons.
pub open spec fn spec_suback(packet_identifier: u16, reasons: Seq<SubscribeReason>) -> SubAckModel {
    SubAckModel { packet_identifier, reason_string: None, user_properties: None, reasons }
}

/// Whether a topic filter of a SUBSCRIBE, with the subscriptions `subs` before it, asks
/// the store for retained messages: it parses, and its Retain Handling asks for them
/// always, or for a new subscription when there is none for it yet.
pub open spec fn step_consults(subs: Map<Seq<char>, ClientSubscriptionModel>, tf: TopicFilterModel) -> bool {
    &&& spec_parse_topic_filter(tf.filter) is Ok
    &&& (tf.retain_handling == RetainHandling::SendRetained || (tf.retain_handling
        == RetainHandling::SendRetainedForNewSubscription && !subs.contains_key(tf.filter)))
}

/// Whether the `k`-th topic filter of `tfs`, handled from `init`, asks the store for
/// retained messages.
pub open spec fn consulted_at(
    init: SubscribeProgress,
    tfs: Seq<TopicFilterModel>,
    subscription_identifier: Option<u32>,
    store: Seq<(Seq<char>, PublishModel)>,
    k: int,
) -> bool {
    &&& 0 <= k < tfs.len()
    &&& step_consults(subscribe_all(init, tfs.take(k), subscription_identifier, store).subscriptions, tfs[k])
}

/// The start of a SUBSCRIBE on a session with subscriptions `subs`.
pub open spec fn subscribe_start(subs: Map<Seq<char>, ClientSubscriptionModel>) -> SubscribeProgress {
    SubscribeProgress { subscriptions: subs, retained: Seq::empty(), reasons: Seq::empty() }
}

/// Handles a SUBSCRIBE: updates the subscriptions of the session and gives the retained
/// messages to send, then the SUBACK. A store that does not answer every call may fail
/// when it is asked for retained messages; the error is then handed on, and the
/// subscriptions made up to that filter stay made.
pub fn handle_subscribe<S: ClusterStore>(
    session: &mut MemorySession,
    cluster_store: &mut S,
    subscribe: Subscribe,
) -> (res: Result<(Vec<Publish>, SubAck), HandleSubscribeError>)
    requires
        old(session).wf(),
        old(cluster_store).store_wf(),
        forall|i: int| 0 <= i < subscribe.topic_filters@.len() ==> !is_shared(
            #[trigger] subscribe.topic_filters@[i].filter@,
        ),
    ensures
        final(session).wf(),
        final(cluster_store).store_wf(),
        final(cluster_store).retained_entries() == old(cluster_store).retained_entries(),
        final(cluster_store).answers() == old(cluster_store).answers(),
        old(cluster_store).answers() ==> res is Ok,
        res matches Err(e) ==> e is ClusterStore,
        // A failure comes from the store, at a filter that asked it for retained messages;
        // the subscriptions up to that filter, it included, are made.
        res is Err ==> exists|k: int|
            #[trigger] consulted_at(
                subscribe_start(old(session).view().subscriptions),
                subscribe.topic_filters.deep_view(),
                subscribe.subscription_identifier,
                old(cluster_store).retained_entries(),
                k,
            ) && final(session).view() == (SessionModel {
                subscriptions: subscribe_all(
                    subscribe_start(old(session).view().subscriptions),
                    subscribe.topic_filters.deep_view().take(k + 1),
                    subscribe.subscription_identifier,
                    old(cluster_store).retained_entries(),
                ).subscriptions,
                ..old(session).view()
            }),
        res is Ok ==> ({
            let st = subscribe_all(
                SubscribeProgress {
                    subscriptions: old(session).view().subscriptions,
                    retained: Seq::empty(),
                    reasons: Seq::empty(),
                },
                subscribe.topic_filters.deep_view(),
                subscribe.subscription_identifier,
                old(cluster_store).retained_entries(),
            );
            &&& res matches Ok((retained, suback)) && retained.deep_view() == st.retained
                && suback.deep_view() == spec_suback(subscribe.packet_identifier, st.reasons)
            &&& final(session).view() == (SessionModel {
                subscriptions: st.subscriptions,
                ..old(session).view()
            })
        }),
{
    let ghost store = cluster_store.retained_entries();
    let ghost tfs = subscribe.topic_filters.deep_view();
    let ghost init = SubscribeProgress {
        subscriptions: session.view().subscriptions,
        retained: Seq::empty(),
        reasons: Seq::empty(),
    };
    let ghost start = session.view();
    let mut retained_out: Vec<Publish> = Vec::new();
    let mut reasons: Vec<SubscribeReason> = Vec::new();
    let mut i: usize = 0;
    while i < subscribe.topic_filters.len()
        invariant
            i <= subscribe.topic_filters@.len(),
            tfs == subscribe.topic_filters.deep_view(),
            session.wf(),
            cluster_store.store_wf(),
            cluster_store.retained_entries() == store,
            store == old(cluster_store).retained_entries(),
            cluster_store.answers() == old(cluster_store).answers(),
            init == subscribe_start(old(session).view().subscriptions),
            start == old(session).view(),
            forall|j: int| 0 <= j < subscribe.topic_filters@.len() ==> !is_shared(
                #[trigger] subscribe.topic_filters@[j].filter@,
            ),
            ({
                let st = subscribe_all(init, tfs.take(i as int), subscribe.subscription_identifier, store);
                &&& retained_out.deep_view() == st.retained
                &&& reasons@ == st.reasons
                &&& session.view() == (SessionModel { subscriptions: st.subscriptions, ..start })
            }),
        decreases subscribe.topic_filters@.len() - i,
    {
        let tf = &subscribe.topic_filters[i];
        assert(tfs.take(i + 1).drop_last() =~= tfs.take(i as int));
        assert(tfs.take(i + 1).last() == tf.deep_view());
        let ghost before = subscribe_all(init, tfs.take(i as int), subscribe.subscription_identifier, store);
        if starts_with_shared(&tf.filter) {
            assert(false);
        }
        match TopicFilter::new(tf.filter.as_str()) {
            Err(_) => {
                reasons.push(SubscribeReason::UnspecifiedError);
            },
            Ok(topic_filter) => {
                let parsed = crate::topic_filter::clone_topic_filter(&topic_filter);
                let result = match session.add_subscription(
                    tf.filter.clone(),
                    ClientSubscription {
                        topic_filter,
                        subscription_identifier: subscribe.subscription_identifier,
                        maximum_qos: tf.maximum_qos,
                        retain_as_published: tf.retain_as_published,
                    },
                ) {
                    Ok(r) => r,
                    Err(e) => {
                        return Err(HandleSubscribeError::SessionError(e));
                    },
                };
                let send = match (result, &tf.retain_handling) {
                    (_, RetainHandling::SendRetained) => true,
                    (
                        crate::broker::session::AddSubscriptionResult::New,
                        RetainHandling::SendRetainedForNewSubscription,
                    ) => true,
                    _ => false,
                };
                if send {
                    let found = match cluster_store.get_retained(&parsed) {
                        Ok(v) => v,
                        Err(e) => {
                            assert(consulted_at(init, tfs, subscribe.subscription_identifier, store, i as int));
                            return Err(HandleSubscribeError::ClusterStore(e));
                        },
                    };
                    let ghost before_out = retained_out.deep_view();
                    let mut k: usize = 0;
                    while k < found.len()
                        invariant
                            k <= found@.len(),
                            retained_out.deep_view() == before_out + as_retained(found.deep_view().take(k as int)),
                        decreases found@.len() - k,
                    {
                        let mut p = clone_publish(&found[k]);
                        p.retain = true;
                        let ghost prev = retained_out.deep_view();
                        retained_out.push(p);
                        assert(retained_out.deep_view() =~= prev.push(p.deep_view()));
                        assert(as_retained(found.deep_view().take(k + 1)) =~= as_retained(
                            found.deep_view().take(k as int),
                        ).push(p.deep_view()));
                        k = k + 1;
                    }
                    assert(found.deep_view().take(k as int) =~= found.deep_view());
                }
                reasons.push(SubscribeReason::GrantedQoS0);
            },
        }
        i = i + 1;
    }
    assert(tfs.take(i as int) =~= tfs);
    Ok(
        (
            retained_out,
            SubAck {
                packet_identifier: subscribe.packet_identifier,
                reason_string: None,
                user_properties: None,
                reasons,
            },
        ),
    )
}

// ---------------------------------------------------------------------------
// UNSUBSCRIBE
// ---------------------------------------------------------------------------

/// The topic filters of an UNSUBSCRIBE, handled in order: each removes its subscription,
/// and its reason tells whether there was one.
pub open spec fn unsubscribe_all(
    subs: Map<Seq<char>, ClientSubscriptionModel>,
    topics: Seq<Seq<char>>,
) -> (Map<Seq<char>, ClientSubscriptionModel>, Seq<UnsubscribeReason>)
    decreases topics.len(),
{
    if topics.len() == 0 {
        (subs, Seq::empty())
    } else {
        let (m, rs) = unsubscribe_all(subs, topics.drop_last());
        let t = topics.last();
        if m.contains_key(t) {
            (m.remove(t), rs.push(UnsubscribeReason::Success))
        } else {
            (m, rs.push(UnsubscribeReason::NoSubscriptionExisted))
        }
    }
}

/// Handles an UNSUBSCRIBE: removes the subscriptions and gives the UNSUBACK.
pub fn handle_unsubscribe(session: &mut MemorySession, unsubscribe: Unsubscribe) -> (res: UnsubAck)
    requires
        old(session).wf(),
    ensures
        final(session).wf(),
        ({
            let (m, rs) = unsubscribe_all(old(session).view().subscriptions, unsubscribe.topic_filters.deep_view());
            &&& res.deep_view() == (UnsubAckModel {
                packet_identifier: unsubscribe.packet_identifier,
                reason_string: None,
                user_properties: None,
                reasons: rs,
            })
            &&& final(session).view() == (SessionModel { subscriptions: m, ..old(session).view() })
        }),
{
    let ghost topics = unsubscribe.topic_filters.deep_view();
    let ghost start = session.view();
    let mut reasons: Vec<UnsubscribeReason> = Vec::new();
    let mut i: usize = 0;
    while i < unsubscribe.topic_filters.len()
        invariant
            i <= unsubscribe.topic_filters@.len(),
            topics == unsubscribe.topic_filters.deep_view(),
            session.wf(),
            ({
                let (m, rs) = unsubscribe_all(start.subscriptions, topics.take(i as int));
                &&& reasons@ == rs
                &&& session.view() == (SessionModel { subscriptions: m, ..start })
            }),
        decreases unsubscribe.topic_filters@.len() - i,
    {
        assert(topics.take(i + 1).drop_last() =~= topics.take(i as int));
        assert(topics.take(i + 1).last() == unsubscribe.topic_filters@[i as int]@);
        let reason = match session.remove_subscription(unsubscribe.topic_filters[i].clone()) {
            Ok(Some(_)) => UnsubscribeReason::Success,
            Ok(None) => UnsubscribeReason::NoSubscriptionExisted,
            Err(_) => UnsubscribeReason::UnspecifiedError,
        };
        reasons.push(reason);
        proof {
            let (m, rs) = unsubscribe_all(start.subscriptions, topics.take(i as int));
            if !m.contains_key(topics[i as int]) {
                assert(m.remove(topics[i as int]) =~= m);
            }
        }
        i = i + 1;
    }
    assert(topics.take(i as int) =~= topics);
    UnsubAck {
        packet_identifier: unsubscribe.packet_identifier,
        reason_string: None,
        user_properties: None,
        reasons,
    }
}

/// A SUBACK has one reason per topic filter of its SUBSCRIBE, and every topic filter that
/// parses is subscribed afterwards.
pub proof fn lemma_subscribe_covers_all(
    st: SubscribeProgress,
    tfs: Seq<TopicFilterModel>,
    subscription_identifier: Option<u32>,
    store: Seq<(Seq<char>, PublishModel)>,
)
    ensures
        ({
            let r = subscribe_all(st, tfs, subscription_identifier, store);
            &&& r.reasons.len() == st.reasons.len() + tfs.len()
            &&& forall|i: int|
                0 <= i < tfs.len() && spec_parse_topic_filter(#[trigger] tfs[i].filter) is Ok
                    ==> r.subscriptions.contains_key(tfs[i].filter)
            &&& forall|i: int|
                0 <= i < tfs.len() ==> (r.reasons[st.reasons.len() + i] == SubscribeReason::GrantedQoS0
                    <==> spec_parse_topic_filter(#[trigger] tfs[i].filter) is Ok)
        }),
    decreases tfs.len(),
{
    if tfs.len() > 0 {
        let d = tfs.drop_last();
        lemma_subscribe_covers_all(st, d, subscription_identifier, store);
        let prev = subscribe_all(st, d, subscription_identifier, store);
        let r = subscribe_all(st, tfs, subscription_identifier, store);
        assert forall|i: int|
            0 <= i < tfs.len() && spec_parse_topic_filter(#[trigger] tfs[i].filter) is Ok
                implies r.subscriptions.contains_key(tfs[i].filter) by {
            if i < d.len() {
                assert(d[i] == tfs[i]);
                assert(prev.subscriptions.contains_key(d[i].filter));
            }
        }
        assert forall|i: int|
            0 <= i < tfs.len() implies (r.reasons[st.reasons.len() + i] == SubscribeReason::GrantedQoS0
                <==> spec_parse_topic_filter(#[trigger] tfs[i].filter) is Ok) by {
            if i < d.len() {
                assert(d[i] == tfs[i]);
                assert(r.reasons[st.reasons.len() + i] == prev.reasons[st.reasons.len() + i]);
            }
        }
    }
}

/// After a SUBSCRIBE, each topic filter that parses is subscribed with the options it
/// asked for: its parsed filter, its maximum QoS, its Retain As Published option and the
/// SUBSCRIBE's subscription identifier. Where a topic filter comes more than once, the
/// last one counts.
pub proof fn lemma_subscribe_records_options(
    st: SubscribeProgress,
    tfs: Seq<TopicFilterModel>,
    subscription_identifier: Option<u32>,
    store: Seq<(Seq<char>, PublishModel)>,
    i: int,
)
    requires
        0 <= i < tfs.len(),
        spec_parse_topic_filter(tfs[i].filter) is Ok,
        forall|j: int| i < j < tfs.len() ==> (#[trigger] tfs[j]).filter != tfs[i].filter,
    ensures
        ({
            let subs = subscribe_all(st, tfs, subscription_identifier, store).subscriptions;
            let tf = tfs[i];
            &&& subs.contains_key(tf.filter)
            &&& subs[tf.filter].topic_filter == spec_parse_topic_filter(tf.filter)->Ok_0
            &&& subs[tf.filter].maximum_qos == tf.maximum_qos
            &&& subs[tf.filter].retain_as_published == tf.retain_as_published
            &&& subs[tf.filter].subscription_identifier == subscription_identifier
        }),
    decreases tfs.len(),
{
    let d = tfs.drop_last();
    if i < tfs.len() - 1 {
        assert(d[i] == tfs[i]);
        assert forall|j: int| i < j < d.len() implies (#[trigger] d[j]).filter != d[i].filter by {
            assert(d[j] == tfs[j]);
        }
        lemma_subscribe_records_options(st, d, subscription_identifier, store, i);
        assert(tfs[tfs.len() - 1].filter != tfs[i].filter);
    }
}

/// After an UNSUBSCRIBE, none of its topic filters is subscribed, the other subscriptions
/// are kept, and the UNSUBACK has one reason per topic filter.
pub proof fn lemma_unsubscribe_removes_all(
    subs: Map<Seq<char>, ClientSubscriptionModel>,
    topics: Seq<Seq<char>>,
)
    ensures
        unsubscribe_all(subs, topics).1.len() == topics.len(),
        forall|i: int| 0 <= i < topics.len() ==> !unsubscribe_all(subs, topics).0.contains_key(#[trigger] topics[i]),
        forall|k: Seq<char>| !topics.contains(k) ==> #[trigger] unsubscribe_all(subs, topics).0.contains_key(k)
            == subs.contains_key(k),
        forall|k: Seq<char>| !topics.contains(k) && subs.contains_key(k) ==> #[trigger] unsubscribe_all(
            subs,
            topics,
        ).0[k] == subs[k],
    decreases topics.len(),
{
    if topics.len() > 0 {
        let d = topics.drop_last();
        let t = topics.last();
        lemma_unsubscribe_removes_all(subs, d);
        let m = unsubscribe_all(subs, topics).0;
        let pm = unsubscribe_all(subs, d).0;
        assert(m == if pm.contains_key(t) { pm.remove(t) } else { pm });
        assert forall|i: int| 0 <= i < topics.len() implies !m.contains_key(#[trigger] topics[i]) by {
            if i < d.len() {
                assert(d[i] == topics[i]);
                assert(!pm.contains_key(d[i]));
            }
        }
        assert forall|k: Seq<char>| !topics.contains(k) implies #[trigger] m.contains_key(k) == subs.contains_key(k)
            && (subs.contains_key(k) ==> m[k] == subs[k]) by {
            assert(!d.contains(k)) by {
                if d.contains(k) {
                    let j = choose|j: int| 0 <= j < d.len() && d[j] == k;
                    assert(topics[j] == k);
                }
            }
            assert(t != k) by {
                if t == k {
                    assert(topics[topics.len() - 1] == k);
                }
            }
            assert(pm.contains_key(k) == subs.contains_key(k));
            if subs.contains_key(k) {
                assert(pm[k] == subs[k]);
            }
        }
    }
}

// ---------------------------------------------------------------------------
// The connection
// ---------------------------------------------------------------------------

/// The state of one client across its network connections.
pub struct Connection {
    /// The highest topic alias the connection accepts.
    pub max_topic_alias: u16,
    pub session: MemorySession,
    /// Whether a network connection to the client is open.
    pub connected: bool,
    /// The will of the client, published if it goes away without a normal DISCONNECT.
    pub will: Option<Will>,
    /// The topic aliases of the current network connection.
    pub topic_alias_map: HashMap<u16, String>,
    /// The keep alive of the current network connection, in seconds.
    pub keep_alive_secs: u16,
}

/// What the caller does after a CONNECT has been taken over.
#[derive(Debug)]
pub struct ConnectAction {
    /// Whether another network connection of the client was open: it is sent a DISCONNECT
    /// with reason Session Taken Over (see `take_over_disconnect`) and closed.
    pub take_over: bool,
    /// The CONNACK to send on the new network connection.
    pub connack: ConnAck,
}

/// What the caller does after a packet from the client.
#[derive(Debug)]
pub enum PacketAction {
    /// Close the network connection.
    Close,
    /// Send these packets, in order.
    Send(Vec<MqttPacket>),
    /// Send `disconnect`, then close the network connection with an error of `message`.
    RefusePublish { disconnect: Disconnect, message: String },
    /// Forward `publish` to the subscribers and send `puback` if there is one, then fail
    /// with the error of `retained`, if any: the outcome of keeping or dropping the
    /// retained message of its topic.
    ForwardPublish { publish: Publish, puback: Option<PubAck>, retained: Result<(), HandlePublishError> },
    /// The store of retained messages failed while a SUBSCRIBE asked it for them.
    SubscribeFailed(HandleSubscribeError),
}

/// The DISCONNECT sent to a network connection that another one takes over.
pub fn take_over_disconnect() -> (d: Disconnect)
    ensures
        d.deep_view() == bare_disconnect(DisconnectReason::SessionTakenOver),
{
    Disconnect {
        disconnect_reason: DisconnectReason::SessionTakenOver,
        server_reference: None,
        session_expiry_interval: None,
        user_properties: None,
        reason_string: None,
    }
}

/// Whether the connection handles a packet from a client: the packets a client sends that
/// the broker implements (CONNECT, PUBLISH at QoS 0 or 1, SUBSCRIBE without shared
/// subscriptions, UNSUBSCRIBE, PINGREQ and DISCONNECT).
pub open spec fn packet_handled(c: Connection, p: MqttPacketModel) -> bool {
    match p {
        MqttPacketModel::Connect(_) => true,
        MqttPacketModel::PingReq => true,
        MqttPacketModel::Disconnect(_) => true,
        MqttPacketModel::Publish(x) => resolved_topic(
            c.max_topic_alias,
            alias_names(c.topic_alias_map@),
            x,
        ) is Some ==> qos_handled(x),
        MqttPacketModel::Subscribe(x) => forall|i: int|
            0 <= i < x.topic_filters.len() ==> !is_shared(#[trigger] x.topic_filters[i].filter),
        MqttPacketModel::Unsubscribe(_) => true,
        _ => false,
    }
}

impl Connection {
    /// The session holds its invariant.
    pub open spec fn conn_wf(&self) -> bool {
        self.session.wf()
    }

    /// The state of a client that is not connected yet.
    pub fn new(session: MemorySession, max_topic_alias: u16) -> (c: Self)
        ensures
            c.session == session,
            c.max_topic_alias == max_topic_alias,
            !c.connected,
            c.will is None,
            c.topic_alias_map@ == Map::<u16, String>::empty(),
            c.keep_alive_secs == 0,
    {
        Connection {
            max_topic_alias,
            session,
            connected: false,
            will: None,
            topic_alias_map: HashMap::new(),
            keep_alive_secs: 0,
        }
    }

    /// A CONNECT of the client, on a new network connection: it replaces the will, clears
    /// the topic aliases (they last for one network connection), sets the keep
    /// alive, discards the session's contents on a clean start and keeps them otherwise,
    /// marks the session active, and answers with a CONNACK.
    pub fn on_connect(&mut self, client_identifier: ClientIdentifier, connect: Connect) -> (res: ConnectAction)
        requires
            old(self).conn_wf(),
        ensures
            final(self).conn_wf(),
            res.take_over == old(self).connected,
            res.connack.deep_view() == spec_connack(
                connect.clean_start,
                assigned_id(client_identifier),
                spec_server_keep_alive(connect.keep_alive),
            ),
            final(self).connected,
            final(self).will == connect.will,
            final(self).topic_alias_map@ == Map::<u16, String>::empty(),
            final(self).keep_alive_secs == match spec_server_keep_alive(connect.keep_alive) {
                Some(k) => k,
                None => connect.keep_alive,
            },
            connect.clean_start ==> final(self).session.view() == (SessionModel {
                end_timestamp: None,
                subscriptions: Map::empty(),
                unsent_atleastonce: Map::empty(),
                unacked_atleastonce: Map::empty(),
            }),
            !connect.clean_start ==> final(self).session.view() == (SessionModel {
                end_timestamp: None,
                ..old(self).session.view()
            }) && final(self).session.subscription_order() == old(self).session.subscription_order(),
            final(self).max_topic_alias == old(self).max_topic_alias,
    {
        let take_over = self.connected;
        let keep = server_keep_alive(connect.keep_alive);
        self.keep_alive_secs = match keep {
            Some(k) => k,
            None => connect.keep_alive,
        };
        self.topic_alias_map.clear();
        if connect.clean_start {
            let _ = self.session.clear();
        } else {
            let _ = self.session.set_endtimestamp(None);
        }
        let connack = connack_for(connect.clean_start, client_identifier, keep);
        self.will = connect.will;
        self.connected = true;
        ConnectAction { take_over, connack }
    }

    /// The end of the client's stream without a DISCONNECT: the network connection is gone,
    /// and the will, if any, is due after its Will Delay Interval (in seconds; none means
    /// right away).
    pub fn on_stream_end(&mut self) -> (res: Option<u32>)
        ensures
            !final(self).connected,
            res == match old(self).will {
                Some(w) => Some(
                    match w.delay_interval {
                        Some(e) => e,
                        None => 0u32,
                    },
                ),
                None => None::<u32>,
            },
            final(self).will == old(self).will,
            final(self).session == old(self).session,
            final(self).max_topic_alias == old(self).max_topic_alias,
            final(self).topic_alias_map == old(self).topic_alias_map,
    {
        self.connected = false;
        match &self.will {
            Some(w) => Some(
                match w.delay_interval {
                    Some(e) => e,
                    None => 0,
                },
            ),
            None => None,
        }
    }

    /// The will timer: while the client is away and has a will, the will is published once.
    pub fn on_will_timeout(&mut self) -> (res: Option<Publish>)
        ensures
            !old(self).connected && old(self).will is Some ==> (res matches Some(p) && p.deep_view()
                == spec_will_publish(old(self).will->0.deep_view())) && final(self).will is None,
            !(!old(self).connected && old(self).will is Some) ==> res is None && final(self).will
                == old(self).will,
            final(self).connected == old(self).connected,
            final(self).session == old(self).session,
            final(self).max_topic_alias == old(self).max_topic_alias,
    {
        if !self.connected && self.will.is_some() {
            match self.will.take() {
                Some(w) => Some(will_publish(w)),
                None => None,
            }
        } else {
            None
        }
    }

    /// A message that a subscription forwards to the client. While no network connection is
    /// open, a QoS 1 message is kept in the session to be sent when the client is back and
    /// any other message is dropped; while one is open, the message is handed back to be
    /// sent.
    pub fn on_forward(&mut self, publish: Publish) -> (res: Option<Publish>)
        requires
            old(self).conn_wf(),
            publish.qos == QoS::AtLeastOnce ==> publish.packet_identifier is Some,
        ensures
            final(self).conn_wf(),
            final(self).connected == old(self).connected,
            final(self).will == old(self).will,
            final(self).topic_alias_map == old(self).topic_alias_map,
            final(self).max_topic_alias == old(self).max_topic_alias,
            final(self).keep_alive_secs == old(self).keep_alive_secs,
            final(self).session.subscription_order() == old(self).session.subscription_order(),
            old(self).connected ==> res == Some(publish) && final(self).session.view() == old(
                self,
            ).session.view(),
            !old(self).connected ==> res is None && final(self).session.view() == (if publish.qos
                == QoS::AtLeastOnce {
                old(self).session.view().with_unsent(publish.packet_identifier->0, publish)
            } else {
                old(self).session.view()
            }),
    {
        if self.connected {
            return Some(publish);
        }
        match (publish.qos, publish.packet_identifier) {
            (QoS::AtLeastOnce, Some(id)) => {
                let _ = self.session.add_unsent_atleastonce(id, publish);
            },
            _ => {},
        }
        None
    }

    /// A forwarded message was sent to the client: one of QoS 1 or 2 now waits for its
    /// PUBACK (see `MemorySession::unacked_atleastonce`); one of QoS 0 changes nothing.
    pub fn on_forward_sent(&mut self, qos: QoS, packet_identifier: Option<u16>) -> (res: Result<(), SessionError>)
        requires
            old(self).conn_wf(),
            qos != QoS::AtMostOnce ==> packet_identifier is Some,
        ensures
            final(self).conn_wf(),
            final(self).connected == old(self).connected,
            final(self).will == old(self).will,
            final(self).topic_alias_map == old(self).topic_alias_map,
            final(self).max_topic_alias == old(self).max_topic_alias,
            final(self).keep_alive_secs == old(self).keep_alive_secs,
            final(self).session.subscription_order() == old(self).session.subscription_order(),
            qos == QoS::AtMostOnce ==> res is Ok && final(self).session.view() == old(self).session.view(),
            qos != QoS::AtMostOnce ==> {
                let id = packet_identifier->0;
                &&& (res is Ok <==> old(self).session.view().unsent_atleastonce.contains_key(id))
                &&& (res is Ok ==> final(self).session.view() == old(self).session.view().sent(id))
                &&& (res is Err ==> res == Err::<(), SessionError>(SessionError::AtLeastOnceError)
                    && final(self).session.view() == old(self).session.view())
            },
    {
        match (qos, packet_identifier) {
            (QoS::AtMostOnce, _) => Ok(()),
            (_, Some(id)) => self.session.unacked_atleastonce(id),
            (_, None) => {
                assert(false);
                Ok(())
            },
        }
    }

    /// A packet from the client; `store` holds the retained messages.
    pub fn on_packet<S: ClusterStore>(&mut self, store: &mut S, packet: MqttPacket) -> (res: PacketAction)
        requires
            old(self).conn_wf(),
            old(store).store_wf(),
            old(self).connected,
            packet_handled(*old(self), packet.deep_view()),
        ensures
            final(self).conn_wf(),
            final(store).store_wf(),
            !(packet is Publish) ==> final(store).retained_entries() == old(store).retained_entries(),
            final(self).keep_alive_secs == old(self).keep_alive_secs,
            final(self).max_topic_alias == old(self).max_topic_alias,
            match packet {
                // A second CONNECT is a protocol error: the connection is closed.
                MqttPacket::Connect(_) => {
                    &&& res is Close
                    &&& !final(self).connected
                    &&& final(self).will == old(self).will
                    &&& final(self).session == old(self).session
                    &&& final(self).topic_alias_map == old(self).topic_alias_map
                },
                MqttPacket::PingReq => {
                    &&& res matches PacketAction::Send(v) && v.deep_view() == seq![MqttPacketModel::PingResp]
                    &&& *final(self) == *old(self)
                },
                // A DISCONNECT ends the topic aliases; a normal one discards the will.
                MqttPacket::Disconnect(d) => {
                    &&& res is Close
                    &&& !final(self).connected
                    &&& final(self).topic_alias_map@ == Map::<u16, String>::empty()
                    &&& (d.disconnect_reason == DisconnectReason::NormalDisconnection
                        ==> final(self).will is None)
                    &&& (d.disconnect_reason != DisconnectReason::NormalDisconnection
                        ==> final(self).will == old(self).will)
                    &&& final(self).session == old(self).session
                },
                MqttPacket::Publish(x) => {
                    let max = old(self).max_topic_alias;
                    let before = alias_names(old(self).topic_alias_map@);
                    let p = x.deep_view();
                    &&& final(self).session == old(self).session
                    &&& final(self).will == old(self).will
                    &&& match res {
                        PacketAction::RefusePublish { disconnect, message } => {
                            &&& resolved_topic(max, before, p) is None
                            &&& disconnect.deep_view() == bare_disconnect(refusal_reason(max, p))
                            &&& message@ == refusal_message(max, p)
                            &&& !final(self).connected
                            &&& alias_names(final(self).topic_alias_map@) == before
                            &&& final(store).retained_entries() == old(store).retained_entries()
                        },
                        PacketAction::ForwardPublish { publish: f, puback, retained } => {
                            &&& resolved_topic(max, before, p) == Some(f.topic_name@)
                            &&& f.deep_view() == (PublishModel { topic_name: f.topic_name@, ..p })
                            &&& puback.deep_view() == puback_for(p)
                            &&& final(self).connected
                            &&& alias_names(final(self).topic_alias_map@) == aliases_after(max, before, p)
                            &&& retained is Ok ==> entries_map(final(store).retained_entries()) == retained_after(
                                entries_map(old(store).retained_entries()),
                                f.deep_view(),
                            )
                            &&& !f.retain ==> retained is Ok && final(store).retained_entries() == old(
                                store,
                            ).retained_entries()
                            &&& old(store).answers() ==> retained is Ok
                            &&& retained matches Err(e) ==> e is ClusterStore
                        },
                        _ => false,
                    }
                },
                MqttPacket::Subscribe(x) => {
                    let st = subscribe_all(
                        SubscribeProgress {
                            subscriptions: old(self).session.view().subscriptions,
                            retained: Seq::empty(),
                            reasons: Seq::empty(),
                        },
                        x.topic_filters.deep_view(),
                        x.subscription_identifier,
                        old(store).retained_entries(),
                    );
                    &&& res is Send || res is SubscribeFailed
                    &&& old(store).answers() ==> res is Send
                    &&& res matches PacketAction::Send(v) ==> v.deep_view() == st.retained.map_values(
                        |p: PublishModel| MqttPacketModel::Publish(p),
                    ).push(MqttPacketModel::SubAck(spec_suback(x.packet_identifier, st.reasons)))
                        && final(self).session.view() == (SessionModel {
                        subscriptions: st.subscriptions,
                        ..old(self).session.view()
                    })
                    &&& res matches PacketAction::SubscribeFailed(e) ==> e is ClusterStore
                    &&& res is SubscribeFailed ==> exists|k: int|
                        #[trigger] consulted_at(
                            subscribe_start(old(self).session.view().subscriptions),
                            x.topic_filters.deep_view(),
                            x.subscription_identifier,
                            old(store).retained_entries(),
                            k,
                        ) && final(self).session.view() == (SessionModel {
                            subscriptions: subscribe_all(
                                subscribe_start(old(self).session.view().subscriptions),
                                x.topic_filters.deep_view().take(k + 1),
                                x.subscription_identifier,
                                old(store).retained_entries(),
                            ).subscriptions,
                            ..old(self).session.view()
                        })
                    &&& final(self).connected
                    &&& final(self).will == old(self).will
                    &&& final(self).topic_alias_map == old(self).topic_alias_map
                },
                MqttPacket::Unsubscribe(x) => {
                    let (m, rs) = unsubscribe_all(old(self).session.view().subscriptions, x.topic_filters.deep_view());
                    &&& res matches PacketAction::Send(v) && v.deep_view() == seq![
                        MqttPacketModel::UnsubAck(
                            UnsubAckModel {
                                packet_identifier: x.packet_identifier,
                                reason_string: None,
                                user_properties: None,
                                reasons: rs,
                            },
                        ),
                    ]
                    &&& final(self).session.view() == (SessionModel {
                        subscriptions: m,
                        ..old(self).session.view()
                    })
                    &&& final(self).connected
                    &&& final(self).will == old(self).will
                    &&& final(self).topic_alias_map == old(self).topic_alias_map
                },
                _ => false,
            },
    {
        match packet {
            MqttPacket::Connect(_) => {
                self.connected = false;
                PacketAction::Close
            },
            MqttPacket::PingReq => {
                let mut v: Vec<MqttPacket> = Vec::new();
                v.push(MqttPacket::PingResp);
                assert(v.deep_view() =~= seq![MqttPacketModel::PingResp]);
                PacketAction::Send(v)
            },
            MqttPacket::Disconnect(disconnect) => {
                self.topic_alias_map.clear();
                match disconnect.disconnect_reason {
                    DisconnectReason::NormalDisconnection => {
                        self.will = None;
                    },
                    _ => {},
                }
                self.connected = false;
                PacketAction::Close
            },
            MqttPacket::Publish(publish) => {
                match resolve_publish(self.max_topic_alias, &mut self.topic_alias_map, publish) {
                    PublishAction::Refuse { disconnect, message } => {
                        self.connected = false;
                        PacketAction::RefusePublish { disconnect, message }
                    },
                    PublishAction::Forward { publish, puback } => {
                        let kept = clone_publish(&publish);
                        let retained = store_retained_in(store, kept);
                        PacketAction::ForwardPublish { publish, puback, retained }
                    },
                }
            },
            MqttPacket::Subscribe(subscribe) => {
                let ghost x = subscribe.deep_view();
                assert forall|i: int| 0 <= i < subscribe.topic_filters@.len() implies !is_shared(
                    #[trigger] subscribe.topic_filters@[i].filter@,
                ) by {
                    assert(x.topic_filters[i].filter == subscribe.topic_filters@[i].filter@);
                }
                match handle_subscribe(&mut self.session, store, subscribe) {
                    Ok((retained, suback)) => {
                        let ghost rv = retained.deep_view();
                        let mut v: Vec<MqttPacket> = Vec::new();
                        let mut k: usize = 0;
                        while k < retained.len()
                            invariant
                                k <= retained@.len(),
                                rv == retained.deep_view(),
                                v.deep_view() == rv.take(k as int).map_values(
                                    |p: PublishModel| MqttPacketModel::Publish(p),
                                ),
                            decreases retained@.len() - k,
                        {
                            let p = clone_publish(&retained[k]);
                            let ghost prev = v.deep_view();
                            v.push(MqttPacket::Publish(p));
                            assert(v.deep_view() =~= prev.push(MqttPacketModel::Publish(p.deep_view())));
                            assert(rv.take(k + 1) =~= rv.take(k as int).push(rv[k as int]));
                            assert(rv.take(k + 1).map_values(|p: PublishModel| MqttPacketModel::Publish(p))
                                =~= rv.take(k as int).map_values(|p: PublishModel| MqttPacketModel::Publish(p)).push(
                                MqttPacketModel::Publish(rv[k as int]),
                            ));
                            k = k + 1;
                        }
                        assert(rv.take(k as int) =~= rv);
                        let ghost prev = v.deep_view();
                        v.push(MqttPacket::SubAck(suback));
                        assert(v.deep_view() =~= prev.push(MqttPacketModel::SubAck(suback.deep_view())));
                        PacketAction::Send(v)
                    },
                    Err(e) => PacketAction::SubscribeFailed(e),
                }
            },
            MqttPacket::Unsubscribe(unsubscribe) => {
                let unsuback = handle_unsubscribe(&mut self.session, unsubscribe);
                let mut v: Vec<MqttPacket> = Vec::new();
                v.push(MqttPacket::UnsubAck(unsuback));
                assert(v.deep_view() =~= seq![MqttPacketModel::UnsubAck(unsuback.deep_view())]);
                PacketAction::Send(v)
            },
            _ => {
                assert(false);
                PacketAction::Close
            },
        }
    }
}

} // verus!
