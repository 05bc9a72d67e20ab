//! What the broker does with a PUBLISH that a client sends: resolve its topic name
//! through the connection's topic aliases, forward it, acknowledge it at QoS 1, and keep
//! or drop the retained message of its topic.
use vstd::prelude::*;
use std::collections::HashMap;
use crate::broker::decimal::{decimal, decimal_string};
use crate::broker::session::entries_map;
use crate::broker::store::{ClusterStore, ClusterStoreError};
use crate::types::{
    clone_publish, payload_model_is_empty, Disconnect, DisconnectModel, DisconnectReason, PubAck,
    PubAckModel, PubAckReason, Publish, PublishModel, QoS,
};

verus! {

broadcast use vstd::std_specs::hash::group_hash_axioms;

/// Why handling a PUBLISH failed.
#[derive(Debug)]
pub enum HandlePublishError {
    /// The topic alias or topic name of the PUBLISH was not acceptable.
    TopicAlias(String),
    /// The store of retained messages failed.
    ClusterStore(ClusterStoreError),
}

impl From<ClusterStoreError> for HandlePublishError {
    fn from(error: ClusterStoreError) -> (r: Self) {
        HandlePublishError::ClusterStore(error)
    }
}

impl vstd::std_specs::convert::FromSpecImpl<ClusterStoreError> for HandlePublishError {
    open spec fn obeys_from_spec() -> bool {
        true
    }

    open spec fn from_spec(error: ClusterStoreError) -> Self {
        HandlePublishError::ClusterStore(error)
    }
}

/// What to do with an incoming PUBLISH.
#[derive(Debug)]
pub enum PublishAction {
    /// Refuse it: send `disconnect` to the client, then fail with
    /// `HandlePublishError::TopicAlias(message)`.
    Refuse { disconnect: Disconnect, message: String },
    /// Forward `publish` to the subscribers and send `puback` to the client if there is one.
    Forward { publish: Publish, puback: Option<PubAck> },
}

/// The topic names that the aliases of a connection stand for.
pub open spec fn alias_names(m: Map<u16, String>) -> Map<u16, Seq<char>> {
    m.map_values(|s: String| s@)
}

/// Whether a topic alias is one that the server accepts: not 0 and at most `max`.
pub open spec fn alias_in_range(max: u16, a: u16) -> bool {
    a != 0 && a <= max
}

/// The topic name that an incoming PUBLISH stands for, if it can be resolved: its own name,
/// or, when it has none, the name its alias stands for.
pub open spec fn resolved_topic(max: u16, aliases: Map<u16, Seq<char>>, p: PublishModel) -> Option<
    Seq<char>,
> {
    match p.topic_alias {
        Some(a) => if !alias_in_range(max, a) {
            None
        } else if p.topic_name.len() == 0 {
            if aliases.contains_key(a) {
                Some(aliases[a])
            } else {
                None
            }
        } else {
            Some(p.topic_name)
        },
        None => if p.topic_name.len() == 0 {
            None
        } else {
            Some(p.topic_name)
        },
    }
}

/// The aliases after an incoming PUBLISH: one that carries both an acceptable alias and a
/// topic name sets the alias to that name.
pub open spec fn aliases_after(max: u16, aliases: Map<u16, Seq<char>>, p: PublishModel) -> Map<
    u16,
    Seq<char>,
> {
    match p.topic_alias {
        Some(a) => if alias_in_range(max, a) && p.topic_name.len() != 0 {
            aliases.insert(a, p.topic_name)
        } else {
            aliases
        },
        None => aliases,
    }
}

/// The reason of the DISCONNECT that refuses a PUBLISH whose topic cannot be resolved.
pub open spec fn refusal_reason(max: u16, p: PublishModel) -> DisconnectReason {
    match p.topic_alias {
        Some(a) => if !alias_in_range(max, a) {
            DisconnectReason::TopicAliasInvalid
        } else {
            DisconnectReason::ProtocolError
        },
        None => DisconnectReason::ProtocolError,
    }
}

/// The message of the error that refuses a PUBLISH whose topic cannot be resolved.
pub open spec fn refusal_message(max: u16, p: PublishModel) -> Seq<char> {
    match p.topic_alias {
        Some(a) => if !alias_in_range(max, a) {
            "'topic_alias' is or > MAX_TOPIC_ALIAS."@
        } else {
            "Couldn't find the topic name from provided topic alias = "@ + decimal(a as nat)
                + " and no topic name was provided."@
        },
        None => "Neither topic alias nor topic name was provided."@,
    }
}

/// A DISCONNECT with `reason` and nothing else.
pub open spec fn bare_disconnect(reason: DisconnectReason) -> DisconnectModel {
    DisconnectModel {
        disconnect_reason: reason,
        session_expiry_interval: None,
        reason_string: None,
        user_properties: None,
        server_reference: None,
    }
}

/// Whether the broker handles the QoS of a PUBLISH: QoS 0, or QoS 1 with a packet
/// identifier.
pub open spec fn qos_handled(p: PublishModel) -> bool {
    p.qos == QoS::AtMostOnce || (p.qos == QoS::AtLeastOnce && p.packet_identifier is Some)
}

/// The PUBACK that acknowledges a PUBLISH, for QoS 1.
pub open spec fn puback_for(p: PublishModel) -> Option<PubAckModel> {
    if p.qos == QoS::AtLeastOnce {
        Some(
            PubAckModel {
                packet_identifier: p.packet_identifier.unwrap(),
                reason: PubAckReason::Success,
                reason_string: None,
                user_properties: None,
            },
        )
    } else {
        None
    }
}

/// What handling a PUBLISH gives: a refusal when its topic cannot be resolved, with the
/// DISCONNECT and message that go with it and the aliases unchanged; otherwise the message
/// under its resolved topic name, the PUBACK it is owed, and the aliases it sets.
pub open spec fn publish_outcome(
    max: u16,
    before: Map<u16, Seq<char>>,
    p: PublishModel,
    res: PublishAction,
    after: Map<u16, Seq<char>>,
) -> bool {
    match res {
        PublishAction::Refuse { disconnect, message } => {
            &&& resolved_topic(max, before, p) is None
            &&& disconnect.deep_view() == bare_disconnect(refusal_reason(max, p))
            &&& message@ == refusal_message(max, p)
            &&& after == before
        },
        PublishAction::Forward { publish: f, puback } => {
            &&& resolved_topic(max, before, p) == Some(f.topic_name@)
            &&& f.deep_view() == (PublishModel { topic_name: f.topic_name@, ..p })
            &&& puback.deep_view() == puback_for(p)
            &&& after == aliases_after(max, before, p)
        },
    }
}

/// Decides what to do with `publish`, and updates the topic aliases of the connection.
pub fn resolve_publish(max_topic_alias: u16, topic_alias_map: &mut HashMap<u16, String>, publish: Publish) -> (res:
    PublishAction)
    requires
        resolved_topic(max_topic_alias, alias_names(old(topic_alias_map)@), publish.deep_view())
            is Some ==> qos_handled(publish.deep_view()),
    ensures
        ({
            let before = alias_names(old(topic_alias_map)@);
            publish_outcome(max_topic_alias, before, publish.deep_view(), res, alias_names(final(topic_alias_map)@))
        }),
{
    let ghost before = alias_names(topic_alias_map@);
    let topic_name: String = match publish.topic_alias {
        Some(topic_alias) => {
            if topic_alias == 0 || topic_alias > max_topic_alias {
                proof {
                    reveal_strlit("'topic_alias' is or > MAX_TOPIC_ALIAS.");
                }
                return PublishAction::Refuse {
                    disconnect: make_disconnect(DisconnectReason::TopicAliasInvalid),
                    message: "'topic_alias' is or > MAX_TOPIC_ALIAS.".to_owned(),
                };
            } else if publish.topic_name.as_str().is_empty() {
                match topic_alias_map.get(&topic_alias) {
                    Some(name) => name.clone(),
                    None => {
                        let mut message = "Couldn't find the topic name from provided topic alias = ".to_owned();
                        message.append(decimal_string(topic_alias as u128).as_str());
                        message.append(" and no topic name was provided.");
                        proof {
                            reveal_strlit("Couldn't find the topic name from provided topic alias = ");
                            reveal_strlit(" and no topic name was provided.");
                        }
                        return PublishAction::Refuse {
                            disconnect: make_disconnect(DisconnectReason::ProtocolError),
                            message,
                        };
                    },
                }
            } else {
                topic_alias_map.insert(topic_alias, publish.topic_name.clone());
                proof {
                    assert(alias_names(topic_alias_map@) =~= before.insert(topic_alias, publish.topic_name@));
                }
                publish.topic_name.clone()
            }
        },
        None => {
            if publish.topic_name.as_str().is_empty() {
                proof {
                    reveal_strlit("Neither topic alias nor topic name was provided.");
                }
                return PublishAction::Refuse {
                    disconnect: make_disconnect(DisconnectReason::ProtocolError),
                    message: "Neither topic alias nor topic name was provided.".to_owned(),
                };
            }
            publish.topic_name.clone()
        },
    };
    let puback = match publish.qos {
        QoS::AtLeastOnce => {
            let packet_identifier = match publish.packet_identifier {
                Some(id) => id,
                None => {
                    assert(false);
                    0
                },
            };
            Some(
                PubAck {
                    packet_identifier,
                    reason: PubAckReason::Success,
                    reason_string: None,
                    user_properties: None,
                },
            )
        },
        _ => None,
    };
    let forwarded = Publish { topic_name, ..publish };
    PublishAction::Forward { publish: forwarded, puback }
}


/// Whether the topic name of `publish` can be resolved with the aliases of the connection.
pub fn topic_resolves(max_topic_alias: u16, topic_alias_map: &HashMap<u16, String>, publish: &Publish) -> (res: bool)
    ensures
        res == resolved_topic(max_topic_alias, alias_names(topic_alias_map@), publish.deep_view()) is Some,
{
    match publish.topic_alias {
        Some(a) => {
            if a == 0 || a > max_topic_alias {
                false
            } else if publish.topic_name.as_str().is_empty() {
                match topic_alias_map.get(&a) {
                    Some(_) => true,
                    None => false,
                }
            } else {
                true
            }
        },
        None => !publish.topic_name.as_str().is_empty(),
    }
}

/// Handles the PUBLISH packets of one connection.
pub struct PublishHandler<S: ClusterStore> {
    pub broker_store: S,
    pub max_topic_alias: u16,
}

fn make_disconnect(reason: DisconnectReason) -> (d: Disconnect)
    ensures
        d.deep_view() == bare_disconnect(reason),
{
    Disconnect {
        disconnect_reason: reason,
        server_reference: None,
        session_expiry_interval: None,
        user_properties: None,
        reason_string: None,
    }
}

impl<S: ClusterStore> PublishHandler<S> {
    /// A handler that keeps retained messages in `broker_store` and accepts topic aliases up
    /// to `max_topic_alias`.
    pub fn new(broker_store: S, max_topic_alias: u16) -> (h: Self)
        ensures
            h.broker_store == broker_store,
            h.max_topic_alias == max_topic_alias,
    {
        PublishHandler { broker_store, max_topic_alias }
    }

    /// Decides what to do with `publish`, updates the topic aliases of the connection, and,
    /// for a PUBLISH that is forwarded, keeps or drops the retained message of its topic
    /// (see `retained_after`). The result is the action for the caller to carry out, then
    /// the outcome of keeping the retained message: the caller fails with its error, if
    /// any, after the action. A refused PUBLISH, or one that is not retained, does not
    /// touch the store.
    pub fn handle(&mut self, topic_alias_map: &mut HashMap<u16, String>, publish: Publish) -> (res: (
        PublishAction,
        Result<(), HandlePublishError>,
    ))
        requires
            old(self).broker_store.store_wf(),
            resolved_topic(old(self).max_topic_alias, alias_names(old(topic_alias_map)@), publish.deep_view())
                is Some ==> qos_handled(publish.deep_view()),
        ensures
            final(self).broker_store.store_wf(),
            final(self).max_topic_alias == old(self).max_topic_alias,
            old(self).broker_store.answers() ==> res.1 is Ok,
            ({
                let max = old(self).max_topic_alias;
                let before = alias_names(old(topic_alias_map)@);
                let p = publish.deep_view();
                publish_outcome(max, before, p, res.0, alias_names(final(topic_alias_map)@))
            }),
            match res.0 {
                PublishAction::Forward { publish: f, .. } => {
                    &&& res.1 is Ok ==> entries_map(final(self).broker_store.retained_entries())
                        == retained_after(entries_map(old(self).broker_store.retained_entries()), f.deep_view())
                    &&& !f.retain ==> res.1 is Ok && final(self).broker_store.retained_entries() == old(
                        self,
                    ).broker_store.retained_entries()
                    &&& res.1 matches Err(e) ==> e is ClusterStore
                },
                PublishAction::Refuse { .. } => {
                    &&& res.1 is Ok
                    &&& final(self).broker_store.retained_entries() == old(self).broker_store.retained_entries()
                },
            },
    {
        let action = resolve_publish(self.max_topic_alias, topic_alias_map, publish);
        match action {
            PublishAction::Forward { publish, puback } => {
                let kept = clone_publish(&publish);
                let stored = store_retained_in(&mut self.broker_store, kept);
                (PublishAction::Forward { publish, puback }, stored)
            },
            PublishAction::Refuse { disconnect, message } => (PublishAction::Refuse { disconnect, message }, Ok(())),
        }
    }
}

/// The retained messages after a forwarded PUBLISH: a retained one with an empty payload
/// drops the message of its topic, one with a payload replaces it, and one that is not
/// retained changes nothing.
pub open spec fn retained_after(m: Map<Seq<char>, PublishModel>, p: PublishModel) -> Map<Seq<char>, PublishModel> {
    if !p.retain {
        m
    } else if payload_model_is_empty(p.payload) {
        m.remove(p.topic_name)
    } else {
        m.insert(p.topic_name, p)
    }
}

/// Keeps the retained message of a forwarded PUBLISH: a retained PUBLISH with an empty
/// payload drops the retained message of its topic, one with a payload replaces it, and
/// a PUBLISH that is not retained leaves the store as it is (see `retained_after`). The
/// store may fail; the error is then handed on.
pub fn store_retained_in<S: ClusterStore>(store: &mut S, publish: Publish) -> (res: Result<(), HandlePublishError>)
    requires
        old(store).store_wf(),
    ensures
        final(store).store_wf(),
        res is Ok ==> entries_map(final(store).retained_entries()) == retained_after(
            entries_map(old(store).retained_entries()),
            publish.deep_view(),
        ),
        !publish.retain ==> res is Ok && final(store).retained_entries() == old(store).retained_entries(),
        final(store).answers() == old(store).answers(),
        old(store).answers() ==> res is Ok,
        res matches Err(e) ==> e is ClusterStore,
{
    let retain = publish.retain;
    let payload_is_empty = publish.payload.is_empty();
    if retain && payload_is_empty {
        match store.remove_retained(publish.topic_name.as_str()) {
            Ok(()) => Ok(()),
            Err(e) => Err(HandlePublishError::ClusterStore(e)),
        }
    } else if retain {
        let topic_name = publish.topic_name.clone();
        match store.replace_retained(topic_name.as_str(), publish) {
            Ok(()) => Ok(()),
            Err(e) => Err(HandlePublishError::ClusterStore(e)),
        }
    } else {
        Ok(())
    }
}

/// A PUBLISH that carries an acceptable topic alias and a topic name sets the alias: a later
/// PUBLISH on the same connection with that alias and no topic name stands for that name.
pub proof fn lemma_alias_remembered(
    max: u16,
    aliases: Map<u16, Seq<char>>,
    first: PublishModel,
    later: PublishModel,
)
    requires
        first.topic_alias is Some,
        alias_in_range(max, first.topic_alias->0),
        first.topic_name.len() != 0,
        later.topic_alias == first.topic_alias,
        later.topic_name.len() == 0,
    ensures
        resolved_topic(max, aliases_after(max, aliases, first), later) == Some(first.topic_name),
{
}

/// A PUBLISH that is forwarded goes on as the publisher wrote it, under the topic name it
/// resolves to: the same QoS, flags, packet identifier, payload, expiry, content type,
/// response topic, correlation data and user properties. At QoS 1 it is acknowledged
/// with a PUBACK that carries its packet identifier and reason Success; at QoS 0 it is
/// not acknowledged.
pub proof fn lemma_forwarded_publish_is_the_message(
    max: u16,
    before: Map<u16, Seq<char>>,
    p: PublishModel,
    res: PublishAction,
    after: Map<u16, Seq<char>>,
)
    requires
        publish_outcome(max, before, p, res, after),
        qos_handled(p),
        res is Forward,
    ensures
        ({
            let f = res->Forward_publish.deep_view();
            let puback = res->Forward_puback;
            &&& Some(f.topic_name) == resolved_topic(max, before, p)
            &&& f.qos == p.qos
            &&& f.retain == p.retain
            &&& f.duplicate == p.duplicate
            &&& f.packet_identifier == p.packet_identifier
            &&& f.payload == p.payload
            &&& f.message_expiry_interval == p.message_expiry_interval
            &&& f.content_type == p.content_type
            &&& f.response_topic == p.response_topic
            &&& f.correlation_data == p.correlation_data
            &&& f.user_properties == p.user_properties
            &&& (p.qos == QoS::AtLeastOnce ==> (puback matches Some(a) && Some(a.packet_identifier)
                == p.packet_identifier && a.reason == PubAckReason::Success && a.reason_string is None
                && a.user_properties is None))
            &&& (p.qos == QoS::AtMostOnce ==> puback is None)
        }),
{
}

/// After a forwarded PUBLISH, a retained one with an empty payload leaves no retained
/// message for its topic, a retained one with a payload is the retained message of its
/// topic, one that is not retained changes nothing; the other topics keep theirs.
pub proof fn lemma_retained_after_topics(m: Map<Seq<char>, PublishModel>, p: PublishModel)
    ensures
        !p.retain ==> retained_after(m, p) == m,
        p.retain && payload_model_is_empty(p.payload) ==> !retained_after(m, p).contains_key(p.topic_name),
        p.retain && !payload_model_is_empty(p.payload) ==> retained_after(m, p).contains_key(p.topic_name)
            && retained_after(m, p)[p.topic_name] == p,
        forall|k: Seq<char>|
            k != p.topic_name ==> (#[trigger] retained_after(m, p).contains_key(k) == m.contains_key(k)
                && (m.contains_key(k) ==> retained_after(m, p)[k] == m[k])),
{
}

} // verus!
