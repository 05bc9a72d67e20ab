//! The state the broker keeps for a client across connections: its subscriptions, the QoS 1
//! messages that wait to be sent or acknowledged, and when the session ends.
use vstd::prelude::*;
use std::collections::HashMap;
use std::sync::Arc;
use crate::topic_filter::{SegmentModel, TopicFilter};
use crate::types::{Publish, QoS};

verus! {

broadcast use vstd::std_specs::hash::group_hash_axioms;

/// A point in time: milliseconds since the Unix epoch, in UTC.
pub type UtcMillis = i64;

/// Why a session operation failed.
#[derive(Debug, Clone, Copy, PartialEq, Eq, Structural)]
pub enum SessionError {
    /// A session for the client identifier is held by a live connection.
    SessionAlreadyActive,
    /// A QoS 1 message with the given packet identifier is not where it should be.
    AtLeastOnceError,
}

impl SessionError {
    /// The name of the error.
    pub fn message(&self) -> (res: String)
        ensures
            res@ == session_error_message(*self),
    {
        match self {
            SessionError::SessionAlreadyActive => "SessionAlreadyActive".to_owned(),
            SessionError::AtLeastOnceError => "AtLeastOnceError".to_owned(),
        }
    }
}

pub open spec fn session_error_message(e: SessionError) -> Seq<char> {
    match e {
        SessionError::SessionAlreadyActive => "SessionAlreadyActive"@,
        SessionError::AtLeastOnceError => "AtLeastOnceError"@,
    }
}

/// A subscription of a client: the parsed filter and the options it subscribed with.
#[derive(Debug, Clone)]
pub struct ClientSubscription {
    pub topic_filter: TopicFilter,
    pub subscription_identifier: Option<u32>,
    pub maximum_qos: QoS,
    pub retain_as_published: bool,
}

pub struct ClientSubscriptionModel {
    pub topic_filter: Seq<SegmentModel>,
    pub subscription_identifier: Option<u32>,
    pub maximum_qos: QoS,
    pub retain_as_published: bool,
}

impl DeepView for ClientSubscription {
    type V = ClientSubscriptionModel;

    open spec fn deep_view(&self) -> ClientSubscriptionModel {
        ClientSubscriptionModel {
            topic_filter: self.topic_filter.deep_view(),
            subscription_identifier: self.subscription_identifier,
            maximum_qos: self.maximum_qos,
            retain_as_published: self.retain_as_published,
        }
    }
}

/// Whether adding a subscription created it or replaced one with the same filter.
#[derive(Debug, Clone, Copy, PartialEq, Eq, Structural)]
pub enum AddSubscriptionResult {
    New,
    Replaced,
}

// ---------------------------------------------------------------------------
// Keyed entries
// ---------------------------------------------------------------------------

/// The map that a list of keyed entries stands for, later entries winning.
pub open spec fn entries_map<V>(s: Seq<(Seq<char>, V)>) -> Map<Seq<char>, V>
    decreases s.len(),
{
    if s.len() == 0 {
        Map::empty()
    } else {
        entries_map(s.drop_last()).insert(s.last().0, s.last().1)
    }
}

/// No key occurs twice in the list.
pub open spec fn distinct_keys<V>(s: Seq<(Seq<char>, V)>) -> bool {
    forall|i: int, j: int| 0 <= i < s.len() && 0 <= j < s.len() && i != j ==> s[i].0 != s[j].0
}

pub proof fn lemma_entries_dom<V>(s: Seq<(Seq<char>, V)>, k: Seq<char>)
    ensures
        entries_map(s).contains_key(k) <==> exists|i: int| 0 <= i < s.len() && #[trigger] s[i].0 == k,
    decreases s.len(),
{
    if s.len() > 0 {
        lemma_entries_dom(s.drop_last(), k);
        if entries_map(s.drop_last()).contains_key(k) {
            let i = choose|i: int| 0 <= i < s.drop_last().len() && #[trigger] s.drop_last()[i].0 == k;
            assert(s[i].0 == k);
        }
        if exists|i: int| 0 <= i < s.len() && #[trigger] s[i].0 == k {
            let i = choose|i: int| 0 <= i < s.len() && #[trigger] s[i].0 == k;
            if i < s.len() - 1 {
                assert(s.drop_last()[i].0 == k);
            }
        }
    }
}

pub proof fn lemma_entries_at<V>(s: Seq<(Seq<char>, V)>, i: int)
    requires
        distinct_keys(s),
        0 <= i < s.len(),
    ensures
        entries_map(s).contains_key(s[i].0),
        entries_map(s)[s[i].0] == s[i].1,
    decreases s.len(),
{
    if i < s.len() - 1 {
        assert(s.drop_last()[i] == s[i]);
        lemma_entries_at(s.drop_last(), i);
    }
}

pub proof fn lemma_entries_update<V>(s: Seq<(Seq<char>, V)>, i: int, v: V)
    requires
        distinct_keys(s),
        0 <= i < s.len(),
    ensures
        distinct_keys(s.update(i, (s[i].0, v))),
        entries_map(s.update(i, (s[i].0, v))) == entries_map(s).insert(s[i].0, v),
    decreases s.len(),
{
    let k = s[i].0;
    let t = s.update(i, (k, v));
    assert(distinct_keys(t)) by {
        assert forall|a: int, b: int| 0 <= a < t.len() && 0 <= b < t.len() && a != b implies t[a].0 != t[b].0 by {
            assert(t[a].0 == s[a].0 && t[b].0 == s[b].0);
        }
    }
    if i == s.len() - 1 {
        assert(t.drop_last() =~= s.drop_last());
        assert(entries_map(t) =~= entries_map(s).insert(k, v));
    } else {
        let d = s.drop_last();
        assert(distinct_keys(d));
        lemma_entries_update(d, i, v);
        assert(t.drop_last() =~= d.update(i, (k, v)));
        assert(s.last().0 != k);
        assert(entries_map(t) =~= entries_map(s).insert(k, v));
    }
}

pub proof fn lemma_entries_push<V>(s: Seq<(Seq<char>, V)>, k: Seq<char>, v: V)
    requires
        distinct_keys(s),
        !entries_map(s).contains_key(k),
    ensures
        distinct_keys(s.push((k, v))),
        entries_map(s.push((k, v))) == entries_map(s).insert(k, v),
{
    lemma_entries_dom(s, k);
    assert(s.push((k, v)).drop_last() =~= s);
    let t = s.push((k, v));
    assert forall|a: int, b: int| 0 <= a < t.len() && 0 <= b < t.len() && a != b implies t[a].0 != t[b].0 by {
        if a < s.len() && b < s.len() {
            assert(t[a] == s[a] && t[b] == s[b]);
        } else if a < s.len() {
            assert(t[a] == s[a]);
        } else if b < s.len() {
            assert(t[b] == s[b]);
        }
    }
}

pub proof fn lemma_entries_remove<V>(s: Seq<(Seq<char>, V)>, i: int)
    requires
        distinct_keys(s),
        0 <= i < s.len(),
    ensures
        distinct_keys(s.remove(i)),
        entries_map(s.remove(i)) == entries_map(s).remove(s[i].0),
    decreases s.len(),
{
    let k = s[i].0;
    let t = s.remove(i);
    assert forall|a: int, b: int| 0 <= a < t.len() && 0 <= b < t.len() && a != b implies t[a].0 != t[b].0 by {
        let a2 = if a < i { a } else { a + 1 };
        let b2 = if b < i { b } else { b + 1 };
        assert(t[a] == s[a2] && t[b] == s[b2]);
    }
    let d = s.drop_last();
    assert(distinct_keys(d));
    if i == s.len() - 1 {
        assert(t =~= d);
        lemma_entries_dom(d, k);
        if exists|j: int| 0 <= j < d.len() && #[trigger] d[j].0 == k {
            let j = choose|j: int| 0 <= j < d.len() && #[trigger] d[j].0 == k;
            assert(s[j].0 == k);
        }
        assert(entries_map(t) =~= entries_map(s).remove(k));
    } else {
        lemma_entries_remove(d, i);
        assert(t.drop_last() =~= d.remove(i));
        assert(t.last() == s.last());
        assert(s.last().0 != k);
        assert(entries_map(t) =~= entries_map(s).remove(k));
    }
}

// ---------------------------------------------------------------------------
// The session
// ---------------------------------------------------------------------------

/// A session held in memory. Each session holds a token that its provider watches to tell
/// whether the session is still in use.
pub struct MemorySession {
    /// This session will be discarded after this timestamp; `None` while it is active.
    end_timestamp: Option<UtcMillis>,
    subscriptions: Vec<(String, ClientSubscription)>,
    unsent_atleastonce: HashMap<u16, Publish>,
    unacked_atleastonce: HashMap<u16, Publish>,
    _strong: Arc<()>,
}

/// The contents of a session.
pub struct SessionModel {
    pub end_timestamp: Option<UtcMillis>,
    /// Subscriptions by topic filter.
    pub subscriptions: Map<Seq<char>, ClientSubscriptionModel>,
    /// QoS 1 messages to be sent when the client is back, by packet identifier.
    pub unsent_atleastonce: Map<u16, Publish>,
    /// QoS 1 messages sent and waiting for a PUBACK, by packet identifier.
    pub unacked_atleastonce: Map<u16, Publish>,
}

impl SessionModel {
    /// The session after a subscription for `topic` was added or replaced.
    pub open spec fn with_subscription(self, topic: Seq<char>, s: ClientSubscriptionModel) -> Self {
        SessionModel { subscriptions: self.subscriptions.insert(topic, s), ..self }
    }

    /// The session after the subscription for `topic` was removed.
    pub open spec fn without_subscription(self, topic: Seq<char>) -> Self {
        SessionModel { subscriptions: self.subscriptions.remove(topic), ..self }
    }

    /// The session after a QoS 1 message was kept to be sent later.
    pub open spec fn with_unsent(self, id: u16, p: Publish) -> Self {
        SessionModel { unsent_atleastonce: self.unsent_atleastonce.insert(id, p), ..self }
    }

    /// The session after the unsent message `id` was sent and now waits for its PUBACK.
    pub open spec fn sent(self, id: u16) -> Self {
        SessionModel {
            unsent_atleastonce: self.unsent_atleastonce.remove(id),
            unacked_atleastonce: self.unacked_atleastonce.insert(id, self.unsent_atleastonce[id]),
            ..self
        }
    }

    /// The session after the message `id` was acknowledged.
    pub open spec fn acked(self, id: u16) -> Self {
        SessionModel { unacked_atleastonce: self.unacked_atleastonce.remove(id), ..self }
    }
}

impl MemorySession {
    pub closed spec fn entries(&self) -> Seq<(Seq<char>, ClientSubscriptionModel)> {
        self.subscriptions@.map_values(
            |e: (String, ClientSubscription)| (e.0@, e.1.deep_view()),
        )
    }

    /// The order in which `get_subscriptions` gives the subscriptions.
    pub closed spec fn subscription_order(&self) -> Seq<Seq<char>> {
        self.entries().map_values(|e: (Seq<char>, ClientSubscriptionModel)| e.0)
    }

    /// Each topic filter has at most one subscription.
    pub closed spec fn wf(&self) -> bool {
        distinct_keys(self.entries())
    }

    pub closed spec fn view(&self) -> SessionModel {
        SessionModel {
            end_timestamp: self.end_timestamp,
            subscriptions: entries_map(self.entries()),
            unsent_atleastonce: self.unsent_atleastonce@,
            unacked_atleastonce: self.unacked_atleastonce@,
        }
    }

    /// A fresh session that holds `strong` as its token of use.
    pub fn new(strong: Arc<()>) -> (s: Self)
        ensures
            s.wf(),
            s.view().end_timestamp is None,
            s.view().subscriptions == Map::<Seq<char>, ClientSubscriptionModel>::empty(),
            s.view().unsent_atleastonce == Map::<u16, Publish>::empty(),
            s.view().unacked_atleastonce == Map::<u16, Publish>::empty(),
    {
        let s = MemorySession {
            end_timestamp: None,
            subscriptions: Vec::new(),
            unsent_atleastonce: HashMap::new(),
            unacked_atleastonce: HashMap::new(),
            _strong: strong,
        };
        assert(s.entries() =~= Seq::empty());
        s
    }

    /// Discards what the session holds, its subscriptions and its queued messages, and marks
    /// it as active: the state of a session that starts anew.
    pub fn clear(&mut self) -> (res: Result<(), SessionError>)
        requires
            old(self).wf(),
        ensures
            final(self).wf(),
            final(self).subscription_order() == Seq::<Seq<char>>::empty(),
            res is Ok,
            final(self).view() == (SessionModel {
                end_timestamp: None,
                subscriptions: Map::empty(),
                unsent_atleastonce: Map::empty(),
                unacked_atleastonce: Map::empty(),
            }),
    {
        self.end_timestamp = None;
        self.subscriptions = Vec::new();
        self.unsent_atleastonce = HashMap::new();
        self.unacked_atleastonce = HashMap::new();
        proof {
            assert(self.entries() =~= Seq::empty());
            assert(self.subscription_order() =~= Seq::empty());
            assert(self.view().subscriptions =~= Map::empty());
        }
        Ok(())
    }

    /// Sets when the session ends (`None`: it does not while it is active).
    pub fn set_endtimestamp(&mut self, timestamp: Option<UtcMillis>) -> (res: Result<(), SessionError>)
        requires
            old(self).wf(),
        ensures
            final(self).wf(),
            final(self).subscription_order() == old(self).subscription_order(),
            res is Ok,
            final(self).view() == (SessionModel { end_timestamp: timestamp, ..old(self).view() }),
    {
        self.end_timestamp = timestamp;
        Ok(())
    }

    /// When the session ends, if it is set.
    pub fn get_endtimestamp(&self) -> (res: Result<Option<&UtcMillis>, SessionError>)
        requires
            self.wf(),
        ensures
            res matches Ok(t) && match t {
                Some(d) => self.view().end_timestamp == Some(*d),
                None => self.view().end_timestamp is None,
            },
    {
        match &self.end_timestamp {
            Some(d) => Ok(Some(d)),
            None => Ok(None),
        }
    }

    fn find_subscription(&self, topic: &String) -> (res: Option<usize>)
        requires
            self.wf(),
        ensures
            match res {
                Some(i) => i < self.entries().len() && self.entries()[i as int].0 == topic@,
                None => !self.view().subscriptions.contains_key(topic@),
            },
    {
        let mut i: usize = 0;
        while i < self.subscriptions.len()
            invariant
                i <= self.subscriptions@.len(),
                self.entries().len() == self.subscriptions@.len(),
                forall|j: int| 0 <= j < i ==> #[trigger] self.entries()[j].0 != topic@,
            decreases self.subscriptions@.len() - i,
        {
            assert(self.entries()[i as int].0 == self.subscriptions@[i as int].0@);
            if self.subscriptions[i].0 == *topic {
                return Some(i);
            }
            i = i + 1;
        }
        proof {
            lemma_entries_dom(self.entries(), topic@);
        }
        None
    }

    /// Adds a subscription for `topic`, replacing the one with the same filter if there is one.
    pub fn add_subscription(&mut self, topic: String, client_subscription: ClientSubscription) -> (res: Result<
        AddSubscriptionResult,
        SessionError,
    >)
        requires
            old(self).wf(),
        ensures
            final(self).wf(),
            res matches Ok(r) && (r == AddSubscriptionResult::Replaced
                <==> old(self).view().subscriptions.contains_key(topic@)),
            final(self).view() == old(self).view().with_subscription(topic@, client_subscription.deep_view()),
    {
        let ghost before = self.entries();
        match self.find_subscription(&topic) {
            Some(i) => {
                proof {
                    lemma_entries_at(before, i as int);
                    lemma_entries_update(before, i as int, client_subscription.deep_view());
                }
                let ghost cs = client_subscription.deep_view();
                self.subscriptions.set(i, (topic, client_subscription));
                assert(self.entries() =~= before.update(i as int, (before[i as int].0, cs)));
                Ok(AddSubscriptionResult::Replaced)
            },
            None => {
                proof {
                    lemma_entries_push(before, topic@, client_subscription.deep_view());
                }
                let ghost kv = (topic@, client_subscription.deep_view());
                self.subscriptions.push((topic, client_subscription));
                assert(self.entries() =~= before.push(kv));
                Ok(AddSubscriptionResult::New)
            },
        }
    }

    /// Removes the subscription for `topic`; `Some` when there was one.
    pub fn remove_subscription(&mut self, topic: String) -> (res: Result<Option<()>, SessionError>)
        requires
            old(self).wf(),
        ensures
            final(self).wf(),
            res matches Ok(r) && (r is Some <==> old(self).view().subscriptions.contains_key(topic@)),
            final(self).view() == old(self).view().without_subscription(topic@),
    {
        let ghost before = self.entries();
        match self.find_subscription(&topic) {
            Some(i) => {
                proof {
                    lemma_entries_at(before, i as int);
                    lemma_entries_remove(before, i as int);
                }
                let _removed = self.subscriptions.remove(i);
                assert(self.entries() =~= before.remove(i as int));
                Ok(Some(()))
            },
            None => {
                assert(old(self).view().subscriptions.remove(topic@) =~= old(self).view().subscriptions);
                Ok(None)
            },
        }
    }

    /// The subscriptions of the session, one per topic filter.
    pub fn get_subscriptions(&self) -> (res: Result<Vec<&ClientSubscription>, SessionError>)
        requires
            self.wf(),
        ensures
            res matches Ok(v) && {
                &&& v@.len() == self.subscription_order().len()
                &&& forall|i: int| 0 <= i < v@.len() ==> (#[trigger] v@[i]).deep_view()
                    == self.view().subscriptions[self.subscription_order()[i]]
                &&& forall|i: int, j: int| 0 <= i < j < v@.len() ==> self.subscription_order()[i]
                    != self.subscription_order()[j]
                &&& forall|k: Seq<char>| self.view().subscriptions.contains_key(k)
                    <==> self.subscription_order().contains(k)
            },
    {
        let mut v: Vec<&ClientSubscription> = Vec::new();
        let mut i: usize = 0;
        while i < self.subscriptions.len()
            invariant
                i <= self.subscriptions@.len(),
                v@.len() == i,
                distinct_keys(self.entries()),
                forall|j: int| 0 <= j < i ==> (#[trigger] v@[j]).deep_view() == self.entries()[j].1,
            decreases self.subscriptions@.len() - i,
        {
            v.push(&self.subscriptions[i].1);
            i = i + 1;
        }
        proof {
            let e = self.entries();
            assert forall|j: int| 0 <= j < v@.len() implies (#[trigger] v@[j]).deep_view()
                == self.view().subscriptions[self.subscription_order()[j]] by {
                lemma_entries_at(e, j);
            }
            assert forall|k: Seq<char>| self.view().subscriptions.contains_key(k)
                <==> self.subscription_order().contains(k) by {
                lemma_entries_dom(e, k);
                if self.subscription_order().contains(k) {
                    let j = choose|j: int| 0 <= j < self.subscription_order().len() && self.subscription_order()[j] == k;
                    assert(e[j].0 == k);
                }
                if exists|j: int| 0 <= j < e.len() && #[trigger] e[j].0 == k {
                    let j = choose|j: int| 0 <= j < e.len() && #[trigger] e[j].0 == k;
                    assert(self.subscription_order()[j] == k);
                }
            }
        }
        Ok(v)
    }

    /// Keeps a QoS 1 message to be sent when the client is back.
    pub fn add_unsent_atleastonce(&mut self, packet_identifier: u16, publish: Publish) -> (res: Result<
        (),
        SessionError,
    >)
        requires
            old(self).wf(),
        ensures
            final(self).wf(),
            final(self).subscription_order() == old(self).subscription_order(),
            res is Ok,
            final(self).view() == old(self).view().with_unsent(packet_identifier, publish),
    {
        self.unsent_atleastonce.insert(packet_identifier, publish);
        Ok(())
    }

    /// Moves the unsent message `packet_identifier` to those waiting for a PUBACK; an error
    /// when there is no such unsent message.
    pub fn unacked_atleastonce(&mut self, packet_identifier: u16) -> (res: Result<(), SessionError>)
        requires
            old(self).wf(),
        ensures
            final(self).wf(),
            final(self).subscription_order() == old(self).subscription_order(),
            res is Ok <==> old(self).view().unsent_atleastonce.contains_key(packet_identifier),
            res is Ok ==> final(self).view() == old(self).view().sent(packet_identifier),
            res is Err ==> res == Err::<(), SessionError>(SessionError::AtLeastOnceError)
                && final(self).view() == old(self).view(),
    {
        match self.unsent_atleastonce.remove(&packet_identifier) {
            Some(publish) => {
                self.unacked_atleastonce.insert(packet_identifier, publish);
                Ok(())
            },
            None => {
                assert(self.unsent_atleastonce@ =~= old(self).unsent_atleastonce@);
                Err(SessionError::AtLeastOnceError)
            },
        }
    }

    /// Drops the message `packet_identifier` that waited for a PUBACK; an error when there is
    /// no such message.
    pub fn ack_atleastonce(&mut self, packet_identifier: u16) -> (res: Result<(), SessionError>)
        requires
            old(self).wf(),
        ensures
            final(self).wf(),
            final(self).subscription_order() == old(self).subscription_order(),
            res is Ok <==> old(self).view().unacked_atleastonce.contains_key(packet_identifier),
            res is Ok ==> final(self).view() == old(self).view().acked(packet_identifier),
            res is Err ==> res == Err::<(), SessionError>(SessionError::AtLeastOnceError)
                && final(self).view() == old(self).view(),
    {
        match self.unacked_atleastonce.remove(&packet_identifier) {
            Some(_) => Ok(()),
            None => {
                assert(self.unacked_atleastonce@ =~= old(self).unacked_atleastonce@);
                Err(SessionError::AtLeastOnceError)
            },
        }
    }
}

/// A QoS 1 message kept for a client goes, once sent, to those waiting for a PUBACK, and
/// leaves the session once acknowledged: a second acknowledgement of it then fails.
pub proof fn lemma_atleastonce_lifecycle(m: SessionModel, id: u16, p: Publish)
    ensures
        ({
            let kept = m.with_unsent(id, p);
            let sent = kept.sent(id);
            let acked = sent.acked(id);
            &&& kept.unsent_atleastonce.contains_key(id)
            &&& !sent.unsent_atleastonce.contains_key(id)
            &&& sent.unacked_atleastonce.contains_key(id)
            &&& sent.unacked_atleastonce[id] == p
            &&& !acked.unacked_atleastonce.contains_key(id)
            &&& acked.unsent_atleastonce == m.unsent_atleastonce.remove(id)
            &&& acked.unacked_atleastonce == m.unacked_atleastonce.remove(id)
            &&& acked.subscriptions == m.subscriptions
        }),
{
    let kept = m.with_unsent(id, p);
    let sent = kept.sent(id);
    let acked = sent.acked(id);
    assert(acked.unsent_atleastonce =~= m.unsent_atleastonce.remove(id));
    assert(acked.unacked_atleastonce =~= m.unacked_atleastonce.remove(id));
}

// ---------------------------------------------------------------------------
// The provider of sessions
// ---------------------------------------------------------------------------

/// How many owners a session token has, the provider's own one included.
///
/// Calls `Arc::strong_count`; the count depends on which sessions are still alive, which
/// the program's run decides, so nothing is promised of it.
#[verifier::external_body]
fn token_holders(token: &Arc<()>) -> usize {
    Arc::strong_count(token)
}

/// Another owner of a session token.
///
/// Calls `Arc::clone`, which gives a new owner of the same allocation.
#[verifier::external_body]
fn share_token(token: &Arc<()>) -> Arc<()> {
    Arc::clone(token)
}

/// Whether the session of a token that has `holders` owners, the provider's own one
/// included, is still in use: a session handed out for it still holds the token.
pub fn session_in_use(holders: usize) -> (in_use: bool)
    ensures
        in_use == (holders > 1),
{
    holders > 1
}

/// Hands out the sessions of clients, one live session per client identifier: a session
/// stays in use while its value is alive.
pub struct MemorySessionProvider {
    sessions: Vec<(String, Arc<()>)>,
}

impl MemorySessionProvider {
    /// The client identifiers that sessions were handed out for.
    pub closed spec fn client_ids(&self) -> Set<Seq<char>> {
        Set::new(|k: Seq<char>| exists|i: int| 0 <= i < self.sessions@.len() && #[trigger] self.sessions@[i].0@ == k)
    }

    /// Each client identifier has one entry.
    pub closed spec fn provider_wf(&self) -> bool {
        forall|i: int, j: int|
            0 <= i < self.sessions@.len() && 0 <= j < self.sessions@.len() && i != j ==> self.sessions@[i].0@
                != self.sessions@[j].0@
    }

    /// A provider that has handed out no session.
    pub fn new() -> (p: Self)
        ensures
            p.provider_wf(),
            p.client_ids() == Set::<Seq<char>>::empty(),
    {
        let p = MemorySessionProvider { sessions: Vec::new() };
        assert(p.client_ids() =~= Set::<Seq<char>>::empty());
        p
    }

    /// A fresh session for `client_id`; an error when a session handed out for it is still
    /// in use.
    pub fn get(&mut self, client_id: &str) -> (res: Result<MemorySession, SessionError>)
        requires
            old(self).provider_wf(),
        ensures
            final(self).provider_wf(),
            match res {
                Ok(s) => {
                    &&& s.wf()
                    &&& s.view().end_timestamp is None
                    &&& s.view().subscriptions == Map::<Seq<char>, ClientSubscriptionModel>::empty()
                    &&& s.view().unsent_atleastonce == Map::<u16, Publish>::empty()
                    &&& s.view().unacked_atleastonce == Map::<u16, Publish>::empty()
                    &&& final(self).client_ids() == old(self).client_ids().insert(client_id@)
                },
                Err(e) => {
                    &&& e == SessionError::SessionAlreadyActive
                    &&& old(self).client_ids().contains(client_id@)
                    &&& final(self).client_ids() == old(self).client_ids()
                },
            },
    {
        let key = client_id.to_owned();
        let mut i: usize = 0;
        while i < self.sessions.len()
            invariant
                key@ == client_id@,
                i <= self.sessions@.len(),
                self.sessions@ == old(self).sessions@,
                self.provider_wf(),
                forall|j: int| 0 <= j < i ==> #[trigger] self.sessions@[j].0@ != client_id@,
            decreases self.sessions@.len() - i,
        {
            if self.sessions[i].0 == key {
                assert(old(self).client_ids().contains(client_id@)) by {
                    assert(self.sessions@[i as int].0@ == client_id@);
                }
                if session_in_use(token_holders(&self.sessions[i].1)) {
                    return Err(SessionError::SessionAlreadyActive);
                }
                let strong = Arc::new(());
                let kept = share_token(&strong);
                let ghost before = self.sessions@;
                self.sessions.set(i, (key, kept));
                proof {
                    assert forall|j: int| 0 <= j < self.sessions@.len() implies #[trigger] self.sessions@[j].0@
                        == before[j].0@ by {
                        if j == i as int {
                            assert(self.sessions@[j].0@ == client_id@);
                        }
                    }
                    assert forall|k: Seq<char>| self.client_ids().contains(k) <==> old(self).client_ids().insert(
                        client_id@,
                    ).contains(k) by {
                        if old(self).client_ids().contains(k) {
                            let j = choose|j: int| 0 <= j < before.len() && #[trigger] before[j].0@ == k;
                            assert(self.sessions@[j].0@ == k);
                        }
                        if self.client_ids().contains(k) {
                            let j = choose|j: int| 0 <= j < self.sessions@.len() && #[trigger] self.sessions@[j].0@ == k;
                            assert(before[j].0@ == k);
                        }
                    }
                    assert(self.client_ids() =~= old(self).client_ids().insert(client_id@));
                }
                return Ok(MemorySession::new(strong));
            }
            i = i + 1;
        }
        let strong = Arc::new(());
        let kept = share_token(&strong);
        let ghost before = self.sessions@;
        self.sessions.push((key, kept));
        proof {
            assert forall|a: int, b: int|
                0 <= a < self.sessions@.len() && 0 <= b < self.sessions@.len() && a != b implies self.sessions@[a].0@
                != self.sessions@[b].0@ by {
                if a < before.len() && b < before.len() {
                    assert(self.sessions@[a] == before[a] && self.sessions@[b] == before[b]);
                } else if a < before.len() {
                    assert(self.sessions@[a] == before[a]);
                } else if b < before.len() {
                    assert(self.sessions@[b] == before[b]);
                }
            }
            assert forall|k: Seq<char>| self.client_ids().contains(k) <==> old(self).client_ids().insert(
                client_id@,
            ).contains(k) by {
                if old(self).client_ids().contains(k) {
                    let j = choose|j: int| 0 <= j < before.len() && #[trigger] before[j].0@ == k;
                    assert(self.sessions@[j].0@ == k);
                }
                if self.client_ids().contains(k) {
                    let j = choose|j: int| 0 <= j < self.sessions@.len() && #[trigger] self.sessions@[j].0@ == k;
                    if j < before.len() {
                        assert(before[j].0@ == k);
                    }
                }
                if k == client_id@ {
                    assert(self.sessions@[before.len() as int].0@ == k);
                }
            }
            assert(self.client_ids() =~= old(self).client_ids().insert(client_id@));
        }
        Ok(MemorySession::new(strong))
    }
}

} // verus!
