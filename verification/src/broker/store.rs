//! The store of retained messages that the broker shares between connections: one message
//! per topic name, handed to new subscribers whose filter matches it.
use vstd::prelude::*;
use crate::broker::session::{distinct_keys, entries_map, lemma_entries_dom};
use crate::topic_filter::{spec_matches, spec_split, SegmentModel, TopicFilter};
use crate::types::{clone_publish, Publish, PublishModel};

verus! {

/// Why a store operation failed. The memory store never fails; a store kept elsewhere
/// reports that it cannot be reached.
#[derive(Debug, Clone, Copy)]
pub enum ClusterStoreError {
    Unavailable,
}

/// Whether the topic name of a message matches a filter.
pub open spec fn publish_matches(f: Seq<SegmentModel>, p: PublishModel) -> bool {
    spec_matches(f, spec_split(p.topic_name))
}

/// The messages of `es` whose topic name matches `f`, in the order of `es`.
pub open spec fn retained_matching(es: Seq<(Seq<char>, PublishModel)>, f: Seq<SegmentModel>) -> Seq<
    PublishModel,
>
    decreases es.len(),
{
    if es.len() == 0 {
        Seq::empty()
    } else {
        let r = retained_matching(es.drop_last(), f);
        if publish_matches(f, es.last().1) {
            r.push(es.last().1)
        } else {
            r
        }
    }
}

/// Where retained messages are kept, by topic name.
pub trait ClusterStore: Sized {
    /// The retained messages, each with the topic name it is kept under, in the order in
    /// which `get_retained` goes through them.
    spec fn retained_entries(&self) -> Seq<(Seq<char>, PublishModel)>;

    /// Each topic name holds at most one message.
    spec fn store_wf(&self) -> bool;

    /// Whether the store answers every call: a store held in memory does, one kept
    /// elsewhere may fail.
    spec fn answers(&self) -> bool;

    /// Keeps `publish` as the retained message of `topic_name`, in place of any other. A
    /// store may fail; what it then holds is its own matter.
    fn replace_retained(&mut self, topic_name: &str, publish: Publish) -> (res: Result<(), ClusterStoreError>)
        requires
            old(self).store_wf(),
        ensures
            final(self).store_wf(),
            final(self).answers() == old(self).answers(),
            old(self).answers() ==> res is Ok,
            res is Ok ==> entries_map(final(self).retained_entries()) == entries_map(
                old(self).retained_entries(),
            ).insert(topic_name@, publish.deep_view()),
    ;

    /// Drops the retained message of `topic_name`, if any. A store may fail; what it then
    /// holds is its own matter.
    fn remove_retained(&mut self, topic_name: &str) -> (res: Result<(), ClusterStoreError>)
        requires
            old(self).store_wf(),
        ensures
            final(self).store_wf(),
            final(self).answers() == old(self).answers(),
            old(self).answers() ==> res is Ok,
            res is Ok ==> entries_map(final(self).retained_entries()) == entries_map(
                old(self).retained_entries(),
            ).remove(topic_name@),
    ;

    /// The retained messages whose topic name matches `topic_filter`; reading changes
    /// nothing. A store may fail to answer.
    fn get_retained(&mut self, topic_filter: &TopicFilter) -> (res: Result<Vec<Publish>, ClusterStoreError>)
        requires
            old(self).store_wf(),
        ensures
            final(self).store_wf(),
            final(self).answers() == old(self).answers(),
            old(self).answers() ==> res is Ok,
            final(self).retained_entries() == old(self).retained_entries(),
            res matches Ok(v) ==> v.deep_view() == retained_matching(
                old(self).retained_entries(),
                topic_filter.deep_view(),
            ),
    ;
}

/// A store of retained messages held in memory.
pub struct MemoryClusterStore {
    retained: Vec<(String, Publish)>,
}

impl MemoryClusterStore {
    /// An empty store.
    pub fn new() -> (s: Self)
        ensures
            s.store_wf(),
            s.retained_entries() == Seq::<(Seq<char>, PublishModel)>::empty(),
    {
        let s = MemoryClusterStore { retained: Vec::new() };
        assert(s.retained_entries() =~= Seq::empty());
        s
    }

    fn find(&self, topic_name: &str) -> (res: Option<usize>)
        ensures
            match res {
                Some(i) => i < self.retained_entries().len() && self.retained_entries()[i as int].0
                    == topic_name@,
                None => forall|j: int| 0 <= j < self.retained_entries().len() ==> #[trigger] self.retained_entries()[j].0
                    != topic_name@,
            },
    {
        let key = topic_name.to_owned();
        let mut i: usize = 0;
        while i < self.retained.len()
            invariant
                key@ == topic_name@,
                i <= self.retained@.len(),
                self.retained_entries().len() == self.retained@.len(),
                forall|j: int| 0 <= j < i ==> #[trigger] self.retained_entries()[j].0 != topic_name@,
            decreases self.retained@.len() - i,
        {
            assert(self.retained_entries()[i as int].0 == self.retained@[i as int].0@);
            if self.retained[i].0 == key {
                return Some(i);
            }
            i = i + 1;
        }
        None
    }
}

impl ClusterStore for MemoryClusterStore {
    closed spec fn retained_entries(&self) -> Seq<(Seq<char>, PublishModel)> {
        self.retained@.map_values(|e: (String, Publish)| (e.0@, e.1.deep_view()))
    }

    closed spec fn store_wf(&self) -> bool {
        distinct_keys(self.retained_entries())
    }

    open spec fn answers(&self) -> bool {
        true
    }

    fn replace_retained(&mut self, topic_name: &str, publish: Publish) -> (res: Result<(), ClusterStoreError>)
    {
        let ghost before = self.retained_entries();
        let ghost pm = publish.deep_view();
        match self.find(topic_name) {
            Some(i) => {
                proof {
                    crate::broker::session::lemma_entries_update(before, i as int, pm);
                }
                let key = self.retained[i].0.clone();
                self.retained.set(i, (key, publish));
                assert(self.retained_entries() =~= before.update(i as int, (before[i as int].0, pm)));
            },
            None => {
                proof {
                    crate::broker::session::lemma_entries_dom(before, topic_name@);
                    crate::broker::session::lemma_entries_push(before, topic_name@, pm);
                }
                self.retained.push((topic_name.to_owned(), publish));
                assert(self.retained_entries() =~= before.push((topic_name@, pm)));
            },
        }
        Ok(())
    }

    fn remove_retained(&mut self, topic_name: &str) -> (res: Result<(), ClusterStoreError>)
    {
        let ghost before = self.retained_entries();
        match self.find(topic_name) {
            Some(i) => {
                proof {
                    crate::broker::session::lemma_entries_remove(before, i as int);
                }
                let _removed = self.retained.remove(i);
                assert(self.retained_entries() =~= before.remove(i as int));
            },
            None => {
                proof {
                    crate::broker::session::lemma_entries_dom(before, topic_name@);
                }
                assert(entries_map(before).remove(topic_name@) =~= entries_map(before));
            },
        }
        Ok(())
    }

    fn get_retained(&mut self, topic_filter: &TopicFilter) -> (res: Result<Vec<Publish>, ClusterStoreError>)
    {
        let mut out: Vec<Publish> = Vec::new();
        let ghost es = self.retained_entries();
        let mut i: usize = 0;
        while i < self.retained.len()
            invariant
                i <= self.retained@.len(),
                es == self.retained_entries(),
                es.len() == self.retained@.len(),
                out.deep_view() == retained_matching(es.take(i as int), topic_filter.deep_view()),
            decreases self.retained@.len() - i,
        {
            assert(es.take(i + 1).drop_last() =~= es.take(i as int));
            assert(es[i as int].1 == self.retained@[i as int].1.deep_view());
            if topic_filter.matches(self.retained[i].1.topic_name.as_str()) {
                let p = clone_publish(&self.retained[i].1);
                let ghost before = out.deep_view();
                out.push(p);
                assert(out.deep_view() =~= before.push(p.deep_view()));
            }
            i = i + 1;
        }
        assert(es.take(i as int) =~= es);
        Ok(out)
    }
}

/// The retained messages that match a filter are exactly the messages kept under some
/// topic name whose own topic name matches the filter.
pub proof fn lemma_retained_matching(es: Seq<(Seq<char>, PublishModel)>, f: Seq<SegmentModel>)
    requires
        distinct_keys(es),
    ensures
        forall|p: PublishModel|
            retained_matching(es, f).contains(p) <==> exists|k: Seq<char>|
                entries_map(es).contains_key(k) && #[trigger] entries_map(es)[k] == p && publish_matches(f, p),
    decreases es.len(),
{
    if es.len() > 0 {
        let d = es.drop_last();
        let last = es.last();
        assert(distinct_keys(d));
        lemma_retained_matching(d, f);
        let m = entries_map(es);
        let md = entries_map(d);
        lemma_entries_dom(d, last.0);
        assert(!md.contains_key(last.0)) by {
            if md.contains_key(last.0) {
                let j = choose|j: int| 0 <= j < d.len() && #[trigger] d[j].0 == last.0;
                assert(es[j].0 == es[es.len() - 1].0);
            }
        }
        assert forall|p: PublishModel|
            retained_matching(es, f).contains(p) <==> exists|k: Seq<char>|
                m.contains_key(k) && #[trigger] m[k] == p && publish_matches(f, p) by {
            if retained_matching(es, f).contains(p) {
                if retained_matching(d, f).contains(p) {
                    let k = choose|k: Seq<char>| md.contains_key(k) && #[trigger] md[k] == p && publish_matches(f, p);
                    assert(k != last.0);
                    assert(m.contains_key(k) && m[k] == p);
                } else {
                    let r = retained_matching(d, f);
                    assert(retained_matching(es, f) == r.push(last.1));
                    let j = choose|j: int| 0 <= j < r.push(last.1).len() && r.push(last.1)[j] == p;
                    if j < r.len() {
                        assert(r.contains(p));
                    }
                    assert(p == last.1);
                    assert(m.contains_key(last.0) && m[last.0] == p);
                }
            }
            if exists|k: Seq<char>| m.contains_key(k) && #[trigger] m[k] == p && publish_matches(f, p) {
                let k = choose|k: Seq<char>| m.contains_key(k) && #[trigger] m[k] == p && publish_matches(f, p);
                if k == last.0 {
                    assert(p == last.1);
                    let r = retained_matching(d, f);
                    assert(retained_matching(es, f) == r.push(last.1));
                    assert(r.push(last.1)[r.len() as int] == p);
                } else {
                    assert(md.contains_key(k) && md[k] == p);
                    assert(retained_matching(d, f).contains(p));
                    let r = retained_matching(d, f);
                    let j = choose|j: int| 0 <= j < r.len() && r[j] == p;
                    if publish_matches(f, last.1) {
                        assert(r.push(last.1)[j] == p);
                    }
                }
            }
        }
    }
}

/// A change to the retained messages: keeping a message under a topic name, as
/// `replace_retained` does, or dropping the message of a topic name, as `remove_retained`
/// does.
pub enum RetainedChange {
    Replace(Seq<char>, PublishModel),
    Remove(Seq<char>),
}

/// The retained messages by topic name after `changes`, applied in order to `m`.
pub open spec fn apply_changes(m: Map<Seq<char>, PublishModel>, changes: Seq<RetainedChange>) -> Map<
    Seq<char>,
    PublishModel,
>
    decreases changes.len(),
{
    if changes.len() == 0 {
        m
    } else {
        let before = apply_changes(m, changes.drop_last());
        match changes.last() {
            RetainedChange::Replace(t, p) => before.insert(t, p),
            RetainedChange::Remove(t) => before.remove(t),
        }
    }
}

/// Whether a store whose entries were `before` holds `after` once the call that makes change
/// `c` returned `Ok`, as the contracts of `replace_retained` and `remove_retained` state it.
pub open spec fn change_made(
    before: Seq<(Seq<char>, PublishModel)>,
    c: RetainedChange,
    after: Seq<(Seq<char>, PublishModel)>,
) -> bool {
    &&& distinct_keys(after)
    &&& entries_map(after) == match c {
        RetainedChange::Replace(t, p) => entries_map(before).insert(t, p),
        RetainedChange::Remove(t) => entries_map(before).remove(t),
    }
}

/// Whether each message is kept under its own topic name.
pub open spec fn named_by_topic(m: Map<Seq<char>, PublishModel>) -> bool {
    forall|k: Seq<char>| m.contains_key(k) ==> (#[trigger] m[k]).topic_name == k
}

/// Whether a change keeps a message under its own topic name (a removal always does).
pub open spec fn change_named(c: RetainedChange) -> bool {
    match c {
        RetainedChange::Replace(t, p) => p.topic_name == t,
        RetainedChange::Remove(_) => true,
    }
}

proof fn lemma_changes_named(m: Map<Seq<char>, PublishModel>, changes: Seq<RetainedChange>)
    requires
        named_by_topic(m),
        forall|i: int| 0 <= i < changes.len() ==> change_named(#[trigger] changes[i]),
    ensures
        named_by_topic(apply_changes(m, changes)),
    decreases changes.len(),
{
    if changes.len() > 0 {
        assert forall|i: int| 0 <= i < changes.drop_last().len() implies change_named(
            #[trigger] changes.drop_last()[i],
        ) by {
            assert(change_named(changes[i]));
        }
        lemma_changes_named(m, changes.drop_last());
        assert(change_named(changes[changes.len() - 1]));
    }
}

/// When each message is kept under its own topic name, the messages that match a filter
/// come once each.
pub proof fn lemma_matching_distinct(es: Seq<(Seq<char>, PublishModel)>, f: Seq<SegmentModel>)
    requires
        distinct_keys(es),
        named_by_topic(entries_map(es)),
    ensures
        retained_matching(es, f).no_duplicates(),
    decreases es.len(),
{
    if es.len() > 0 {
        let d = es.drop_last();
        let last = es.last();
        let md = entries_map(d);
        assert(distinct_keys(d));
        lemma_entries_dom(d, last.0);
        assert(!md.contains_key(last.0)) by {
            if md.contains_key(last.0) {
                let j = choose|j: int| 0 <= j < d.len() && #[trigger] d[j].0 == last.0;
                assert(es[j].0 == es[es.len() - 1].0);
            }
        }
        assert(named_by_topic(md)) by {
            assert forall|k: Seq<char>| md.contains_key(k) implies (#[trigger] md[k]).topic_name == k by {
                assert(k != last.0);
                assert(entries_map(es).contains_key(k) && entries_map(es)[k] == md[k]);
            }
        }
        assert(entries_map(es)[last.0] == last.1);
        lemma_matching_distinct(d, f);
        lemma_retained_matching(d, f);
        let r = retained_matching(d, f);
        if publish_matches(f, last.1) {
            assert(!r.contains(last.1)) by {
                if r.contains(last.1) {
                    let k = choose|k: Seq<char>|
                        md.contains_key(k) && #[trigger] md[k] == last.1 && publish_matches(f, last.1);
                    assert(md[k].topic_name == k);
                }
            }
            assert forall|i: int, j: int|
                0 <= i < r.push(last.1).len() && 0 <= j < r.push(last.1).len() && i != j implies r.push(
                last.1,
            )[i] != r.push(last.1)[j] by {
                if i < r.len() && j < r.len() {
                } else if i < r.len() {
                    assert(r.contains(r[i]));
                } else {
                    assert(r.contains(r[j]));
                }
            }
        }
    }
}

/// Over any sequence of `replace_retained` and `remove_retained` calls, a store holds, for
/// each topic name, the message of its last `replace_retained` unless a `remove_retained`
/// of that topic name came after it; and `get_retained` with a filter then gives exactly
/// those of these messages whose topic name matches the filter. When each message is kept
/// under its own topic name, it gives each of them once.
pub proof fn lemma_retained_after_changes(
    states: Seq<Seq<(Seq<char>, PublishModel)>>,
    changes: Seq<RetainedChange>,
    f: Seq<SegmentModel>,
)
    requires
        states.len() == changes.len() + 1,
        distinct_keys(states[0]),
        forall|i: int| 0 <= i < changes.len() ==> change_made(states[i], #[trigger] changes[i], states[i + 1]),
    ensures
        distinct_keys(states.last()),
        entries_map(states.last()) == apply_changes(entries_map(states[0]), changes),
        forall|p: PublishModel|
            retained_matching(states.last(), f).contains(p) <==> exists|k: Seq<char>|
                apply_changes(entries_map(states[0]), changes).contains_key(k)
                    && #[trigger] apply_changes(entries_map(states[0]), changes)[k] == p
                    && publish_matches(f, p),
        named_by_topic(entries_map(states[0])) && (forall|i: int|
            0 <= i < changes.len() ==> change_named(#[trigger] changes[i])) ==> retained_matching(
            states.last(),
            f,
        ).no_duplicates(),
{
    lemma_retained_after_changes_map(states, changes);
    lemma_retained_matching(states.last(), f);
    if named_by_topic(entries_map(states[0])) && (forall|i: int|
        0 <= i < changes.len() ==> change_named(#[trigger] changes[i])) {
        lemma_changes_named(entries_map(states[0]), changes);
        lemma_matching_distinct(states.last(), f);
    }
}

proof fn lemma_retained_after_changes_map(
    states: Seq<Seq<(Seq<char>, PublishModel)>>,
    changes: Seq<RetainedChange>,
)
    requires
        states.len() == changes.len() + 1,
        distinct_keys(states[0]),
        forall|i: int| 0 <= i < changes.len() ==> change_made(states[i], #[trigger] changes[i], states[i + 1]),
    ensures
        distinct_keys(states.last()),
        entries_map(states.last()) == apply_changes(entries_map(states[0]), changes),
    decreases changes.len(),
{
    if changes.len() > 0 {
        let n = changes.len() - 1;
        assert forall|i: int| 0 <= i < changes.drop_last().len() implies change_made(
            states.drop_last()[i],
            #[trigger] changes.drop_last()[i],
            states.drop_last()[i + 1],
        ) by {
            assert(change_made(states[i], changes[i], states[i + 1]));
        }
        lemma_retained_after_changes_map(states.drop_last(), changes.drop_last());
        assert(change_made(states[n], changes[n], states[n + 1]));
    }
}

} // verus!
