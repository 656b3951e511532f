//! The topic registry: named publish/subscribe channels with fan-out.
//!
//! A topic is created by the first publisher or subscriber that names it and
//! keeps the payload type it was created with. Each subscriber owns an
//! unbounded FIFO queue; a publish appends a copy of the message to every
//! queue of the topic and never waits for a slow subscriber.

use crate::error::BrokerError;
use crate::slots::{claim, first_free, lemma_first_free_exists, lemma_first_free_is, put, taken};
use std::collections::VecDeque;
use vstd::prelude::*;

verus! {

/// What a subscriber is known by: its topic and its slot in that topic.
pub struct SubscriberId {
    pub topic: int,
    pub slot: int,
}

/// The state of one topic.
pub struct TopicState {
    pub name: Seq<char>,
    pub payload_type: Seq<char>,
    /// One entry per subscriber slot, holding the messages not yet taken,
    /// oldest first. A slot without a subscriber holds `None`.
    pub queues: Seq<Option<Seq<Seq<u8>>>>,
}

impl TopicState {
    /// A topic that nobody has subscribed to yet.
    pub open spec fn fresh(name: Seq<char>, payload_type: Seq<char>) -> TopicState {
        TopicState { name, payload_type, queues: Seq::empty() }
    }

    /// Whether no subscriber is attached.
    pub open spec fn no_subscribers(self) -> bool {
        forall|j: int| 0 <= j < self.queues.len() ==> (#[trigger] self.queues[j]) is None
    }

    /// The topic after `message` was appended to every subscriber's queue.
    pub open spec fn fan_out(self, message: Seq<u8>) -> TopicState {
        TopicState {
            queues: Seq::new(
                self.queues.len(),
                |j: int|
                    match self.queues[j] {
                        Some(q) => Some(q.push(message)),
                        None => None,
                    },
            ),
            ..self
        }
    }

    /// The topic after one more subscriber took the first free slot.
    pub open spec fn with_subscriber(self) -> TopicState {
        TopicState { queues: put(self.queues, first_free(self.queues), Seq::empty()), ..self }
    }

    /// The topic after the subscriber in `slot` took its oldest message.
    pub open spec fn pop_front(self, slot: int) -> TopicState {
        if taken(self.queues, slot) && self.queues[slot].unwrap().len() > 0 {
            TopicState {
                queues: self.queues.update(slot, Some(self.queues[slot].unwrap().drop_first())),
                ..self
            }
        } else {
            self
        }
    }

    /// The topic after the subscriber in `slot` left.
    pub open spec fn without_subscriber(self, slot: int) -> TopicState {
        if 0 <= slot < self.queues.len() {
            TopicState { queues: self.queues.update(slot, None), ..self }
        } else {
            self
        }
    }
}

/// The state of the whole registry: its topics in order of creation, and
/// whether the broker has been shut down.
pub struct TopicsState {
    pub topics: Seq<TopicState>,
    pub closed: bool,
}

impl TopicsState {
    /// The registry with no topic, not shut down.
    pub open spec fn new() -> TopicsState {
        TopicsState { topics: Seq::empty(), closed: false }
    }

    /// No two topics share a name.
    pub open spec fn wf(self) -> bool {
        forall|i: int, j: int|
            0 <= i < j < self.topics.len() ==> (#[trigger] self.topics[i]).name != (
            #[trigger] self.topics[j]).name
    }

    /// Whether a topic called `name` exists.
    pub open spec fn has_topic(self, name: Seq<char>) -> bool {
        exists|i: int| 0 <= i < self.topics.len() && (#[trigger] self.topics[i]).name == name
    }

    /// The index of the topic called `name`; for a name not yet known, the
    /// index it gets when it is first registered.
    pub open spec fn topic_id(self, name: Seq<char>) -> int {
        if self.has_topic(name) {
            choose|i: int| 0 <= i < self.topics.len() && (#[trigger] self.topics[i]).name == name
        } else {
            self.topics.len() as int
        }
    }

    /// The payload type that `name` is bound to, if the topic exists.
    pub open spec fn type_of(self, name: Seq<char>) -> Option<Seq<char>> {
        if self.has_topic(name) {
            Some(self.topics[self.topic_id(name)].payload_type)
        } else {
            None
        }
    }

    /// Whether a publisher or subscriber of `payload_type` may join `name`:
    /// the topic is new, or it already carries that type.
    pub open spec fn accepts(self, name: Seq<char>, payload_type: Seq<char>) -> bool {
        self.type_of(name) is None || self.type_of(name) == Some(payload_type)
    }

    /// What a publisher of `payload_type` that asks for `name` is told: the
    /// index of the topic, or `TypeMismatch`.
    pub open spec fn advertise_result(self, name: Seq<char>, payload_type: Seq<char>) -> Result<
        int,
        BrokerError,
    > {
        if self.accepts(name, payload_type) {
            Ok(self.topic_id(name))
        } else {
            Err(BrokerError::TypeMismatch)
        }
    }

    /// The registry after a publisher of `payload_type` asked for `name`.
    /// Joining an existing topic of the same type changes nothing.
    pub open spec fn advertise(self, name: Seq<char>, payload_type: Seq<char>) -> TopicsState {
        if self.accepts(name, payload_type) && !self.has_topic(name) {
            TopicsState { topics: self.topics.push(TopicState::fresh(name, payload_type)), ..self }
        } else {
            self
        }
    }

    /// The slot that the next subscriber of `name` gets.
    pub open spec fn next_slot(self, name: Seq<char>) -> int {
        if self.has_topic(name) {
            first_free(self.topics[self.topic_id(name)].queues)
        } else {
            0
        }
    }

    /// What the next subscriber of `name` will be known by.
    pub open spec fn next_subscriber(self, name: Seq<char>) -> SubscriberId {
        SubscriberId { topic: self.topic_id(name), slot: self.next_slot(name) }
    }

    /// What a subscriber of `payload_type` that asks for `name` is told: what
    /// it is known by from now on, or `TypeMismatch`.
    pub open spec fn subscribe_result(self, name: Seq<char>, payload_type: Seq<char>) -> Result<
        SubscriberId,
        BrokerError,
    > {
        if self.accepts(name, payload_type) {
            Ok(self.next_subscriber(name))
        } else {
            Err(BrokerError::TypeMismatch)
        }
    }

    /// The registry after a subscriber of `payload_type` asked for `name`: the
    /// topic exists, and the subscriber has an empty queue in it.
    pub open spec fn subscribe(self, name: Seq<char>, payload_type: Seq<char>) -> TopicsState {
        if self.accepts(name, payload_type) {
            let joined = self.advertise(name, payload_type);
            let t = self.topic_id(name);
            TopicsState {
                topics: joined.topics.update(t, joined.topics[t].with_subscriber()),
                ..self
            }
        } else {
            self
        }
    }

    /// Whether `topic` is the index of a topic.
    pub open spec fn is_topic(self, topic: int) -> bool {
        0 <= topic < self.topics.len()
    }

    /// Whether `id` is a live subscription.
    pub open spec fn is_subscriber(self, id: SubscriberId) -> bool {
        self.is_topic(id.topic) && taken(self.topics[id.topic].queues, id.slot)
    }

    /// The messages that subscriber `id` has not taken yet, oldest first.
    pub open spec fn queue(self, id: SubscriberId) -> Seq<Seq<u8>> {
        self.topics[id.topic].queues[id.slot].unwrap()
    }

    /// The registry after `message` was published on `topic`. Nothing is
    /// delivered once the broker is shut down.
    pub open spec fn publish(self, topic: int, message: Seq<u8>) -> TopicsState {
        if self.is_topic(topic) && !self.closed {
            TopicsState {
                topics: self.topics.update(topic, self.topics[topic].fan_out(message)),
                ..self
            }
        } else {
            self
        }
    }

    /// What subscriber `id` receives when it asks for its next message:
    /// the oldest pending one, `None` while it has to wait, or
    /// `ChannelClosed` when nothing is pending and nothing will come.
    pub open spec fn next_result(self, id: SubscriberId) -> Result<Option<Seq<u8>>, BrokerError> {
        if self.queue(id).len() > 0 {
            Ok(Some(self.queue(id)[0]))
        } else if self.closed {
            Err(BrokerError::ChannelClosed)
        } else {
            Ok(None)
        }
    }

    /// The registry after subscriber `id` asked for its next message.
    pub open spec fn take_next(self, id: SubscriberId) -> TopicsState {
        if self.is_subscriber(id) {
            TopicsState {
                topics: self.topics.update(id.topic, self.topics[id.topic].pop_front(id.slot)),
                ..self
            }
        } else {
            self
        }
    }

    /// The registry after subscriber `id` left; its queue is gone.
    pub open spec fn unsubscribe(self, id: SubscriberId) -> TopicsState {
        if self.is_topic(id.topic) {
            TopicsState {
                topics: self.topics.update(
                    id.topic,
                    self.topics[id.topic].without_subscriber(id.slot),
                ),
                ..self
            }
        } else {
            self
        }
    }

    /// The registry after the broker was shut down.
    pub open spec fn shutdown(self) -> TopicsState {
        TopicsState { closed: true, ..self }
    }

    /// The registry after each of `messages` was published on `topic`, in order.
    pub open spec fn publish_all(self, topic: int, messages: Seq<Seq<u8>>) -> TopicsState
        decreases messages.len(),
    {
        if messages.len() == 0 {
            self
        } else {
            self.publish_all(topic, messages.drop_last()).publish(topic, messages.last())
        }
    }

    /// The registry after subscriber `id` asked for its next message `n` times.
    pub open spec fn take_n(self, id: SubscriberId, n: nat) -> TopicsState
        decreases n,
    {
        if n == 0 {
            self
        } else {
            self.take_n(id, (n - 1) as nat).take_next(id)
        }
    }

    /// `other` has the same topics under the same names and payload types;
    /// only queues may differ.
    pub open spec fn same_topics(self, other: TopicsState) -> bool {
        &&& self.topics.len() == other.topics.len()
        &&& forall|i: int|
            0 <= i < self.topics.len() ==> (#[trigger] self.topics[i]).name == other.topics[i].name
                && self.topics[i].payload_type == other.topics[i].payload_type
    }

    /// In a well-formed registry a topic is found under its own name.
    pub proof fn lemma_topic_id(self, i: int)
        requires
            self.wf(),
            0 <= i < self.topics.len(),
        ensures
            self.has_topic(self.topics[i].name),
            self.topic_id(self.topics[i].name) == i,
    {
        let name = self.topics[i].name;
        let c = self.topic_id(name);
        assert(0 <= c < self.topics.len() && self.topics[c].name == name);
        if c < i {
            assert(self.topics[c].name != self.topics[i].name);
        } else if i < c {
            assert(self.topics[i].name != self.topics[c].name);
        }
    }

    /// The index of a name is a topic of that name, or one past the last topic.
    pub proof fn lemma_topic_id_range(self, name: Seq<char>)
        ensures
            0 <= self.topic_id(name) <= self.topics.len(),
            self.has_topic(name) <==> self.topic_id(name) < self.topics.len(),
            self.has_topic(name) ==> self.topics[self.topic_id(name)].name == name,
    {
    }
}

impl TopicsState {
    /// Registries with the same topics resolve every name alike.
    pub proof fn lemma_same_topics(self, other: TopicsState, name: Seq<char>)
        requires
            self.wf(),
            self.same_topics(other),
        ensures
            other.wf(),
            other.has_topic(name) == self.has_topic(name),
            other.topic_id(name) == self.topic_id(name),
            other.type_of(name) == self.type_of(name),
            forall|payload_type: Seq<char>|
                other.accepts(name, payload_type) == self.accepts(name, payload_type),
    {
        assert forall|i: int, j: int| 0 <= i < j < other.topics.len() implies (
        #[trigger] other.topics[i]).name != (#[trigger] other.topics[j]).name by {
            assert(self.topics[i].name != self.topics[j].name);
        }
        if self.has_topic(name) {
            let i = self.topic_id(name);
            assert(other.topics[i].name == name);
            other.lemma_topic_id(i);
        } else {
            if other.has_topic(name) {
                let i = other.topic_id(name);
                assert(self.topics[i].name == name);
            }
        }
    }

    /// Publishing touches one topic's queues and nothing else: every
    /// subscriber stays, and a subscriber of the topic has the message
    /// appended to what it had.
    pub proof fn lemma_publish(self, topic: int, message: Seq<u8>, id: SubscriberId)
        requires
            self.is_subscriber(id),
        ensures
            self.same_topics(self.publish(topic, message)),
            self.publish(topic, message).closed == self.closed,
            self.publish(topic, message).is_subscriber(id),
            self.publish(topic, message).queue(id) == if id.topic == topic && !self.closed {
                self.queue(id).push(message)
            } else {
                self.queue(id)
            },
    {
    }

    /// Taking a message touches one queue: the subscriber stays and has lost
    /// its oldest message, if it had one.
    pub proof fn lemma_take_next(self, id: SubscriberId)
        requires
            self.is_subscriber(id),
        ensures
            self.same_topics(self.take_next(id)),
            self.take_next(id).closed == self.closed,
            self.take_next(id).is_subscriber(id),
            self.take_next(id).queue(id) == if self.queue(id).len() > 0 {
                self.queue(id).drop_first()
            } else {
                self.queue(id)
            },
    {
    }

    /// Asking for the next message of an empty queue changes nothing.
    pub proof fn lemma_take_next_empty(self, id: SubscriberId)
        requires
            self.is_subscriber(id),
            self.queue(id).len() == 0,
        ensures
            self.take_next(id) == self,
    {
        assert(self.take_next(id).topics =~= self.topics);
    }

    /// Registering a publisher keeps the registry well formed and leaves
    /// every subscriber and queue as it was.
    pub proof fn lemma_advertise(self, name: Seq<char>, payload_type: Seq<char>)
        requires
            self.wf(),
        ensures
            self.advertise(name, payload_type).wf(),
            self.advertise(name, payload_type).closed == self.closed,
            self.accepts(name, payload_type) ==> self.advertise(name, payload_type).has_topic(name)
                && self.advertise(name, payload_type).topic_id(name) == self.topic_id(name)
                && self.advertise(name, payload_type).type_of(name) == Some(payload_type),
            forall|id: SubscriberId| #[trigger]
                self.is_subscriber(id) ==> self.advertise(name, payload_type).is_subscriber(id)
                    && self.advertise(name, payload_type).queue(id) == self.queue(id),
    {
        let after = self.advertise(name, payload_type);
        let t = self.topic_id(name);
        self.lemma_topic_id_range(name);
        if self.accepts(name, payload_type) {
            assert forall|i: int, j: int| 0 <= i < j < after.topics.len() implies (
            #[trigger] after.topics[i]).name != (#[trigger] after.topics[j]).name by {
                if j < self.topics.len() {
                    assert(self.topics[i].name != self.topics[j].name);
                } else {
                    assert(self.topics[i].name != name);
                }
            }
            assert(after.topics[t].name == name);
            after.lemma_topic_id(t);
        }
    }

    /// Joining a topic again asks for nothing new: one more publisher of the
    /// same type is given the same topic and leaves the registry as it is.
    pub proof fn lemma_advertise_again(self, name: Seq<char>, payload_type: Seq<char>)
        requires
            self.wf(),
            self.accepts(name, payload_type),
        ensures
            ({
                let once = self.advertise(name, payload_type);
                &&& once.advertise_result(name, payload_type) == self.advertise_result(
                    name,
                    payload_type,
                )
                &&& once.advertise(name, payload_type) == once
            }),
    {
        self.lemma_advertise(name, payload_type);
    }

    /// A topic keeps the payload type it was created with: no registration
    /// under any name, accepted or refused, binds an existing topic anew.
    pub proof fn lemma_payload_type_is_fixed(
        self,
        name: Seq<char>,
        other: Seq<char>,
        payload_type: Seq<char>,
    )
        requires
            self.wf(),
            self.has_topic(name),
        ensures
            self.advertise(other, payload_type).type_of(name) == self.type_of(name),
            self.subscribe(other, payload_type).type_of(name) == self.type_of(name),
    {
        let i = self.topic_id(name);
        self.lemma_topic_id_range(other);
        self.lemma_advertise(other, payload_type);
        let advertised = self.advertise(other, payload_type);
        assert(advertised.topics[i].name == name);
        advertised.lemma_topic_id(i);
        if self.accepts(other, payload_type) {
            self.lemma_subscribe(other, payload_type);
            let subscribed = self.subscribe(other, payload_type);
            assert(subscribed.topics[i].name == name);
            subscribed.lemma_topic_id(i);
        }
    }

    /// No slot is lost. The slot that a subscriber gives up is free for the
    /// next subscriber of the topic, whose arrival therefore does not make
    /// the topic's table longer.
    pub proof fn lemma_released_slot_is_reused(self, id: SubscriberId)
        requires
            self.is_subscriber(id),
        ensures
            !self.unsubscribe(id).is_subscriber(id),
            first_free(self.unsubscribe(id).topics[id.topic].queues) <= id.slot,
            self.unsubscribe(id).topics[id.topic].with_subscriber().queues.len()
                == self.topics[id.topic].queues.len(),
    {
        let queues = self.unsubscribe(id).topics[id.topic].queues;
        lemma_first_free_exists(queues);
        let k = first_free(queues);
        if k > id.slot {
            assert(queues[id.slot] is Some);
        }
    }

    /// A new subscriber starts with an empty queue, whatever the topic has
    /// carried before, and leaves the other subscribers as they were.
    pub proof fn lemma_subscribe(self, name: Seq<char>, payload_type: Seq<char>)
        requires
            self.wf(),
            self.accepts(name, payload_type),
        ensures
            self.subscribe(name, payload_type).wf(),
            self.subscribe(name, payload_type).closed == self.closed,
            self.subscribe(name, payload_type).is_subscriber(self.next_subscriber(name)),
            self.subscribe(name, payload_type).queue(self.next_subscriber(name)) == Seq::<
                Seq<u8>,
            >::empty(),
            self.subscribe(name, payload_type).has_topic(name),
            self.subscribe(name, payload_type).topic_id(name) == self.topic_id(name),
            self.subscribe(name, payload_type).type_of(name) == Some(payload_type),
            forall|id: SubscriberId| #[trigger]
                self.is_subscriber(id) ==> self.subscribe(name, payload_type).is_subscriber(id)
                    && self.subscribe(name, payload_type).queue(id) == self.queue(id),
    {
        let t = self.topic_id(name);
        let joined = self.advertise(name, payload_type);
        let after = self.subscribe(name, payload_type);
        self.lemma_topic_id_range(name);
        lemma_first_free_exists(joined.topics[t].queues);
        assert(joined.topics[t].name == name);
        assert forall|i: int, j: int| 0 <= i < j < after.topics.len() implies (
        #[trigger] after.topics[i]).name != (#[trigger] after.topics[j]).name by {
            if j < self.topics.len() {
                assert(self.topics[i].name != self.topics[j].name);
            } else {
                assert(!self.has_topic(name));
                assert(self.topics[i].name != name);
            }
        }
        assert(after.topics[t].name == name);
        after.lemma_topic_id(t);
        if self.has_topic(name) {
            assert(self.type_of(name) == Some(payload_type));
        }
    }

    /// A run of publishes on a topic appends the messages, in order, to the
    /// queue of each subscriber of that topic.
    pub proof fn lemma_publish_all(self, topic: int, messages: Seq<Seq<u8>>, id: SubscriberId)
        requires
            self.is_subscriber(id),
        ensures
            self.same_topics(self.publish_all(topic, messages)),
            self.publish_all(topic, messages).closed == self.closed,
            self.publish_all(topic, messages).is_subscriber(id),
            self.publish_all(topic, messages).queue(id) == if id.topic == topic && !self.closed {
                self.queue(id) + messages
            } else {
                self.queue(id)
            },
        decreases messages.len(),
    {
        if messages.len() == 0 {
            assert(self.queue(id) + messages =~= self.queue(id));
        } else {
            let front = messages.drop_last();
            let before = self.publish_all(topic, front);
            self.lemma_publish_all(topic, front, id);
            before.lemma_publish(topic, messages.last(), id);
            assert((self.queue(id) + front).push(messages.last()) =~= self.queue(id) + messages);
        }
    }

    /// A run of publishes changes no name and no payload type, with or
    /// without subscribers.
    pub proof fn lemma_publish_all_same_topics(self, topic: int, messages: Seq<Seq<u8>>)
        ensures
            self.same_topics(self.publish_all(topic, messages)),
            self.publish_all(topic, messages).closed == self.closed,
        decreases messages.len(),
    {
        if messages.len() > 0 {
            self.lemma_publish_all_same_topics(topic, messages.drop_last());
        }
    }

    /// Asking `n` times for the next message removes the `n` oldest messages
    /// of the queue, or all of them if it holds fewer.
    pub proof fn lemma_take_n(self, id: SubscriberId, n: nat)
        requires
            self.is_subscriber(id),
        ensures
            self.take_n(id, n).closed == self.closed,
            self.take_n(id, n).is_subscriber(id),
            self.take_n(id, n).queue(id) == if n <= self.queue(id).len() {
                self.queue(id).skip(n as int)
            } else {
                Seq::empty()
            },
        decreases n,
    {
        if n == 0 {
            assert(self.queue(id).skip(0) =~= self.queue(id));
        } else {
            let before = self.take_n(id, (n - 1) as nat);
            self.lemma_take_n(id, (n - 1) as nat);
            before.lemma_take_next(id);
            if n <= self.queue(id).len() {
                assert(self.queue(id).skip(n - 1).drop_first() =~= self.queue(id).skip(n as int));
            } else if n - 1 <= self.queue(id).len() {
                assert(self.queue(id).skip(n - 1) =~= Seq::empty());
            }
        }
    }

    /// Ordered, complete delivery. A subscriber that joins a running broker
    /// and then sees `messages` published on its topic is handed exactly
    /// those messages by its next calls, in the order published, and after
    /// them has to wait.
    pub proof fn lemma_delivery_in_order(
        self,
        name: Seq<char>,
        payload_type: Seq<char>,
        messages: Seq<Seq<u8>>,
    )
        requires
            self.wf(),
            !self.closed,
            self.accepts(name, payload_type),
        ensures
            ({
                let id = self.next_subscriber(name);
                let after = self.subscribe(name, payload_type).publish_all(id.topic, messages);
                &&& self.subscribe_result(name, payload_type) == Ok::<SubscriberId, BrokerError>(id)
                &&& after.is_subscriber(id)
                &&& after.queue(id) == messages
                &&& forall|k: nat|
                    k < messages.len() ==> (#[trigger] after.take_n(id, k)).next_result(id) == Ok::<
                        Option<Seq<u8>>,
                        BrokerError,
                    >(Some(messages[k as int]))
                &&& after.take_n(id, messages.len()).next_result(id) == Ok::<
                    Option<Seq<u8>>,
                    BrokerError,
                >(None)
            }),
    {
        let id = self.next_subscriber(name);
        let joined = self.subscribe(name, payload_type);
        let after = joined.publish_all(id.topic, messages);
        self.lemma_subscribe(name, payload_type);
        joined.lemma_publish_all(id.topic, messages, id);
        assert(Seq::<Seq<u8>>::empty() + messages =~= messages);
        assert forall|k: nat| k < messages.len() implies (#[trigger] after.take_n(
            id,
            k,
        )).next_result(id) == Ok::<Option<Seq<u8>>, BrokerError>(Some(messages[k as int])) by {
            after.lemma_take_n(id, k);
        }
        after.lemma_take_n(id, messages.len());
    }

    /// No replay. Whatever was published on a topic before a subscriber
    /// joined, the subscriber's queue holds only what was published after.
    pub proof fn lemma_no_replay(
        self,
        name: Seq<char>,
        earlier: Seq<Seq<u8>>,
        later: Seq<Seq<u8>>,
    )
        requires
            self.wf(),
            self.has_topic(name),
        ensures
            ({
                let topic = self.topic_id(name);
                let payload_type = self.topics[topic].payload_type;
                let before = self.publish_all(topic, earlier);
                let id = before.next_subscriber(name);
                let after = before.subscribe(name, payload_type).publish_all(topic, later);
                &&& before.subscribe_result(name, payload_type) == Ok::<SubscriberId, BrokerError>(
                    id,
                )
                &&& after.is_subscriber(id)
                &&& after.queue(id) == if self.closed {
                    Seq::empty()
                } else {
                    later
                }
            }),
    {
        let topic = self.topic_id(name);
        let payload_type = self.topics[topic].payload_type;
        let before = self.publish_all(topic, earlier);
        self.lemma_publish_all_same_topics(topic, earlier);
        self.lemma_same_topics(before, name);
        let id = before.next_subscriber(name);
        let joined = before.subscribe(name, payload_type);
        before.lemma_subscribe(name, payload_type);
        joined.lemma_publish_all(topic, later, id);
        assert(Seq::<Seq<u8>>::empty() + later =~= later);
    }

    /// Fire and forget. Publishing on a topic that has no subscriber
    /// changes nothing: the message is dropped, not kept for later.
    pub proof fn lemma_publish_unheard(self, topic: int, message: Seq<u8>)
        requires
            self.is_topic(topic),
            self.topics[topic].no_subscribers(),
        ensures
            self.publish(topic, message) == self,
    {
        assert(self.topics[topic].fan_out(message).queues =~= self.topics[topic].queues);
        assert(self.publish(topic, message).topics =~= self.topics);
    }
}

/// The capability to publish on one topic. Any number of publishers may hold
/// one for the same topic.
#[derive(Debug, Clone, Copy, PartialEq, Eq)]
pub struct PublisherHandle {
    topic: usize,
}

impl View for PublisherHandle {
    type V = int;

    /// The index of the topic published on.
    closed spec fn view(&self) -> int {
        self.topic as int
    }
}

/// One subscription and the sole owner of its queue.
#[derive(Debug, PartialEq, Eq)]
pub struct SubscriberHandle {
    topic: usize,
    slot: usize,
}

impl View for SubscriberHandle {
    type V = SubscriberId;

    closed spec fn view(&self) -> SubscriberId {
        SubscriberId { topic: self.topic as int, slot: self.slot as int }
    }
}

/// The messages of a queue, oldest first.
spec fn queue_model(q: VecDeque<Vec<u8>>) -> Seq<Seq<u8>> {
    Seq::new(q@.len(), |i: int| q@[i]@)
}

spec fn slot_model(slot: Option<VecDeque<Vec<u8>>>) -> Option<Seq<Seq<u8>>> {
    match slot {
        Some(q) => Some(queue_model(q)),
        None => None,
    }
}

fn copy_of(message: &Vec<u8>) -> (r: Vec<u8>)
    ensures
        r@ == message@,
{
    let r = message.clone();
    assert(r@ =~= message@);
    r
}

struct Topic {
    name: String,
    payload_type: String,
    queues: Vec<Option<VecDeque<Vec<u8>>>>,
}

impl Topic {
    spec fn model(self) -> TopicState {
        TopicState {
            name: self.name@,
            payload_type: self.payload_type@,
            queues: Seq::new(self.queues@.len(), |j: int| slot_model(self.queues@[j])),
        }
    }

    fn fan_out(&mut self, message: &Vec<u8>)
        ensures
            final(self).model() == old(self).model().fan_out(message@),
    {
        let n = self.queues.len();
        let mut j: usize = 0;
        while j < n
            invariant
                j <= n,
                n == self.queues.len(),
                n == old(self).queues.len(),
                self.name == old(self).name,
                self.payload_type == old(self).payload_type,
                forall|k: int|
                    0 <= k < j ==> slot_model(#[trigger] self.queues[k]) == old(
                        self,
                    ).model().fan_out(message@).queues[k],
                forall|k: int| j <= k < n ==> (#[trigger] self.queues[k]) == old(self).queues[k],
            decreases n - j,
        {
            let ghost before = self.queues[j as int];
            match &mut self.queues[j] {
                Some(q) => {
                    q.push_back(copy_of(message));
                },
                None => {},
            }
            proof {
                if before is Some {
                    assert(queue_model(self.queues[j as int].unwrap()) =~= queue_model(
                        before.unwrap(),
                    ).push(message@));
                }
            }
            j += 1;
        }
        assert(self.model().queues =~= old(self).model().fan_out(message@).queues);
    }

    fn add_subscriber(&mut self) -> (slot: usize)
        ensures
            slot == first_free(old(self).model().queues),
            final(self).model() == old(self).model().with_subscriber(),
    {
        let ghost before = self.model().queues;
        proof {
            lemma_first_free_exists(before);
            lemma_first_free_exists(self.queues@);
            lemma_first_free_is(before, first_free(self.queues@));
        }
        let queue: VecDeque<Vec<u8>> = VecDeque::new();
        assert(queue_model(queue) =~= Seq::empty());
        let slot = claim(&mut self.queues, queue);
        assert(self.model().queues =~= put(before, slot as int, Seq::empty()));
        slot
    }

    fn pop_front(&mut self, slot: usize) -> (r: Option<Vec<u8>>)
        requires
            taken(old(self).model().queues, slot as int),
        ensures
            final(self).model() == old(self).model().pop_front(slot as int),
            match r {
                Some(m) => {
                    &&& old(self).model().queues[slot as int].unwrap().len() > 0
                    &&& m@ == old(self).model().queues[slot as int].unwrap()[0]
                },
                None => old(self).model().queues[slot as int].unwrap().len() == 0,
            },
    {
        let ghost before = self.queues[slot as int];
        let r = match &mut self.queues[slot] {
            Some(q) => q.pop_front(),
            None => None,
        };
        proof {
            if r is Some {
                assert(queue_model(self.queues[slot as int].unwrap()) =~= queue_model(
                    before.unwrap(),
                ).drop_first());
            }
            assert(self.model().queues =~= old(self).model().pop_front(slot as int).queues);
        }
        r
    }

    fn remove_subscriber(&mut self, slot: usize)
        requires
            slot < old(self).queues.len(),
        ensures
            final(self).model() == old(self).model().without_subscriber(slot as int),
    {
        self.queues[slot] = None;
        assert(self.model().queues =~= old(self).model().without_subscriber(slot as int).queues);
    }
}

/// The topic registry.
pub struct TopicRegistry {
    topics: Vec<Topic>,
    closed: bool,
}

impl View for TopicRegistry {
    type V = TopicsState;

    closed spec fn view(&self) -> TopicsState {
        TopicsState {
            topics: Seq::new(self.topics@.len(), |i: int| self.topics@[i].model()),
            closed: self.closed,
        }
    }
}

impl TopicRegistry {
    /// The registry's invariant: topic names are unique.
    pub open spec fn wf(&self) -> bool {
        self@.wf()
    }

    /// An empty registry.
    pub fn new() -> (r: TopicRegistry)
        ensures
            r.wf(),
            r@ == TopicsState::new(),
    {
        let r = TopicRegistry { topics: Vec::new(), closed: false };
        assert(r@.topics =~= Seq::empty());
        r
    }

    /// Finds the topic called `name`.
    fn find(&self, name: &String) -> (r: Option<usize>)
        requires
            self.wf(),
        ensures
            match r {
                Some(i) => self@.has_topic(name@) && i == self@.topic_id(name@) && i
                    < self.topics.len(),
                None => !self@.has_topic(name@),
            },
    {
        let n = self.topics.len();
        let mut i: usize = 0;
        while i < n
            invariant
                self.wf(),
                i <= n,
                n == self.topics.len(),
                forall|k: int| 0 <= k < i ==> (#[trigger] self@.topics[k]).name != name@,
            decreases n - i,
        {
            if self.topics[i].name == *name {
                proof {
                    assert(self@.topics[i as int].name == name@);
                    self@.lemma_topic_id(i as int);
                }
                return Some(i);
            }
            i += 1;
        }
        None
    }

    /// Registers a publisher of `payload_type` on the topic `name`, creating the
    /// topic when it does not exist. Fails with `TypeMismatch`, changing
    /// nothing, when the topic exists with another payload type.
    pub fn advertise(&mut self, name: &str, payload_type: &str) -> (r: Result<
        PublisherHandle,
        BrokerError,
    >)
        requires
            old(self).wf(),
        ensures
            final(self).wf(),
            final(self)@ == old(self)@.advertise(name@, payload_type@),
            match r {
                Ok(h) => {
                    &&& old(self)@.advertise_result(name@, payload_type@) == Ok::<
                        int,
                        BrokerError,
                    >(h@)
                    &&& final(self)@.is_topic(h@)
                    &&& final(self)@.has_topic(name@)
                    &&& final(self)@.topic_id(name@) == h@
                    &&& final(self)@.type_of(name@) == Some(payload_type@)
                },
                Err(e) => old(self)@.advertise_result(name@, payload_type@) == Err::<
                    int,
                    BrokerError,
                >(e),
            },
    {
        let name = name.to_owned();
        let payload_type = payload_type.to_owned();
        match self.find(&name) {
            Some(i) => {
                if self.topics[i].payload_type == payload_type {
                    assert(self@.topics[i as int].payload_type == payload_type@);
                    Ok(PublisherHandle { topic: i })
                } else {
                    Err(BrokerError::TypeMismatch)
                }
            },
            None => {
                let i = self.topics.len();
                self.topics.push(Topic { name, payload_type, queues: Vec::new() });
                proof {
                    assert(self.topics[i as int].model().queues =~= Seq::empty());
                    assert(self@.topics =~= old(self)@.topics.push(
                        TopicState::fresh(name@, payload_type@),
                    ));
                    assert forall|a: int, b: int| 0 <= a < b < self@.topics.len() implies (
                    #[trigger] self@.topics[a]).name != (#[trigger] self@.topics[b]).name by {
                        if b < i {
                            assert(old(self)@.topics[a].name != old(self)@.topics[b].name);
                        } else {
                            assert(old(self)@.topics[a].name != name@);
                        }
                    }
                    self@.lemma_topic_id(i as int);
                }
                Ok(PublisherHandle { topic: i })
            },
        }
    }

    /// Creates a subscriber of `payload_type` on the topic `name`, creating the
    /// topic when it does not exist. The new subscriber's queue is empty: it
    /// sees only what is published from now on. Fails with `TypeMismatch`,
    /// changing nothing, when the topic exists with another payload type.
    pub fn subscribe(&mut self, name: &str, payload_type: &str) -> (r: Result<
        SubscriberHandle,
        BrokerError,
    >)
        requires
            old(self).wf(),
        ensures
            final(self).wf(),
            final(self)@ == old(self)@.subscribe(name@, payload_type@),
            match r {
                Ok(h) => {
                    &&& old(self)@.subscribe_result(name@, payload_type@) == Ok::<
                        SubscriberId,
                        BrokerError,
                    >(h@)
                    &&& final(self)@.is_subscriber(h@)
                    &&& final(self)@.queue(h@) == Seq::<Seq<u8>>::empty()
                    &&& final(self)@.has_topic(name@)
                    &&& final(self)@.topic_id(name@) == h@.topic
                    &&& final(self)@.type_of(name@) == Some(payload_type@)
                },
                Err(e) => old(self)@.subscribe_result(name@, payload_type@) == Err::<
                    SubscriberId,
                    BrokerError,
                >(e),
            },
    {
        match self.advertise(name, payload_type) {
            Ok(publisher) => {
                let ghost joined = self@;
                let slot = self.topics[publisher.topic].add_subscriber();
                proof {
                    old(self)@.lemma_subscribe(name@, payload_type@);
                    let t = publisher.topic as int;
                    lemma_first_free_exists(joined.topics[t].queues);
                    assert(self@.topics =~= joined.topics.update(
                        t,
                        joined.topics[t].with_subscriber(),
                    ));
                }
                Ok(SubscriberHandle { topic: publisher.topic, slot })
            },
            Err(e) => Err(e),
        }
    }

    /// Whether `publisher` names a topic of this registry.
    pub fn has_publisher(&self, publisher: &PublisherHandle) -> (r: bool)
        ensures
            r == self@.is_topic(publisher@),
    {
        publisher.topic < self.topics.len()
    }

    /// Whether `subscriber` is a live subscription of this registry.
    pub fn has_subscriber(&self, subscriber: &SubscriberHandle) -> (r: bool)
        ensures
            r == self@.is_subscriber(subscriber@),
    {
        subscriber.topic < self.topics.len() && subscriber.slot
            < self.topics[subscriber.topic].queues.len()
            && self.topics[subscriber.topic].queues[subscriber.slot].is_some()
    }

    /// Appends a copy of `message` to the queue of every subscriber of the
    /// publisher's topic. With no subscriber the message is dropped. Never
    /// fails and never waits.
    pub fn publish(&mut self, publisher: &PublisherHandle, message: &Vec<u8>)
        requires
            old(self).wf(),
            old(self)@.is_topic(publisher@),
        ensures
            final(self).wf(),
            final(self)@ == old(self)@.publish(publisher@, message@),
    {
        if !self.closed {
            self.topics[publisher.topic].fan_out(message);
            assert(self@.topics =~= old(self)@.topics.update(
                publisher@,
                old(self)@.topics[publisher@].fan_out(message@),
            ));
        }
    }

    /// Takes the subscriber's oldest pending message. `Ok(None)` means that
    /// nothing is pending and the subscriber has to wait; `ChannelClosed`
    /// that nothing is pending and the broker is shut down.
    pub fn try_next(&mut self, subscriber: &SubscriberHandle) -> (r: Result<
        Option<Vec<u8>>,
        BrokerError,
    >)
        requires
            old(self).wf(),
            old(self)@.is_subscriber(subscriber@),
        ensures
            final(self).wf(),
            final(self)@ == old(self)@.take_next(subscriber@),
            final(self)@.is_subscriber(subscriber@),
            match r {
                Ok(Some(m)) => old(self)@.next_result(subscriber@) == Ok::<
                    Option<Seq<u8>>,
                    BrokerError,
                >(Some(m@)),
                Ok(None) => old(self)@.next_result(subscriber@) == Ok::<
                    Option<Seq<u8>>,
                    BrokerError,
                >(None),
                Err(e) => old(self)@.next_result(subscriber@) == Err::<
                    Option<Seq<u8>>,
                    BrokerError,
                >(e),
            },
    {
        let taken_message = self.topics[subscriber.topic].pop_front(subscriber.slot);
        assert(self@.topics =~= old(self)@.topics.update(
            subscriber@.topic,
            old(self)@.topics[subscriber@.topic].pop_front(subscriber@.slot),
        ));
        match taken_message {
            Some(m) => Ok(Some(m)),
            None => {
                if self.closed {
                    Err(BrokerError::ChannelClosed)
                } else {
                    Ok(None)
                }
            },
        }
    }

    /// The number of messages waiting for the subscriber.
    pub fn pending(&self, subscriber: &SubscriberHandle) -> (n: usize)
        requires
            self@.is_subscriber(subscriber@),
        ensures
            n == self@.queue(subscriber@).len(),
    {
        match &self.topics[subscriber.topic].queues[subscriber.slot] {
            Some(q) => q.len(),
            None => 0,
        }
    }

    /// Ends the subscription and releases its queue with whatever it holds.
    pub fn unsubscribe(&mut self, subscriber: SubscriberHandle)
        requires
            old(self).wf(),
            old(self)@.is_subscriber(subscriber@),
        ensures
            final(self).wf(),
            final(self)@ == old(self)@.unsubscribe(subscriber@),
            !final(self)@.is_subscriber(subscriber@),
    {
        self.topics[subscriber.topic].remove_subscriber(subscriber.slot);
        assert(self@.topics =~= old(self)@.topics.update(
            subscriber@.topic,
            old(self)@.topics[subscriber@.topic].without_subscriber(subscriber@.slot),
        ));
    }

    /// Shuts the broker down: nothing is delivered from now on, and a
    /// subscriber that has drained its queue is told `ChannelClosed`.
    pub fn shutdown(&mut self)
        ensures
            final(self)@ == old(self)@.shutdown(),
            old(self).wf() ==> final(self).wf(),
    {
        self.closed = true;
        assert(self@.topics =~= old(self)@.topics);
    }

    /// Whether the broker has been shut down.
    pub fn is_closed(&self) -> (r: bool)
        ensures
            r == self@.closed,
    {
        self.closed
    }

    /// The payload type that the topic `name` is bound to, if it exists.
    pub fn topic_type(&self, name: &str) -> (r: Option<String>)
        requires
            self.wf(),
        ensures
            match r {
                Some(t) => self@.type_of(name@) == Some(t@),
                None => self@.type_of(name@) is None,
            },
    {
        let name = name.to_owned();
        match self.find(&name) {
            Some(i) => Some(self.topics[i].payload_type.clone()),
            None => None,
        }
    }
}

} // verus!
