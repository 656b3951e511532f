//! The client handle: what node code may ask of a broker, whatever carries
//! the messages.
//!
//! A backend keeps topics, services and a clock; the contract says what each
//! request does to them. Node code written against the trait runs unchanged
//! on every backend that keeps the contract.

use crate::clock::{ClockMode, ClockState};
use crate::error::BrokerError;
use crate::services::{answers, result_view, total, ServicesState};
use crate::topics::{SubscriberId, TopicsState};
use vstd::prelude::*;

verus! {

/// The state of a broker: that of its topics, its services and its clock.
pub struct BrokerState<H> {
    pub topics: TopicsState,
    pub services: ServicesState<H>,
    pub clock: ClockState,
}

impl<H: Fn(Vec<u8>) -> Result<Vec<u8>, String>> BrokerState<H> {
    /// A broker with no topic, no service and no timer, at time zero.
    pub open spec fn new(mode: ClockMode) -> BrokerState<H> {
        BrokerState {
            topics: TopicsState::new(),
            services: ServicesState::new(),
            clock: ClockState::new(mode),
        }
    }

    /// Each part is well formed.
    pub open spec fn wf(self) -> bool {
        self.topics.wf() && self.services.wf() && self.clock.wf()
    }

    /// This state with `topics` in place of its own.
    pub open spec fn with_topics(self, topics: TopicsState) -> BrokerState<H> {
        BrokerState { topics, ..self }
    }

    /// This state with `services` in place of its own.
    pub open spec fn with_services(self, services: ServicesState<H>) -> BrokerState<H> {
        BrokerState { services, ..self }
    }

    /// This state with `clock` in place of its own.
    pub open spec fn with_clock(self, clock: ClockState) -> BrokerState<H> {
        BrokerState { clock, ..self }
    }
}

/// The payloads of a run of messages.
pub open spec fn payloads(messages: Seq<Vec<u8>>) -> Seq<Seq<u8>> {
    Seq::new(messages.len(), |i: int| messages[i]@)
}

/// The node-facing surface of a broker.
pub trait ClientHandle {
    /// The type of the service handlers that the backend takes.
    type Handler: Fn(Vec<u8>) -> Result<Vec<u8>, String>;

    /// The capability to publish on one topic, known by the topic's index.
    type Publisher: View<V = int>;

    /// One subscription, known by its topic and its slot.
    type Subscriber: View<V = SubscriberId>;

    /// A registration as the provider of one service, known by the
    /// service's index.
    type Provider: View<V = int>;

    /// The means to call one service, known by the service's index.
    type Client: View<V = int>;

    /// The state of the broker behind the handle.
    spec fn state(&self) -> BrokerState<Self::Handler>;

    /// Registers a publisher of `payload_type` on the topic `name`, creating
    /// the topic when it does not exist. Fails with `TypeMismatch`, changing
    /// nothing, when the topic exists with another payload type.
    fn advertise(&mut self, name: &str, payload_type: &str) -> (r: Result<
        Self::Publisher,
        BrokerError,
    >)
        requires
            old(self).state().wf(),
        ensures
            final(self).state().wf(),
            final(self).state() == old(self).state().with_topics(
                old(self).state().topics.advertise(name@, payload_type@),
            ),
            match r {
                Ok(h) => {
                    &&& old(self).state().topics.advertise_result(name@, payload_type@) == Ok::<
                        int,
                        BrokerError,
                    >(h@)
                    &&& final(self).state().topics.is_topic(h@)
                    &&& final(self).state().topics.has_topic(name@)
                    &&& final(self).state().topics.topic_id(name@) == h@
                    &&& final(self).state().topics.type_of(name@) == Some(payload_type@)
                },
                Err(e) => old(self).state().topics.advertise_result(name@, payload_type@) == Err::<
                    int,
                    BrokerError,
                >(e),
            },
    ;

    /// Creates a subscriber of `payload_type` on the topic `name`, creating
    /// the topic when it does not exist. The subscriber starts with an empty
    /// queue. Fails with `TypeMismatch`, changing nothing, when the topic
    /// exists with another payload type.
    fn subscribe(&mut self, name: &str, payload_type: &str) -> (r: Result<
        Self::Subscriber,
        BrokerError,
    >)
        requires
            old(self).state().wf(),
        ensures
            final(self).state().wf(),
            final(self).state() == old(self).state().with_topics(
                old(self).state().topics.subscribe(name@, payload_type@),
            ),
            match r {
                Ok(h) => {
                    &&& old(self).state().topics.subscribe_result(name@, payload_type@) == Ok::<
                        SubscriberId,
                        BrokerError,
                    >(h@)
                    &&& final(self).state().topics.is_subscriber(h@)
                    &&& final(self).state().topics.queue(h@) == Seq::<Seq<u8>>::empty()
                    &&& final(self).state().topics.has_topic(name@)
                    &&& final(self).state().topics.topic_id(name@) == h@.topic
                    &&& final(self).state().topics.type_of(name@) == Some(payload_type@)
                },
                Err(e) => old(self).state().topics.subscribe_result(name@, payload_type@) == Err::<
                    SubscriberId,
                    BrokerError,
                >(e),
            },
    ;

    /// Appends a copy of `message` to the queue of every subscriber of the
    /// publisher's topic. With no subscriber the message is dropped. Never
    /// fails and never waits.
    fn publish(&mut self, publisher: &Self::Publisher, message: &Vec<u8>)
        requires
            old(self).state().wf(),
            old(self).state().topics.is_topic(publisher@),
        ensures
            final(self).state().wf(),
            final(self).state() == old(self).state().with_topics(
                old(self).state().topics.publish(publisher@, message@),
            ),
    ;

    /// Takes the subscriber's oldest pending message. `Ok(None)` means that
    /// nothing is pending and the subscriber has to wait; `ChannelClosed`
    /// that nothing is pending and the broker is shut down.
    fn try_next(&mut self, subscriber: &Self::Subscriber) -> (r: Result<
        Option<Vec<u8>>,
        BrokerError,
    >)
        requires
            old(self).state().wf(),
            old(self).state().topics.is_subscriber(subscriber@),
        ensures
            final(self).state().wf(),
            final(self).state() == old(self).state().with_topics(
                old(self).state().topics.take_next(subscriber@),
            ),
            final(self).state().topics.is_subscriber(subscriber@),
            match r {
                Ok(Some(m)) => old(self).state().topics.next_result(subscriber@) == Ok::<
                    Option<Seq<u8>>,
                    BrokerError,
                >(Some(m@)),
                Ok(None) => old(self).state().topics.next_result(subscriber@) == Ok::<
                    Option<Seq<u8>>,
                    BrokerError,
                >(None),
                Err(e) => old(self).state().topics.next_result(subscriber@) == Err::<
                    Option<Seq<u8>>,
                    BrokerError,
                >(e),
            },
    ;

    /// Ends the subscription and releases its queue with whatever it holds.
    fn unsubscribe(&mut self, subscriber: Self::Subscriber)
        requires
            old(self).state().wf(),
            old(self).state().topics.is_subscriber(subscriber@),
        ensures
            final(self).state().wf(),
            final(self).state() == old(self).state().with_topics(
                old(self).state().topics.unsubscribe(subscriber@),
            ),
            !final(self).state().topics.is_subscriber(subscriber@),
    ;

    /// Registers `handler` as the provider of the service `name`. Fails with
    /// `AlreadyRegistered`, changing nothing, when the name has a provider.
    fn advertise_service(&mut self, name: &str, handler: Self::Handler) -> (r: Result<
        Self::Provider,
        BrokerError,
    >)
        requires
            old(self).state().wf(),
            total(handler),
        ensures
            final(self).state().wf(),
            final(self).state() == old(self).state().with_services(
                old(self).state().services.advertise_service(name@, handler),
            ),
            match r {
                Ok(p) => {
                    &&& old(self).state().services.advertise_service_result(name@) == Ok::<
                        int,
                        BrokerError,
                    >(p@)
                    &&& final(self).state().services.is_provider(p@)
                },
                Err(e) => old(self).state().services.advertise_service_result(name@) == Err::<
                    int,
                    BrokerError,
                >(e),
            },
    ;

    /// Unregisters the provider. The name is free for another provider, and
    /// every call still waiting on the service ends with `ProviderGone`.
    fn unadvertise_service(&mut self, provider: Self::Provider)
        requires
            old(self).state().wf(),
            old(self).state().services.is_provider(provider@),
        ensures
            final(self).state().wf(),
            final(self).state() == old(self).state().with_services(
                old(self).state().services.unadvertise_service(provider@),
            ),
    ;

    /// Looks the service `name` up for calling. Fails with `NoProvider` when
    /// no provider is registered now: calls are not kept for a provider to
    /// come.
    fn service_client(&self, name: &str) -> (r: Result<Self::Client, BrokerError>)
        requires
            self.state().wf(),
        ensures
            match r {
                Ok(client) => {
                    &&& self.state().services.service_client_result(name@) == Ok::<
                        int,
                        BrokerError,
                    >(client@)
                    &&& self.state().services.is_provider(client@)
                },
                Err(e) => self.state().services.service_client_result(name@) == Err::<
                    int,
                    BrokerError,
                >(e),
            },
    ;

    /// Calls the service: runs the registered handler once on `request` and
    /// returns what it gave, a failure of the handler as `Application`.
    /// Fails with `NoProvider` when no provider is registered now.
    fn call(&self, client: &Self::Client, request: Vec<u8>) -> (r: Result<Vec<u8>, BrokerError>)
        requires
            self.state().wf(),
            self.state().services.is_service(client@),
        ensures
            match self.state().services.services[client@].handler {
                Some(h) => answers(h, request@, result_view(r)),
                None => r == Err::<Vec<u8>, BrokerError>(BrokerError::NoProvider),
            },
    ;

    /// Takes every message that is pending for the subscriber, oldest
    /// first, and leaves its queue empty.
    fn take_pending(&mut self, subscriber: &Self::Subscriber) -> (messages: Vec<Vec<u8>>)
        requires
            old(self).state().wf(),
            old(self).state().topics.is_subscriber(subscriber@),
        ensures
            final(self).state().wf(),
            payloads(messages@) == old(self).state().topics.queue(subscriber@),
            final(self).state() == old(self).state().with_topics(
                old(self).state().topics.take_n(subscriber@, messages@.len()),
            ),
            final(self).state().topics.is_subscriber(subscriber@),
            final(self).state().topics.queue(subscriber@) == Seq::<Seq<u8>>::empty(),
    {
        let ghost start = self.state();
        let ghost id = subscriber@;
        let mut messages: Vec<Vec<u8>> = Vec::new();
        proof {
            start.topics.lemma_take_n(id, 0);
            assert(payloads(messages@) =~= start.topics.queue(id).take(0));
        }
        loop
            invariant
                start == old(self).state(),
                id == subscriber@,
                start.wf(),
                start.topics.is_subscriber(id),
                self.state().wf(),
                self.state() == start.with_topics(start.topics.take_n(id, messages@.len())),
                messages@.len() <= start.topics.queue(id).len(),
                payloads(messages@) == start.topics.queue(id).take(messages@.len() as int),
            ensures
                messages@.len() == start.topics.queue(id).len(),
                self.state().wf(),
                self.state() == start.with_topics(start.topics.take_n(id, messages@.len())),
                payloads(messages@) == start.topics.queue(id),
            decreases start.topics.queue(id).len() - messages@.len(),
        {
            let ghost taken = messages@;
            let ghost before = self.state().topics;
            proof {
                start.topics.lemma_take_n(id, taken.len());
                before.lemma_take_next(id);
            }
            match self.try_next(subscriber) {
                Ok(Some(m)) => {
                    messages.push(m);
                    proof {
                        let queue = start.topics.queue(id);
                        assert(before.queue(id)[0] == queue[taken.len() as int]);
                        assert(payloads(messages@) =~= queue.take(messages@.len() as int));
                    }
                },
                _ => {
                    proof {
                        let queue = start.topics.queue(id);
                        assert(before.queue(id).len() == 0);
                        before.lemma_take_next_empty(id);
                        assert(queue.take(queue.len() as int) =~= queue);
                    }
                    break ;
                },
            }
        }
        proof {
            start.topics.lemma_take_n(id, messages@.len());
            assert(start.topics.queue(id).skip(messages@.len() as int) =~= Seq::empty());
        }
        messages
    }
}

} // verus!
