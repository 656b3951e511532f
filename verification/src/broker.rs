//! The broker: topics, services and the clock behind one handle.
//!
//! This is the only object that node code touches. It owns the two
//! registries and the clock; whoever holds it, or a reference to it, works
//! on the same topics and services. Each operation touches one of the three
//! parts and leaves the other two as they are.

use crate::clock::{ClockMode, Timer, VirtualClock};
use crate::error::BrokerError;
use crate::handle::{BrokerState, ClientHandle};
use crate::services::{
    answers, result_view, waiting_on, CallHandle, CallState, ProviderHandle, ServiceClient,
    ServiceRegistry,
};
use crate::topics::{PublisherHandle, SubscriberHandle, TopicRegistry};
use vstd::prelude::*;

verus! {

/// The in-memory broker, for service handlers of type `H`.
///
/// The broker cannot be cloned: a copy would be a second set of registries,
/// and what is published on one would not be seen on the other. Tasks that
/// share a broker share this one value.
pub struct MockBroker<H> {
    topics: TopicRegistry,
    services: ServiceRegistry<H>,
    clock: VirtualClock,
}

impl<H> View for MockBroker<H> {
    type V = BrokerState<H>;

    closed spec fn view(&self) -> BrokerState<H> {
        BrokerState { topics: self.topics@, services: self.services@, clock: self.clock@ }
    }
}

impl<H: Fn(Vec<u8>) -> Result<Vec<u8>, String>> MockBroker<H> {
    /// The broker's invariant: that of each of its parts.
    pub open spec fn wf(&self) -> bool {
        self@.wf()
    }

    /// A broker with no topic, no service and no timer, whose clock stands
    /// at zero in the given mode.
    pub fn new(mode: ClockMode) -> (r: MockBroker<H>)
        ensures
            r.wf(),
            r@ == BrokerState::<H>::new(mode),
    {
        MockBroker {
            topics: TopicRegistry::new(),
            services: ServiceRegistry::new(),
            clock: VirtualClock::new(mode),
        }
    }

    /// A broker whose clock moves only on command.
    pub fn paused() -> (r: MockBroker<H>)
        ensures
            r.wf(),
            r@ == BrokerState::<H>::new(ClockMode::Paused),
    {
        MockBroker::new(ClockMode::Paused)
    }

    /// Whether `publisher` names a topic of this broker.
    pub fn has_publisher(&self, publisher: &PublisherHandle) -> (r: bool)
        ensures
            r == self@.topics.is_topic(publisher@),
    {
        self.topics.has_publisher(publisher)
    }

    /// Whether `subscriber` is a live subscription of this broker.
    pub fn has_subscriber(&self, subscriber: &SubscriberHandle) -> (r: bool)
        ensures
            r == self@.topics.is_subscriber(subscriber@),
    {
        self.topics.has_subscriber(subscriber)
    }

    /// The number of messages waiting for the subscriber.
    pub fn pending(&self, subscriber: &SubscriberHandle) -> (n: usize)
        requires
            self@.topics.is_subscriber(subscriber@),
        ensures
            n == self@.topics.queue(subscriber@).len(),
    {
        self.topics.pending(subscriber)
    }

    /// Shuts the topic side down: nothing is delivered from now on, and a
    /// subscriber that has drained its queue is told `ChannelClosed`.
    /// Services and the clock go on as before.
    pub fn shutdown(&mut self)
        requires
            old(self).wf(),
        ensures
            final(self).wf(),
            final(self)@ == old(self)@.with_topics(old(self)@.topics.shutdown()),
    {
        self.topics.shutdown();
    }

    /// Whether the topic side has been shut down.
    pub fn is_closed(&self) -> (r: bool)
        ensures
            r == self@.topics.closed,
    {
        self.topics.is_closed()
    }

    /// Whether `provider` is the registration of an active provider here.
    pub fn has_provider(&self, provider: &ProviderHandle) -> (r: bool)
        ensures
            r == self@.services.is_provider(provider@),
    {
        self.services.has_provider(provider)
    }

    /// Whether `client` names a service of this broker.
    pub fn has_client(&self, client: &ServiceClient) -> (r: bool)
        ensures
            r == self@.services.is_service(client@),
    {
        self.services.has_client(client)
    }

    /// Whether `call` is an outstanding call of this broker.
    pub fn has_call(&self, call: &CallHandle) -> (r: bool)
        ensures
            r == self@.services.is_call(call@),
    {
        self.services.has_call(call)
    }

    /// Starts a call of the service with `request` and leaves it waiting
    /// for the handler. Fails with `NoProvider`, changing nothing, when no
    /// provider is registered now.
    pub fn start_call(&mut self, client: &ServiceClient, request: Vec<u8>) -> (r: Result<
        CallHandle,
        BrokerError,
    >)
        requires
            old(self).wf(),
            old(self)@.services.is_service(client@),
        ensures
            final(self).wf(),
            final(self)@ == old(self)@.with_services(
                old(self)@.services.start_call(client@, request@),
            ),
            match r {
                Ok(call) => {
                    &&& old(self)@.services.start_call_result(client@) == Ok::<int, BrokerError>(
                        call@,
                    )
                    &&& final(self)@.services.is_waiting(call@)
                },
                Err(e) => old(self)@.services.start_call_result(client@) == Err::<int, BrokerError>(
                    e,
                ),
            },
    {
        self.services.start_call(client, request)
    }

    /// Runs the handler for `call` if it has not run yet, and keeps the
    /// outcome for the caller.
    pub fn run_call(&mut self, call: &CallHandle)
        requires
            old(self).wf(),
            old(self)@.services.is_call(call@),
        ensures
            final(self).wf(),
            final(self)@.services.is_call(call@),
            !final(self)@.services.is_waiting(call@),
            final(self)@ == old(self)@.with_services(old(self)@.services.complete(
                    call@,
                    final(self)@.services.poll_result(call@).unwrap(),
                )),
            old(self)@.services.calls[call@] matches Some(CallState::Waiting { service, request })
                ==> answers(
                old(self)@.services.services[service].handler.unwrap(),
                request,
                final(self)@.services.poll_result(call@).unwrap(),
            ),
    {
        self.services.run_call(call);
    }

    /// Runs the handler of the provider's service for every call that waits
    /// on it, and returns how many calls were answered.
    pub fn run_pending(&mut self, provider: &ProviderHandle) -> (answered: usize)
        requires
            old(self).wf(),
            old(self)@.services.is_provider(provider@),
        ensures
            final(self).wf(),
            old(self)@.services.served(final(self)@.services, provider@),
            answered == waiting_on(old(self)@.services.calls, provider@),
            final(self)@.topics == old(self)@.topics,
            final(self)@.clock == old(self)@.clock,
    {
        self.services.run_pending(provider)
    }

    /// Asks for the outcome of `call`. `None` means that the handler has
    /// still to run. Once the outcome is handed over the call is finished
    /// and its handle is spent.
    pub fn poll_call(&mut self, call: &CallHandle) -> (r: Option<Result<Vec<u8>, BrokerError>>)
        requires
            old(self).wf(),
            old(self)@.services.is_call(call@),
        ensures
            final(self).wf(),
            final(self)@ == old(self)@.with_services(old(self)@.services.poll_call(call@)),
            match r {
                Some(result) => {
                    &&& old(self)@.services.poll_result(call@) == Some(result_view(result))
                    &&& !final(self)@.services.is_call(call@)
                },
                None => {
                    &&& old(self)@.services.poll_result(call@) is None
                    &&& final(self)@.services.is_call(call@)
                },
            },
    {
        self.services.poll_call(call)
    }

    /// Gives the call up and releases its slot.
    pub fn abandon_call(&mut self, call: CallHandle)
        requires
            old(self).wf(),
            old(self)@.services.is_call(call@),
        ensures
            final(self).wf(),
            final(self)@ == old(self)@.with_services(old(self)@.services.abandon_call(call@)),
            !final(self)@.services.is_call(call@),
    {
        self.services.abandon_call(call);
    }

    /// The present time of the broker's clock.
    pub fn now(&self) -> (r: u64)
        ensures
            r == self@.clock.now,
    {
        self.clock.now()
    }

    /// Sets `task` to wake `delay` from now.
    pub fn sleep(&mut self, task: u64, delay: u64)
        requires
            old(self).wf(),
            old(self)@.clock.now + delay <= u64::MAX,
        ensures
            final(self).wf(),
            final(self)@ == old(self)@.with_clock(old(self)@.clock.schedule(task, delay)),
    {
        self.clock.schedule(task, delay);
    }

    /// Sets `task` to wake at `deadline`, or at once if `deadline` is past.
    pub fn sleep_until(&mut self, task: u64, deadline: u64)
        requires
            old(self).wf(),
        ensures
            final(self).wf(),
            final(self)@ == old(self)@.with_clock(old(self)@.clock.schedule_at(task, deadline)),
    {
        self.clock.schedule_at(task, deadline);
    }

    /// Drops every timer of `task` and returns how many there were.
    pub fn cancel_sleep(&mut self, task: u64) -> (dropped: usize)
        requires
            old(self).wf(),
        ensures
            final(self).wf(),
            final(self)@ == old(self)@.with_clock(old(self)@.clock.cancel(task)),
            dropped == old(self)@.clock.timers.len() - final(self)@.clock.timers.len(),
    {
        self.clock.cancel(task)
    }

    /// Moves the clock forward by `by` and returns the timers that fire, in
    /// firing order.
    pub fn advance(&mut self, by: u64) -> (fired: Vec<Timer>)
        requires
            old(self).wf(),
            old(self)@.clock.now + by <= u64::MAX,
        ensures
            final(self).wf(),
            final(self)@ == old(self)@.with_clock(old(self)@.clock.advance(by)),
            fired@ == old(self)@.clock.due((old(self)@.clock.now + by) as u64),
    {
        self.clock.advance(by)
    }

    /// Fires the first pending timer if it is due at `limit`, moving the
    /// clock to its deadline.
    pub fn fire_next(&mut self, limit: u64) -> (r: Option<Timer>)
        requires
            old(self).wf(),
        ensures
            final(self).wf(),
            final(self)@ == old(self)@.with_clock(old(self)@.clock.fire_next(limit)),
            r == if old(self)@.clock.has_due(limit) {
                Some(old(self)@.clock.timers[0])
            } else {
                None
            },
    {
        self.clock.fire_next(limit)
    }

    /// Fires every pending timer, moving the clock to the last deadline, and
    /// returns the timers in firing order.
    pub fn run_until_idle(&mut self) -> (fired: Vec<Timer>)
        requires
            old(self).wf(),
        ensures
            final(self).wf(),
            final(self)@ == old(self)@.with_clock(old(self)@.clock.run_until_idle()),
            fired@ == old(self)@.clock.timers,
    {
        self.clock.run_until_idle()
    }

    /// Reports the wall clock to the broker's clock, which follows it in
    /// real-time mode and ignores it when paused.
    pub fn observe(&mut self, elapsed: u64) -> (fired: Vec<Timer>)
        requires
            old(self).wf(),
        ensures
            final(self).wf(),
            final(self)@ == old(self)@.with_clock(old(self)@.clock.observe(elapsed)),
            fired@ == old(self)@.clock.due_at_observation(elapsed),
    {
        self.clock.observe(elapsed)
    }
}

impl<H: Fn(Vec<u8>) -> Result<Vec<u8>, String>> ClientHandle for MockBroker<H> {
    type Handler = H;

    type Publisher = PublisherHandle;

    type Subscriber = SubscriberHandle;

    type Provider = ProviderHandle;

    type Client = ServiceClient;

    open spec fn state(&self) -> BrokerState<H> {
        self@
    }

    fn advertise(&mut self, name: &str, payload_type: &str) -> (r: Result<
        PublisherHandle,
        BrokerError,
    >) {
        self.topics.advertise(name, payload_type)
    }

    fn subscribe(&mut self, name: &str, payload_type: &str) -> (r: Result<
        SubscriberHandle,
        BrokerError,
    >) {
        self.topics.subscribe(name, payload_type)
    }

    fn publish(&mut self, publisher: &PublisherHandle, message: &Vec<u8>) {
        self.topics.publish(publisher, message);
    }

    fn try_next(&mut self, subscriber: &SubscriberHandle) -> (r: Result<
        Option<Vec<u8>>,
        BrokerError,
    >) {
        self.topics.try_next(subscriber)
    }

    fn unsubscribe(&mut self, subscriber: SubscriberHandle) {
        self.topics.unsubscribe(subscriber);
    }

    fn advertise_service(&mut self, name: &str, handler: H) -> (r: Result<
        ProviderHandle,
        BrokerError,
    >) {
        self.services.advertise_service(name, handler)
    }

    fn unadvertise_service(&mut self, provider: ProviderHandle) {
        self.services.unadvertise_service(provider);
    }

    fn service_client(&self, name: &str) -> (r: Result<ServiceClient, BrokerError>) {
        self.services.service_client(name)
    }

    fn call(&self, client: &ServiceClient, request: Vec<u8>) -> (r: Result<Vec<u8>, BrokerError>) {
        self.services.call(client, request)
    }
}

} // verus!
