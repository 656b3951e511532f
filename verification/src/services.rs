//! The service registry: named request/response endpoints with at most one
//! provider each.
//!
//! A provider registers a handler under a name. A call is routed to the
//! handler that is registered when the call is made; it is answered by
//! exactly one run of that handler, and the handler's own failure reaches
//! the caller unchanged. A call can be made in one step, or started, run and
//! collected in three, so that a call can be outstanding while the provider
//! leaves: such a call ends with `ProviderGone`.

use crate::error::BrokerError;
use crate::slots::{claim, first_free, lemma_first_free_exists, lemma_first_free_is, put, taken};
use vstd::prelude::*;

verus! {

/// What the caller sees of a handler's result: the response bytes, or the
/// handler's failure as an application error.
pub open spec fn lift(output: Result<Vec<u8>, String>) -> Result<Seq<u8>, BrokerError> {
    match output {
        Ok(bytes) => Ok(bytes@),
        Err(message) => Err(BrokerError::Application(message)),
    }
}

/// The bytes or the error of a call's result.
pub open spec fn result_view(result: Result<Vec<u8>, BrokerError>) -> Result<Seq<u8>, BrokerError> {
    match result {
        Ok(bytes) => Ok(bytes@),
        Err(e) => Err(e),
    }
}

/// `outcome` is what a caller sees of one run of `handler` on `request`.
pub open spec fn answers<H: Fn(Vec<u8>) -> Result<Vec<u8>, String>>(
    handler: H,
    request: Seq<u8>,
    outcome: Result<Seq<u8>, BrokerError>,
) -> bool {
    exists|input: Vec<u8>, output: Result<Vec<u8>, String>|
        input@ == request && (#[trigger] call_ensures(handler, (input,), output)) && lift(output)
            == outcome
}

/// The handler accepts every request.
pub open spec fn total<H: Fn(Vec<u8>) -> Result<Vec<u8>, String>>(handler: H) -> bool {
    forall|input: Vec<u8>| #[trigger] call_requires(handler, (input,))
}

/// The state of one service name: the handler of its provider, if it has one.
pub struct ServiceState<H> {
    pub name: Seq<char>,
    pub handler: Option<H>,
}

/// The state of one call that has been started and not yet collected.
pub enum CallState {
    /// The handler has not run yet.
    Waiting { service: int, request: Seq<u8> },
    /// The call is over; the caller has not collected the outcome yet.
    Done { outcome: Result<Seq<u8>, BrokerError> },
}

/// Whether the slot holds a call that waits on `service`.
pub open spec fn waits_on(slot: Option<CallState>, service: int) -> bool {
    slot matches Some(CallState::Waiting { service: s, .. }) && s == service
}

/// The number of calls among `calls` that wait on `service`.
pub open spec fn waiting_on(calls: Seq<Option<CallState>>, service: int) -> nat
    decreases calls.len(),
{
    if calls.len() == 0 {
        0
    } else {
        waiting_on(calls.drop_last(), service) + if waits_on(calls.last(), service) {
            1nat
        } else {
            0nat
        }
    }
}

/// What becomes of a call slot when the provider of `service` leaves.
pub open spec fn resolve_gone(slot: Option<CallState>, service: int) -> Option<CallState> {
    match slot {
        Some(CallState::Waiting { service: s, request }) => if s == service {
            Some(CallState::Done { outcome: Err(BrokerError::ProviderGone) })
        } else {
            slot
        },
        _ => slot,
    }
}

/// The state of the registry: the service names in order of first
/// registration, and the slots of the outstanding calls.
pub struct ServicesState<H> {
    pub services: Seq<ServiceState<H>>,
    pub calls: Seq<Option<CallState>>,
}

impl<H: Fn(Vec<u8>) -> Result<Vec<u8>, String>> ServicesState<H> {
    /// The registry with no service and no call.
    pub open spec fn new() -> ServicesState<H> {
        ServicesState { services: Seq::empty(), calls: Seq::empty() }
    }

    /// Names are unique, handlers accept every request, and a call waits
    /// only on a service that has a provider.
    pub open spec fn wf(self) -> bool {
        &&& forall|i: int, j: int|
            0 <= i < j < self.services.len() ==> (#[trigger] self.services[i]).name != (
            #[trigger] self.services[j]).name
        &&& forall|i: int|
            0 <= i < self.services.len() ==> ((#[trigger] self.services[i]).handler matches Some(h)
                ==> total(h))
        &&& forall|c: int|
            0 <= c < self.calls.len() ==> ((#[trigger] self.calls[c]) matches Some(
                CallState::Waiting { service, .. },
            ) ==> self.is_provider(service))
    }

    /// Whether the name has been registered at some time.
    pub open spec fn has_service(self, name: Seq<char>) -> bool {
        exists|i: int| 0 <= i < self.services.len() && (#[trigger] self.services[i]).name == name
    }

    /// The index of the service called `name`; for a name not yet known, the
    /// index it gets when it is first registered.
    pub open spec fn service_id(self, name: Seq<char>) -> int {
        if self.has_service(name) {
            choose|i: int|
                0 <= i < self.services.len() && (#[trigger] self.services[i]).name == name
        } else {
            self.services.len() as int
        }
    }

    /// Whether `service` is the index of a service name.
    pub open spec fn is_service(self, service: int) -> bool {
        0 <= service < self.services.len()
    }

    /// Whether `service` has an active provider.
    pub open spec fn is_provider(self, service: int) -> bool {
        self.is_service(service) && self.services[service].handler is Some
    }

    /// Whether the name has an active provider.
    pub open spec fn has_provider(self, name: Seq<char>) -> bool {
        self.has_service(name) && self.services[self.service_id(name)].handler is Some
    }

    /// What a provider that asks for `name` is told: the index of the
    /// service, or `AlreadyRegistered`.
    pub open spec fn advertise_service_result(self, name: Seq<char>) -> Result<int, BrokerError> {
        if self.has_provider(name) {
            Err(BrokerError::AlreadyRegistered)
        } else {
            Ok(self.service_id(name))
        }
    }

    /// What a caller that asks for `name` is told: the index of the
    /// service, or `NoProvider`.
    pub open spec fn service_client_result(self, name: Seq<char>) -> Result<int, BrokerError> {
        if self.has_provider(name) {
            Ok(self.service_id(name))
        } else {
            Err(BrokerError::NoProvider)
        }
    }

    /// What a caller that starts a call of `service` is told: the slot of
    /// the call, or `NoProvider`.
    pub open spec fn start_call_result(self, service: int) -> Result<int, BrokerError> {
        if self.is_provider(service) {
            Ok(self.next_call())
        } else {
            Err(BrokerError::NoProvider)
        }
    }

    /// The registry after a provider asked for `name` with `handler`. Where
    /// the name has a provider already, nothing changes.
    pub open spec fn advertise_service(self, name: Seq<char>, handler: H) -> ServicesState<H> {
        if self.has_provider(name) {
            self
        } else if self.has_service(name) {
            ServicesState {
                services: self.services.update(
                    self.service_id(name),
                    ServiceState { name, handler: Some(handler) },
                ),
                ..self
            }
        } else {
            ServicesState {
                services: self.services.push(ServiceState { name, handler: Some(handler) }),
                ..self
            }
        }
    }

    /// The registry after the provider of `service` left: the name is free
    /// again, and every call that waited on it is over with `ProviderGone`.
    pub open spec fn unadvertise_service(self, service: int) -> ServicesState<H> {
        if self.is_service(service) {
            ServicesState {
                services: self.services.update(
                    service,
                    ServiceState { name: self.services[service].name, handler: None },
                ),
                calls: Seq::new(self.calls.len(), |c: int| resolve_gone(self.calls[c], service)),
            }
        } else {
            self
        }
    }

    /// The slot that the next started call gets.
    pub open spec fn next_call(self) -> int {
        first_free(self.calls)
    }

    /// The registry after a call of `service` with `request` was started.
    /// Without a provider no call is started.
    pub open spec fn start_call(self, service: int, request: Seq<u8>) -> ServicesState<H> {
        if self.is_provider(service) {
            ServicesState {
                calls: put(self.calls, self.next_call(), CallState::Waiting { service, request }),
                ..self
            }
        } else {
            self
        }
    }

    /// Whether `call` is the slot of an outstanding call.
    pub open spec fn is_call(self, call: int) -> bool {
        taken(self.calls, call)
    }

    /// Whether the handler has still to run for `call`.
    pub open spec fn is_waiting(self, call: int) -> bool {
        self.is_call(call) && self.calls[call].unwrap() is Waiting
    }

    /// The registry after the handler ran for `call` with `outcome`. The
    /// handler runs once: a call that is over stays as it is.
    pub open spec fn complete(
        self,
        call: int,
        outcome: Result<Seq<u8>, BrokerError>,
    ) -> ServicesState<H> {
        if self.is_waiting(call) {
            ServicesState {
                calls: self.calls.update(call, Some(CallState::Done { outcome })),
                ..self
            }
        } else {
            self
        }
    }

    /// What the caller of `call` is told when it asks: the outcome, or
    /// `None` while the handler has still to run.
    pub open spec fn poll_result(self, call: int) -> Option<Result<Seq<u8>, BrokerError>> {
        match self.calls[call] {
            Some(CallState::Done { outcome }) => Some(outcome),
            _ => None,
        }
    }

    /// The registry after the caller of `call` asked for the outcome: the
    /// slot of a call that is over is released.
    pub open spec fn poll_call(self, call: int) -> ServicesState<H> {
        if self.is_call(call) && !self.is_waiting(call) {
            ServicesState { calls: self.calls.update(call, None), ..self }
        } else {
            self
        }
    }

    /// The registry after the caller gave `call` up.
    pub open spec fn abandon_call(self, call: int) -> ServicesState<H> {
        if 0 <= call < self.calls.len() {
            ServicesState { calls: self.calls.update(call, None), ..self }
        } else {
            self
        }
    }

    /// `after` is this registry once the handler of `service` has answered
    /// every call that waited on it: each such call is over with what one
    /// run of the handler gave for its request, and nothing else differs.
    pub open spec fn served(self, after: ServicesState<H>, service: int) -> bool {
        &&& after.services == self.services
        &&& after.calls.len() == self.calls.len()
        &&& forall|c: int|
            0 <= c < self.calls.len() ==> match #[trigger] self.calls[c] {
                Some(CallState::Waiting { service: s, request }) => if s == service {
                    after.calls[c] matches Some(CallState::Done { outcome }) && answers(
                        self.services[service].handler.unwrap(),
                        request,
                        outcome,
                    )
                } else {
                    after.calls[c] == self.calls[c]
                },
                _ => after.calls[c] == self.calls[c],
            }
    }

    /// In a well-formed registry a service is found under its own name.
    pub proof fn lemma_service_id(self, i: int)
        requires
            self.wf(),
            0 <= i < self.services.len(),
        ensures
            self.has_service(self.services[i].name),
            self.service_id(self.services[i].name) == i,
    {
        let name = self.services[i].name;
        let c = self.service_id(name);
        assert(0 <= c < self.services.len() && self.services[c].name == name);
        if c < i {
            assert(self.services[c].name != self.services[i].name);
        } else if i < c {
            assert(self.services[i].name != self.services[c].name);
        }
    }

    /// Registering keeps the registry well formed, and afterwards the name
    /// has a provider, whether this registration was accepted or not.
    pub proof fn lemma_advertise_service(self, name: Seq<char>, handler: H)
        requires
            self.wf(),
            total(handler),
        ensures
            self.advertise_service(name, handler).wf(),
            self.advertise_service(name, handler).has_provider(name),
            self.advertise_service(name, handler).service_id(name) == self.service_id(name),
            self.advertise_service(name, handler).calls == self.calls,
            !self.has_provider(name) ==> self.advertise_service(name, handler).services[
                self.service_id(name)
            ].handler == Some(handler),
    {
        let after = self.advertise_service(name, handler);
        let i = self.service_id(name);
        if !self.has_provider(name) {
            assert(after.services[i].name == name);
            assert forall|a: int, b: int| 0 <= a < b < after.services.len() implies (
            #[trigger] after.services[a]).name != (#[trigger] after.services[b]).name by {
                if self.has_service(name) {
                    assert(self.services[a].name != self.services[b].name);
                } else if b < self.services.len() {
                    assert(self.services[a].name != self.services[b].name);
                } else {
                    assert(self.services[a].name != name);
                }
            }
            assert forall|c: int| 0 <= c < after.calls.len() implies ((
            #[trigger] after.calls[c]) matches Some(CallState::Waiting { service, .. })
                ==> after.is_provider(service)) by {
                match self.calls[c] {
                    Some(CallState::Waiting { service, .. }) => {
                        assert(self.is_provider(service));
                    },
                    _ => {},
                }
            }
            after.lemma_service_id(i);
        }
    }

    /// One provider per name. Of two registrations of the same name, made
    /// one after the other in either order, the second is always refused
    /// with `AlreadyRegistered` and changes nothing; the first is accepted
    /// exactly if the name was free. On a free name, then, exactly one of
    /// the two is accepted, and it is the one whose handler answers.
    pub proof fn lemma_one_provider(self, name: Seq<char>, first: H, second: H)
        requires
            self.wf(),
            total(first),
            total(second),
        ensures
            ({
                let once = self.advertise_service(name, first);
                let twice = once.advertise_service(name, second);
                &&& self.advertise_service_result(name) is Ok <==> !self.has_provider(name)
                &&& once.advertise_service_result(name) == Err::<int, BrokerError>(
                    BrokerError::AlreadyRegistered,
                )
                &&& twice == once
                &&& !self.has_provider(name) ==> once.services[once.service_id(name)].handler
                    == Some(first)
            }),
    {
        self.lemma_advertise_service(name, first);
    }

    /// One run for each call. Once the handler has run for a call, the call
    /// is over: a further run is not made and the outcome stands.
    pub proof fn lemma_handler_runs_once(
        self,
        call: int,
        outcome: Result<Seq<u8>, BrokerError>,
        later: Result<Seq<u8>, BrokerError>,
    )
        requires
            self.is_waiting(call),
        ensures
            !self.complete(call, outcome).is_waiting(call),
            self.complete(call, outcome).poll_result(call) == Some(outcome),
            self.complete(call, outcome).complete(call, later) == self.complete(call, outcome),
    {
    }

    /// Starting a call on a service with a provider puts it, waiting, into
    /// the next free slot and keeps the registry well formed.
    pub proof fn lemma_start_call(self, service: int, request: Seq<u8>)
        requires
            self.wf(),
            self.is_provider(service),
        ensures
            self.start_call(service, request).wf(),
            self.start_call(service, request).services == self.services,
            self.start_call(service, request).is_waiting(self.next_call()),
            self.start_call(service, request).calls[self.next_call()] == Some(
                CallState::Waiting { service, request },
            ),
    {
        lemma_first_free_exists(self.calls);
        let after = self.start_call(service, request);
        assert forall|c: int| 0 <= c < after.calls.len() implies ((
        #[trigger] after.calls[c]) matches Some(CallState::Waiting { service: s, .. })
            ==> after.is_provider(s)) by {
            if c != self.next_call() {
                match self.calls[c] {
                    Some(CallState::Waiting { service: s, .. }) => {
                        assert(self.is_provider(s));
                    },
                    _ => {},
                }
            }
        }
    }

    /// When a provider leaves, no call is left waiting on its service, and
    /// the registry stays well formed.
    pub proof fn lemma_unadvertise_service(self, service: int)
        requires
            self.wf(),
            self.is_service(service),
        ensures
            self.unadvertise_service(service).wf(),
            !self.unadvertise_service(service).is_provider(service),
            forall|c: int|
                0 <= c < self.calls.len() ==> ((#[trigger] self.calls[c]) matches Some(
                    CallState::Waiting { service: s, .. },
                ) && s == service ==> self.unadvertise_service(service).poll_result(c) == Some(
                    Err::<Seq<u8>, BrokerError>(BrokerError::ProviderGone),
                )),
    {
        let after = self.unadvertise_service(service);
        assert forall|a: int, b: int| 0 <= a < b < after.services.len() implies (
        #[trigger] after.services[a]).name != (#[trigger] after.services[b]).name by {
            assert(self.services[a].name != self.services[b].name);
        }
        assert forall|i: int| 0 <= i < after.services.len() implies ((
        #[trigger] after.services[i]).handler matches Some(h) ==> total(h)) by {
            if i != service {
                assert(after.services[i] == self.services[i]);
            }
        }
        assert forall|c: int| 0 <= c < after.calls.len() implies ((
        #[trigger] after.calls[c]) matches Some(CallState::Waiting { service: s, .. })
            ==> after.is_provider(s)) by {
            match self.calls[c] {
                Some(CallState::Waiting { service: s, .. }) => {
                    assert(self.is_provider(s));
                },
                _ => {},
            }
        }
    }

    /// No call hangs. A call that is outstanding when its provider leaves is
    /// over with `ProviderGone`: that is what its caller is told on asking.
    pub proof fn lemma_provider_gone(self, service: int, request: Seq<u8>)
        requires
            self.wf(),
            self.is_provider(service),
        ensures
            ({
                let call = self.next_call();
                let after = self.start_call(service, request).unadvertise_service(service);
                &&& self.start_call_result(service) == Ok::<int, BrokerError>(call)
                &&& after.wf()
                &&& after.is_call(call)
                &&& after.poll_result(call) == Some(
                    Err::<Seq<u8>, BrokerError>(BrokerError::ProviderGone),
                )
            }),
    {
        lemma_first_free_exists(self.calls);
        self.lemma_start_call(service, request);
        self.start_call(service, request).lemma_unadvertise_service(service);
    }
}

/// A registration as the provider of one service. Giving it back
/// unregisters the handler.
#[derive(Debug, PartialEq, Eq)]
pub struct ProviderHandle {
    service: usize,
}

impl View for ProviderHandle {
    type V = int;

    /// The index of the service provided.
    closed spec fn view(&self) -> int {
        self.service as int
    }
}

/// The means to call one service.
#[derive(Debug, Clone, Copy, PartialEq, Eq)]
pub struct ServiceClient {
    service: usize,
}

impl View for ServiceClient {
    type V = int;

    /// The index of the service called.
    closed spec fn view(&self) -> int {
        self.service as int
    }
}

/// One call that has been started and whose outcome has not been collected.
#[derive(Debug, PartialEq, Eq)]
pub struct CallHandle {
    slot: usize,
}

impl View for CallHandle {
    type V = int;

    /// The slot of the call.
    closed spec fn view(&self) -> int {
        self.slot as int
    }
}

struct Service<H> {
    name: String,
    handler: Option<H>,
}

impl<H> Service<H> {
    spec fn model(self) -> ServiceState<H> {
        ServiceState { name: self.name@, handler: self.handler }
    }
}

enum Call {
    Waiting { service: usize, request: Vec<u8> },
    Done { outcome: Result<Vec<u8>, BrokerError> },
}

spec fn call_model(slot: Option<Call>) -> Option<CallState> {
    match slot {
        Some(Call::Waiting { service, request }) => Some(
            CallState::Waiting { service: service as int, request: request@ },
        ),
        Some(Call::Done { outcome }) => Some(CallState::Done { outcome: result_view(outcome) }),
        None => None,
    }
}

/// The service registry, for handlers of type `H`.
pub struct ServiceRegistry<H> {
    services: Vec<Service<H>>,
    calls: Vec<Option<Call>>,
}

impl<H> View for ServiceRegistry<H> {
    type V = ServicesState<H>;

    closed spec fn view(&self) -> ServicesState<H> {
        ServicesState {
            services: Seq::new(self.services@.len(), |i: int| self.services@[i].model()),
            calls: Seq::new(self.calls@.len(), |c: int| call_model(self.calls@[c])),
        }
    }
}

impl<H: Fn(Vec<u8>) -> Result<Vec<u8>, String>> ServiceRegistry<H> {
    /// The registry's invariant: names are unique, handlers accept every
    /// request, and a call waits only on a service that has a provider.
    pub open spec fn wf(&self) -> bool {
        self@.wf()
    }

    /// An empty registry.
    pub fn new() -> (r: ServiceRegistry<H>)
        ensures
            r.wf(),
            r@ == ServicesState::<H>::new(),
    {
        let r = ServiceRegistry { services: Vec::new(), calls: Vec::new() };
        assert(r@.services =~= Seq::empty());
        assert(r@.calls =~= Seq::empty());
        r
    }

    /// Finds the service called `name`.
    fn find(&self, name: &String) -> (r: Option<usize>)
        requires
            self.wf(),
        ensures
            match r {
                Some(i) => self@.has_service(name@) && i == self@.service_id(name@) && i
                    < self.services.len(),
                None => !self@.has_service(name@),
            },
    {
        let n = self.services.len();
        let mut i: usize = 0;
        while i < n
            invariant
                self.wf(),
                i <= n,
                n == self.services.len(),
                forall|k: int| 0 <= k < i ==> (#[trigger] self@.services[k]).name != name@,
            decreases n - i,
        {
            if self.services[i].name == *name {
                proof {
                    assert(self@.services[i as int].name == name@);
                    self@.lemma_service_id(i as int);
                }
                return Some(i);
            }
            i += 1;
        }
        None
    }

    /// Registers `handler` as the provider of the service `name`. Fails with
    /// `AlreadyRegistered`, changing nothing, when the name has a provider.
    pub fn advertise_service(&mut self, name: &str, handler: H) -> (r: Result<
        ProviderHandle,
        BrokerError,
    >)
        requires
            old(self).wf(),
            total(handler),
        ensures
            final(self).wf(),
            final(self)@ == old(self)@.advertise_service(name@, handler),
            match r {
                Ok(p) => {
                    &&& old(self)@.advertise_service_result(name@) == Ok::<int, BrokerError>(p@)
                    &&& final(self)@.is_provider(p@)
                },
                Err(e) => old(self)@.advertise_service_result(name@) == Err::<int, BrokerError>(e),
            },
    {
        let name = name.to_owned();
        proof {
            self@.lemma_advertise_service(name@, handler);
        }
        match self.find(&name) {
            Some(i) => {
                if self.services[i].handler.is_some() {
                    Err(BrokerError::AlreadyRegistered)
                } else {
                    self.services[i].handler = Some(handler);
                    proof {
                        assert(self@.services =~= old(self)@.advertise_service(
                            name@,
                            handler,
                        ).services);
                        assert(self@.calls =~= old(self)@.calls);
                    }
                    Ok(ProviderHandle { service: i })
                }
            },
            None => {
                let i = self.services.len();
                self.services.push(Service { name, handler: Some(handler) });
                proof {
                    assert(self@.services =~= old(self)@.advertise_service(
                        name@,
                        handler,
                    ).services);
                    assert(self@.calls =~= old(self)@.calls);
                }
                Ok(ProviderHandle { service: i })
            },
        }
    }

    /// Whether `provider` is the registration of an active provider here.
    pub fn has_provider(&self, provider: &ProviderHandle) -> (r: bool)
        ensures
            r == self@.is_provider(provider@),
    {
        provider.service < self.services.len() && self.services[provider.service].handler.is_some()
    }

    /// Whether `client` names a service of this registry.
    pub fn has_client(&self, client: &ServiceClient) -> (r: bool)
        ensures
            r == self@.is_service(client@),
    {
        client.service < self.services.len()
    }

    /// Whether `call` is an outstanding call of this registry.
    pub fn has_call(&self, call: &CallHandle) -> (r: bool)
        ensures
            r == self@.is_call(call@),
    {
        call.slot < self.calls.len() && self.calls[call.slot].is_some()
    }

    /// Unregisters the provider. The name is free for another provider, and
    /// every call still waiting on the service ends with `ProviderGone`.
    pub fn unadvertise_service(&mut self, provider: ProviderHandle)
        requires
            old(self).wf(),
            old(self)@.is_provider(provider@),
        ensures
            final(self).wf(),
            final(self)@ == old(self)@.unadvertise_service(provider@),
    {
        let service = provider.service;
        proof {
            self@.lemma_unadvertise_service(service as int);
        }
        self.services[service].handler = None;
        let ghost services = self.services;
        let n = self.calls.len();
        let mut c: usize = 0;
        while c < n
            invariant
                c <= n,
                n == self.calls.len(),
                n == old(self).calls.len(),
                self.services == services,
                forall|k: int|
                    0 <= k < c ==> call_model(#[trigger] self.calls[k]) == resolve_gone(
                        call_model(old(self).calls[k]),
                        service as int,
                    ),
                forall|k: int| c <= k < n ==> (#[trigger] self.calls[k]) == old(self).calls[k],
            decreases n - c,
        {
            let waits_here = match &self.calls[c] {
                Some(Call::Waiting { service: s, .. }) => *s == service,
                _ => false,
            };
            if waits_here {
                self.calls[c] = Some(Call::Done { outcome: Err(BrokerError::ProviderGone) });
            }
            c += 1;
        }
        proof {
            assert(self@.services =~= old(self)@.unadvertise_service(service as int).services);
            assert(self@.calls =~= old(self)@.unadvertise_service(service as int).calls);
        }
    }

    /// Looks the service `name` up for calling. Fails with `NoProvider` when
    /// no provider is registered now: calls are not kept for a provider to
    /// come.
    pub fn service_client(&self, name: &str) -> (r: Result<ServiceClient, BrokerError>)
        requires
            self.wf(),
        ensures
            match r {
                Ok(client) => {
                    &&& self@.service_client_result(name@) == Ok::<int, BrokerError>(client@)
                    &&& self@.is_provider(client@)
                },
                Err(e) => self@.service_client_result(name@) == Err::<int, BrokerError>(e),
            },
    {
        let name = name.to_owned();
        match self.find(&name) {
            Some(i) => {
                if self.services[i].handler.is_some() {
                    Ok(ServiceClient { service: i })
                } else {
                    Err(BrokerError::NoProvider)
                }
            },
            None => Err(BrokerError::NoProvider),
        }
    }

    /// Calls the service: runs the registered handler once on `request` and
    /// returns what it gave, a failure of the handler as
    /// `Application`. Fails with `NoProvider` when no provider is
    /// registered now. The registry is as before.
    pub fn call(&self, client: &ServiceClient, request: Vec<u8>) -> (r: Result<
        Vec<u8>,
        BrokerError,
    >)
        requires
            self.wf(),
            self@.is_service(client@),
        ensures
            match self@.services[client@].handler {
                Some(h) => answers(h, request@, result_view(r)),
                None => r == Err::<Vec<u8>, BrokerError>(BrokerError::NoProvider),
            },
    {
        let ghost input = request;
        assert(self@.services[client@] == self.services[client@].model());
        match &self.services[client.service].handler {
            Some(h) => {
                assert(total(*h));
                let output = h(request);
                assert(call_ensures(*h, (input,), output));
                match output {
                    Ok(bytes) => Ok(bytes),
                    Err(message) => Err(BrokerError::Application(message)),
                }
            },
            None => Err(BrokerError::NoProvider),
        }
    }

    /// Starts a call of the service with `request` and leaves it waiting
    /// for the handler. Fails with `NoProvider`, changing nothing, when no
    /// provider is registered now.
    pub fn start_call(&mut self, client: &ServiceClient, request: Vec<u8>) -> (r: Result<
        CallHandle,
        BrokerError,
    >)
        requires
            old(self).wf(),
            old(self)@.is_service(client@),
        ensures
            final(self).wf(),
            final(self)@ == old(self)@.start_call(client@, request@),
            match r {
                Ok(call) => {
                    &&& old(self)@.start_call_result(client@) == Ok::<int, BrokerError>(call@)
                    &&& final(self)@.is_waiting(call@)
                },
                Err(e) => old(self)@.start_call_result(client@) == Err::<int, BrokerError>(e),
            },
    {
        assert(self@.services[client@] == self.services[client@].model());
        if self.services[client.service].handler.is_some() {
            let ghost before = self@.calls;
            proof {
                self@.lemma_start_call(client@, request@);
                lemma_first_free_exists(before);
                lemma_first_free_exists(self.calls@);
                lemma_first_free_is(before, first_free(self.calls@));
            }
            let slot = claim(
                &mut self.calls,
                Call::Waiting { service: client.service, request },
            );
            proof {
                assert(self@.calls =~= put(
                    before,
                    slot as int,
                    CallState::Waiting { service: client@, request: request@ },
                ));
                assert(self@.services =~= old(self)@.services);
            }
            Ok(CallHandle { slot })
        } else {
            Err(BrokerError::NoProvider)
        }
    }

    /// Runs the handler for `call` if it has not run yet, and keeps the
    /// outcome for the caller. A call that is over is left alone, so the
    /// handler runs once for each call.
    pub fn run_call(&mut self, call: &CallHandle)
        requires
            old(self).wf(),
            old(self)@.is_call(call@),
        ensures
            final(self).wf(),
            final(self)@.is_call(call@),
            !final(self)@.is_waiting(call@),
            final(self)@ == old(self)@.complete(call@, final(self)@.poll_result(call@).unwrap()),
            old(self)@.calls[call@] matches Some(CallState::Waiting { service, request })
                ==> answers(
                old(self)@.services[service].handler.unwrap(),
                request,
                final(self)@.poll_result(call@).unwrap(),
            ),
    {
        let mut slot: Option<Call> = None;
        std::mem::swap(&mut self.calls[call.slot], &mut slot);
        match slot {
            Some(Call::Waiting { service, request }) => {
                let ghost input = request;
                assert(call_model(old(self).calls[call@]) == old(self)@.calls[call@]);
                assert(old(self)@.is_provider(service as int));
                assert(old(self)@.services[service as int]
                    == self.services[service as int].model());
                let outcome = match &self.services[service].handler {
                    Some(h) => {
                        assert(total(*h));
                        let output = h(request);
                        assert(call_ensures(*h, (input,), output));
                        match output {
                            Ok(bytes) => Ok(bytes),
                            Err(message) => Err(BrokerError::Application(message)),
                        }
                    },
                    None => {
                        // A call waits only on a service that has a provider.
                        assert(false);
                        Err(BrokerError::ProviderGone)
                    },
                };
                self.calls[call.slot] = Some(Call::Done { outcome });
                proof {
                    let after = old(self)@.complete(call@, result_view(outcome));
                    assert(self@.services =~= after.services);
                    assert(self@.calls =~= after.calls);
                    assert forall|c: int| 0 <= c < self@.calls.len() implies ((
                    #[trigger] self@.calls[c]) matches Some(CallState::Waiting { service: s, .. })
                        ==> self@.is_provider(s)) by {
                        if c != call@ {
                            assert(self@.calls[c] == old(self)@.calls[c]);
                        }
                    }
                }
            },
            other => {
                self.calls[call.slot] = other;
                proof {
                    assert(self.calls@ =~= old(self).calls@);
                    assert(self@.services =~= old(self)@.services);
                    assert(self@.calls =~= old(self)@.calls);
                }
            },
        }
    }

    /// Runs the handler of the provider's service for every call that waits
    /// on it, and returns how many calls were answered.
    pub fn run_pending(&mut self, provider: &ProviderHandle) -> (answered: usize)
        requires
            old(self).wf(),
            old(self)@.is_provider(provider@),
        ensures
            final(self).wf(),
            old(self)@.served(final(self)@, provider@),
            answered == waiting_on(old(self)@.calls, provider@),
    {
        let service = provider.service;
        let n = self.calls.len();
        let mut answered: usize = 0;
        let mut c: usize = 0;
        assert(old(self)@.calls.take(0) =~= Seq::empty());
        while c < n
            invariant
                c <= n,
                answered <= c,
                answered == waiting_on(old(self)@.calls.take(c as int), service as int),
                n == self.calls.len(),
                n == old(self).calls.len(),
                self.wf(),
                self@.services == old(self)@.services,
                old(self)@.is_provider(service as int),
                forall|k: int|
                    0 <= k < c ==> match #[trigger] old(self)@.calls[k] {
                        Some(CallState::Waiting { service: s, request }) => if s == service {
                            self@.calls[k] matches Some(CallState::Done { outcome }) && answers(
                                old(self)@.services[service as int].handler.unwrap(),
                                request,
                                outcome,
                            )
                        } else {
                            self@.calls[k] == old(self)@.calls[k]
                        },
                        _ => self@.calls[k] == old(self)@.calls[k],
                    },
                forall|k: int| c <= k < n ==> (#[trigger] self@.calls[k]) == old(self)@.calls[k],
            decreases n - c,
        {
            let waits_here = match &self.calls[c] {
                Some(Call::Waiting { service: s, .. }) => *s == service,
                _ => false,
            };
            assert(call_model(self.calls[c as int]) == self@.calls[c as int]);
            proof {
                let seen = old(self)@.calls.take(c + 1);
                assert(seen.drop_last() =~= old(self)@.calls.take(c as int));
                assert(seen.last() == old(self)@.calls[c as int]);
            }
            if waits_here {
                let ghost before = self@;
                let handle = CallHandle { slot: c };
                self.run_call(&handle);
                answered += 1;
                proof {
                    assert forall|k: int| 0 <= k < n && k != c implies (
                    #[trigger] self@.calls[k]) == before.calls[k] by {}
                }
            }
            c += 1;
        }
        assert(old(self)@.calls.take(n as int) =~= old(self)@.calls);
        answered
    }

    /// Asks for the outcome of `call`. `None` means that the handler has
    /// still to run. Once the outcome is handed over the call is finished
    /// and its handle is spent.
    pub fn poll_call(&mut self, call: &CallHandle) -> (r: Option<Result<Vec<u8>, BrokerError>>)
        requires
            old(self).wf(),
            old(self)@.is_call(call@),
        ensures
            final(self).wf(),
            final(self)@ == old(self)@.poll_call(call@),
            match r {
                Some(result) => {
                    &&& old(self)@.poll_result(call@) == Some(result_view(result))
                    &&& !final(self)@.is_call(call@)
                },
                None => {
                    &&& old(self)@.poll_result(call@) is None
                    &&& final(self)@.is_call(call@)
                },
            },
    {
        let mut slot: Option<Call> = None;
        std::mem::swap(&mut self.calls[call.slot], &mut slot);
        assert(call_model(old(self).calls[call@]) == old(self)@.calls[call@]);
        match slot {
            Some(Call::Done { outcome }) => {
                proof {
                    assert(self@.services =~= old(self)@.services);
                    assert(self@.calls =~= old(self)@.poll_call(call@).calls);
                    assert forall|c: int| 0 <= c < self@.calls.len() implies ((
                    #[trigger] self@.calls[c]) matches Some(CallState::Waiting { service: s, .. })
                        ==> self@.is_provider(s)) by {
                        if c != call@ {
                            assert(self@.calls[c] == old(self)@.calls[c]);
                        }
                    }
                }
                Some(outcome)
            },
            other => {
                self.calls[call.slot] = other;
                proof {
                    assert(self.calls@ =~= old(self).calls@);
                    assert(self@.services =~= old(self)@.services);
                    assert(self@.calls =~= old(self)@.calls);
                }
                None
            },
        }
    }

    /// Gives the call up and releases its slot, whether the handler has run
    /// or not.
    pub fn abandon_call(&mut self, call: CallHandle)
        requires
            old(self).wf(),
            old(self)@.is_call(call@),
        ensures
            final(self).wf(),
            final(self)@ == old(self)@.abandon_call(call@),
            !final(self)@.is_call(call@),
    {
        self.calls[call.slot] = None;
        proof {
            assert(self@.services =~= old(self)@.services);
            assert(self@.calls =~= old(self)@.abandon_call(call@).calls);
            assert forall|c: int| 0 <= c < self@.calls.len() implies ((
            #[trigger] self@.calls[c]) matches Some(CallState::Waiting { service: s, .. })
                ==> self@.is_provider(s)) by {
                if c != call@ {
                    assert(self@.calls[c] == old(self)@.calls[c]);
                }
            }
        }
    }
}

} // verus!
