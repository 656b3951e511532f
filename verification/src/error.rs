use vstd::prelude::*;

verus! {

/// Why a registry operation or a service call failed.
#[derive(Debug, PartialEq, Eq)]
pub enum BrokerError {
    /// The topic exists with another payload type.
    TypeMismatch,
    /// The service name already has an active provider.
    AlreadyRegistered,
    /// No provider is registered under the service name.
    NoProvider,
    /// The provider was unregistered while the call was outstanding.
    ProviderGone,
    /// The broker was shut down and the subscriber's queue is drained.
    ChannelClosed,
    /// The service handler's own failure, carried unchanged.
    Application(String),
}

impl Clone for BrokerError {
    fn clone(&self) -> (r: BrokerError)
        ensures
            r == *self,
    {
        match self {
            BrokerError::TypeMismatch => BrokerError::TypeMismatch,
            BrokerError::AlreadyRegistered => BrokerError::AlreadyRegistered,
            BrokerError::NoProvider => BrokerError::NoProvider,
            BrokerError::ProviderGone => BrokerError::ProviderGone,
            BrokerError::ChannelClosed => BrokerError::ChannelClosed,
            BrokerError::Application(message) => BrokerError::Application(message.clone()),
        }
    }
}

impl BrokerError {
    /// Whether the same request may succeed if it is made again later
    /// without the caller changing anything.
    pub open spec fn retriable(self) -> bool {
        self is NoProvider
    }

    /// Whether the same request may succeed if it is made again later.
    pub fn is_retriable(&self) -> (r: bool)
        ensures
            r == self.retriable(),
    {
        match self {
            BrokerError::NoProvider => true,
            _ => false,
        }
    }
}

} // verus!
