//! A deterministic, in-memory message broker for robotics-style middleware.
//!
//! Processes exchange byte payloads over named topics (publish/subscribe,
//! many-to-many) and named services (request/response, one provider per name).
//! Time is virtual: timers fire only when the clock is told to move.
//! Every operation is an ordinary function on one owned broker value, so a
//! scenario replays the same way every time it is run.
//!
//! Nothing here waits. Where a caller would be suspended, the operation says
//! so in its result (`Ok(None)` for a subscriber with nothing pending, `None`
//! for a call whose handler has not run) and the caller's runtime decides how
//! to wait. Subscriber queues are unbounded, so a publish never waits either.
//!
//! - [`handle`]: the node-facing contract of a broker, as a trait.
//! - [`broker`]: the in-memory broker that keeps the contract.
//! - [`topics`], [`services`], [`clock`]: the three parts of a broker, each
//!   with its state, its operations and what is proved of them.
//! - [`history`]: what a subscriber is handed over any run of operations.
//! - [`nodes`]: the decisions of the periodic counter node.
//! - [`slots`]: tables whose released entries are used again.

pub mod broker;
pub mod clock;
pub mod error;
pub mod handle;
pub mod history;
pub mod nodes;
pub mod services;
pub mod slots;
pub mod topics;

pub use broker::MockBroker;
pub use clock::{ClockMode, Interval, Timer, VirtualClock};
pub use error::BrokerError;
pub use handle::ClientHandle;
pub use nodes::Counter;
pub use services::{CallHandle, ProviderHandle, ServiceClient, ServiceRegistry};
pub use topics::{PublisherHandle, SubscriberHandle, TopicRegistry};
