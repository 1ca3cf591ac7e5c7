//! A typed publish/subscribe dispatch core.
//!
//! Observers are registered under a discriminant and a tag. A message is
//! routed to every observer registered under its discriminant, and a
//! broadcaster also publishes it on a broadcast channel for other threads or
//! tasks.

pub mod broadcaster;
pub mod channel;
pub mod dispatcher;
pub mod error;
pub mod model;
pub mod registry;

pub use broadcaster::{publish_outcome, Broadcaster, Received, SyncBroadcaster, Unsent};
pub use dispatcher::{
    Dispatcher, LocalDispatcher, LocalObserverRef, MessageType, Observer, ObserverRef, SendObserver,
};
pub use error::DispatcherError;
