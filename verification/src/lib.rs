//! Relay core for verifiable price-feed updates: the per-connection
//! subscription actor, the connection registry with its notifier, and the
//! Merkle accumulator proof builder.

pub mod bytes;
pub mod merkle;
pub mod protocol;
pub mod registry;
pub mod subscriber;
pub mod subscriptions;
pub mod wire;
pub mod wormhole_merkle;
