//! DOG: a gossip layer that floods transactions to every connected peer and
//! then prunes redundant delivery paths until each origin is served by a
//! spanning tree, steering towards a configured redundancy ratio.
//!
//! The library takes no time and no bytes by itself: the host hands it
//! connection events, received bytes and the time, and takes from it the
//! RPCs to send and the events for the user.
//!
//! - [`varint`], [`wire`], [`proto`]: the wire format, from variable-length
//!   integers up to the messages, with the law that what is written is read
//!   back.
//! - [`protocol`], [`handler`], [`rpc`]: framing and validation of what
//!   arrives, the bounded queue of each peer, and what a connection handler
//!   does with the front of that queue.
//! - [`time_cache`], [`dog`]: the duplicate filter, the closed routes, and the
//!   controller of the redundancy.
//! - [`model`], [`behaviour`]: the node as a state machine over plain values,
//!   with its laws, and the behaviour that implements it.
//! - [`layer`]: the plain flooding layer.

pub mod bytes;
pub mod peer;
pub mod error;
pub mod varint;
pub mod wire;
pub mod proto;
pub mod types;
pub mod id;
pub mod config;
pub mod handler;
pub mod protocol;
pub mod clock;
pub mod time_cache;
pub mod dog;
pub mod transform;
pub mod rpc;
pub mod metrics;
pub mod model;
pub mod behaviour;
pub mod layer;

pub use crate::behaviour::{Behaviour, Event, TransactionAuthenticity};
pub use crate::config::{Config, ConfigBuilder, ValidationMode};
pub use crate::dog::Route;
pub use crate::error::{PublishError, ValidationError};
pub use crate::peer::{ConnectionId, PeerId};
pub use crate::transform::{DataTransform, IdentityTransform};
pub use crate::types::{RawTransaction, Transaction, TransactionId};
