//! A strongly typed, topic-indexed publish/subscribe registry, with a
//! request/reply correlation layer and a bridge that replicates posts
//! between independently hosted registries.
//!
//! The registry ([`Eventbus`]) owns listener callbacks, keyed by topic, one
//! registry per payload type namespace. Registration hands back a non-owning
//! capability handle ([`EventListener`]); posting delivers an [`Event`] to
//! every listener registered for its (type, topic) pair, isolating each
//! listener's failure. The correlation layer ([`service`]) offers
//! synchronous request/reply atop fire-and-forget delivery, and the bridge
//! ([`bridge`]) replicates posts between registries over a wire, reporting
//! per-peer send failures as a retryable set.

pub mod bridge;
pub mod bus;
pub mod event;
pub mod listener;
pub mod service;
pub mod text;
pub mod topic;
pub mod topic_key;

pub use bridge::BridgeError;
pub use bridge::BridgeListener;
pub use bridge::BridgedEventListener;
pub use bridge::BridgedTopic;
pub use bridge::EventbusBridge;
pub use bridge::Message;
pub use bridge::OutboundPost;
pub use bridge::PostReq;
pub use bridge::SerializedMessage;
pub use bridge::failed_targets;
pub use bus::Eventbus;
pub use event::Event;
pub use listener::EventListener;
pub use listener::Listener;
pub use listener::ListenerError;
pub use service::MyService;
pub use service::MyServiceRequest;
pub use service::MyServiceResponse;
pub use service::OneShot;
pub use service::my_service;
pub use service::my_service_call;
pub use topic::Topic;
pub use topic_key::DecodeError;
pub use topic_key::TopicKey;

use vstd::prelude::*;

verus! {

/// Number of random bytes in an ephemeral reply topic; large enough that a
/// collision between two concurrent calls is a negligible residual risk.
pub const REPLY_TOPIC_LEN: usize = 16;

} // verus!
