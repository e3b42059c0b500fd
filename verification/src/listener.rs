//! The listener capability and the non-owning registration handle.

use vstd::prelude::*;
use vstd::std_specs::cmp::PartialEqSpec;
use rand::RngCore;

use crate::event::Event;
use crate::topic_key::TopicKey;
use core::marker::PhantomData;

verus! {

/// A failure reported by one listener invocation. It is isolated to that
/// invocation: it neither stops delivery to the remaining listeners nor
/// propagates to the poster.
#[derive(Debug, Clone, Copy, PartialEq, Eq, Structural)]
pub enum ListenerError {
    /// The handler's own recoverable failure.
    Handler,
    /// An inbound wire payload failed to decode as the expected type.
    Deserialization,
}

/// The single operation a registered callback offers: consume one event by
/// reference and report success or a recoverable failure.
///
/// Each implementation describes what one invocation may do with its own
/// `handle_spec`; `handle` promises to act within it. The registry's `post`
/// then guarantees that every outcome it reports is one real invocation on
/// the posted event.
pub trait Listener<T>: Sized {
    /// What one invocation may do: relates the listener's state before the
    /// call, the delivered topic and payload, the state after, and the
    /// reported result. By default nothing is promised; an implementation
    /// overrides this to publish what its handler does.
    open spec fn handle_spec(
        pre: Self,
        topic: Seq<u8>,
        message: T,
        post: Self,
        r: Result<(), ListenerError>,
    ) -> bool {
        true
    }

    /// Process one delivered event.
    fn handle(&mut self, event: &Event<T>) -> (r: Result<(), ListenerError>)
        ensures
            Self::handle_spec(
                *old(self),
                event.spec_topic(),
                event.spec_message(),
                *final(self),
                r,
            ),
    ;
}

/// Relies on `rand::rngs::ThreadRng::next_u64`: draws one random 64-bit
/// registration id; nothing is promised of the value.
#[verifier::external_body]
pub(crate) fn random_u64() -> u64 {
    rand::thread_rng().next_u64()
}

/// A non-owning capability token for one (payload type, topic, id)
/// registration. It never holds the callback; it only identifies the entry
/// so the registry can be asked to remove it.
#[derive(Debug, Hash)]
pub struct EventListener<T> {
    topic: TopicKey,
    rand_id: u64,
    marker: PhantomData<T>,
}

impl<T> EventListener<T> {
    /// The bytes of the topic the registration is under.
    pub closed spec fn spec_topic(self) -> Seq<u8> {
        self.topic@
    }

    /// The random 64-bit id of the registration.
    pub closed spec fn spec_id(self) -> u64 {
        self.rand_id
    }

    /// A handle for the given topic with a freshly drawn random id.
    /// Id collisions are accepted as negligible residual risk, not checked.
    pub(crate) fn new(topic: TopicKey) -> (r: EventListener<T>)
        ensures
            r.spec_topic() == topic@,
    {
        EventListener { topic, rand_id: random_u64(), marker: PhantomData }
    }

    /// The topic the registration is under.
    pub fn topic(&self) -> (r: &TopicKey)
        ensures
            r@ == self.spec_topic(),
    {
        &self.topic
    }

    /// The id of the registration.
    pub fn id(&self) -> (r: u64)
        ensures
            r == self.spec_id(),
    {
        self.rand_id
    }
}

impl<T> Clone for EventListener<T> {
    /// A clone identifies the same registration.
    fn clone(&self) -> (r: Self)
        ensures
            r.spec_topic() == self.spec_topic(),
            r.spec_id() == self.spec_id(),
    {
        EventListener { topic: self.topic.clone(), rand_id: self.rand_id, marker: PhantomData }
    }
}

impl<T> PartialEq for EventListener<T> {
    fn eq(&self, other: &Self) -> (r: bool) {
        self.rand_id == other.rand_id && self.topic == other.topic
    }
}

impl<T> Eq for EventListener<T> {

}

impl<T> vstd::std_specs::cmp::PartialEqSpecImpl for EventListener<T> {
    open spec fn obeys_eq_spec() -> bool {
        true
    }

    open spec fn eq_spec(&self, other: &Self) -> bool {
        self.spec_id() == other.spec_id() && self.spec_topic() == other.spec_topic()
    }
}

} // verus!
