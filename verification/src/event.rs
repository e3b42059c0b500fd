//! The event envelope: an immutable (topic, payload) pair.

use vstd::prelude::*;
use vstd::pervasive::cloned;

use crate::topic_key::TopicKey;

verus! {

/// One message instance: a topic key together with a typed payload.
/// Listeners observe events by reference; no implicit cloning happens on
/// delivery.
#[derive(Debug)]
pub struct Event<T> {
    topic: TopicKey,
    message: T,
}

impl<T> Event<T> {
    /// The bytes of the topic this event is addressed to.
    pub closed spec fn spec_topic(self) -> Seq<u8> {
        self.topic@
    }

    /// The payload carried by this event.
    pub closed spec fn spec_message(self) -> T {
        self.message
    }

    /// A new event addressed to the given topic.
    pub fn new(topic: TopicKey, message: T) -> (r: Event<T>)
        ensures
            r.spec_topic() == topic@,
            r.spec_message() == message,
    {
        Event { topic, message }
    }

    /// Give up the envelope and keep the payload.
    pub fn into_inner(self) -> (r: T)
        ensures
            r == self.spec_message(),
    {
        self.message
    }

    /// The topic this event is addressed to.
    pub fn topic(&self) -> (r: &TopicKey)
        ensures
            r@ == self.spec_topic(),
    {
        &self.topic
    }

    /// Read access to the payload.
    pub fn message(&self) -> (r: &T)
        ensures
            *r == self.spec_message(),
    {
        &self.message
    }

    /// Mutable access to the payload, for deployments where the poster still
    /// owns the event.
    pub fn message_mut(&mut self) -> (r: &mut T)
        ensures
            *r == old(self).spec_message(),
            final(self).spec_message() == *final(r),
            final(self).spec_topic() == old(self).spec_topic(),
    {
        &mut self.message
    }
}

impl<T: Clone> Clone for Event<T> {
    /// A clone shares the same topic bytes and carries a clone of the payload.
    fn clone(&self) -> (r: Self)
        ensures
            r.spec_topic() == self.spec_topic(),
            cloned::<T>(self.spec_message(), r.spec_message()),
    {
        Event { topic: self.topic.clone(), message: self.message.clone() }
    }
}

} // verus!
