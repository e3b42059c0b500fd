//! A cached, ergonomic per-(type, topic) handle over the registry.

use vstd::prelude::*;

use crate::bus::Eventbus;
use crate::event::Event;
use crate::listener::{Listener, ListenerError};
use crate::topic_key::TopicKey;
use core::marker::PhantomData;

verus! {

/// A typed view of one topic: a convenience wrapper that remembers the key
/// and builds and posts events for it. The registry is passed explicitly to
/// the operations that need it.
#[derive(Debug)]
pub struct Topic<T> {
    key: TopicKey,
    marker: PhantomData<T>,
}

impl<T> Topic<T> {
    /// The bytes of the topic's key.
    pub closed spec fn spec_key(self) -> Seq<u8> {
        self.key@
    }

    /// Create an event carrying the given message, addressed to this topic.
    pub fn create_event(&self, message: T) -> (r: Event<T>)
        ensures
            r.spec_topic() == self.spec_key(),
            r.spec_message() == message,
    {
        Event::new(self.key.clone(), message)
    }

    /// The key of this topic.
    pub fn get_key(&self) -> (r: &TopicKey)
        ensures
            r@ == self.spec_key(),
    {
        &self.key
    }

    /// The ids of the listeners currently subscribed to this topic, in
    /// unspecified order.
    pub fn get_listeners<L>(&self, bus: &Eventbus<T, L>) -> (r: Vec<u64>)
        requires
            bus.wf(),
        ensures
            r@.to_set() == bus.ids_at(self.spec_key()).to_set(),
            r@.no_duplicates(),
            r@.len() == bus.ids_at(self.spec_key()).len(),
    {
        bus.listener_ids(&self.key)
    }
}

impl<T> Topic<T> {
    /// Post an event to the registry; shorthand for the registry's own
    /// `post`.
    pub fn post<L: Listener<T>>(&self, bus: &mut Eventbus<T, L>, event: &Event<T>) -> (outcomes:
        Vec<(u64, Result<(), ListenerError>)>)
        requires
            old(bus).wf(),
        ensures
            final(bus).wf(),
            final(bus).dom() == old(bus).dom().insert(event.spec_topic()),
            forall|k: Seq<u8>| #[trigger] final(bus).ids_at(k) == old(bus).ids_at(k),
            outcomes@.map_values(|p: (u64, Result<(), ListenerError>)| p.0) == old(bus).ids_at(
                event.spec_topic(),
            ),
            outcomes@.len() == old(bus).ids_at(event.spec_topic()).len(),
            forall|j: int|
                0 <= j < outcomes@.len() ==> #[trigger] L::handle_spec(
                    old(bus).registrations(event.spec_topic())[j].1,
                    event.spec_topic(),
                    event.spec_message(),
                    final(bus).registrations(event.spec_topic())[j].1,
                    outcomes@[j].1,
                ),
    {
        bus.post(event)
    }

    /// Wrap a message in an event for this topic and post it.
    pub fn post_message<L: Listener<T>>(&self, bus: &mut Eventbus<T, L>, message: T) -> (outcomes:
        Vec<(u64, Result<(), ListenerError>)>)
        requires
            old(bus).wf(),
        ensures
            final(bus).wf(),
            final(bus).dom() == old(bus).dom().insert(self.spec_key()),
            forall|k: Seq<u8>| #[trigger] final(bus).ids_at(k) == old(bus).ids_at(k),
            outcomes@.map_values(|p: (u64, Result<(), ListenerError>)| p.0) == old(bus).ids_at(
                self.spec_key(),
            ),
            outcomes@.len() == old(bus).ids_at(self.spec_key()).len(),
            forall|j: int|
                0 <= j < outcomes@.len() ==> #[trigger] L::handle_spec(
                    old(bus).registrations(self.spec_key())[j].1,
                    self.spec_key(),
                    message,
                    final(bus).registrations(self.spec_key())[j].1,
                    outcomes@[j].1,
                ),
    {
        let event = self.create_event(message);
        bus.post(&event)
    }
}

impl<T, L> Eventbus<T, L> {
    /// A typed handle for a topic: lazily creates the (type, key) cell if it
    /// is absent and never fails. No registration changes.
    pub fn create_topic(&mut self, key: TopicKey) -> (t: Topic<T>)
        requires
            old(self).wf(),
        ensures
            final(self).wf(),
            t.spec_key() == key@,
            final(self).dom() == old(self).dom().insert(key@),
            forall|k: Seq<u8>| #[trigger] final(self).registrations(k) == old(self).registrations(
                k,
            ),
    {
        self.touch_cell(&key);
        Topic { key, marker: PhantomData }
    }
}

} // verus!
