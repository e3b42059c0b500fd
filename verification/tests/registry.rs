//! The registry: registration, delivery, removal, and failure isolation.

use comet_eventbus::{Event, Eventbus, EventListener, Listener, ListenerError, TopicKey};

struct Handler;

#[derive(Debug)]
struct Message {
    id: u8,
}

impl Listener<Message> for Handler {
    fn handle(&mut self, event: &Event<Message>) -> Result<(), ListenerError> {
        println!("{:?}", event.message());
        Ok(())
    }
}

#[test]
fn test_async_test() {
    let mut eventbus: Eventbus<Message, Handler> = Eventbus::new();
    let topic = TopicKey::from("foobar");
    let handler = eventbus.register(topic.clone(), Handler);
    let topic = eventbus.create_topic(topic.clone());
    let event = Event::new(topic.get_key().clone(), Message { id: 1 });
    let outcomes = topic.post(&mut eventbus, &event);
    assert_eq!(outcomes.len(), 1);
    handler.unregister(&mut eventbus);
    let event = Event::new(topic.get_key().clone(), Message { id: 2 });
    // this should not reach any listener since we already unregistered
    let outcomes = topic.post(&mut eventbus, &event);
    assert_eq!(outcomes.len(), 0);
}

#[test]
fn test_sync_test() {
    let mut eventbus: Eventbus<Message, Handler> = Eventbus::new();
    let topic = TopicKey::from("foobar");
    let handler = eventbus.register(topic.clone(), Handler);
    let topic = eventbus.create_topic(topic.clone());
    let event = Event::new(topic.get_key().clone(), Message { id: 1 });
    let outcomes = topic.post(&mut eventbus, &event);
    assert_eq!(outcomes.len(), 1);
    handler.unregister(&mut eventbus);
    let event = Event::new(topic.get_key().clone(), Message { id: 2 });
    // this should not reach any listener since we already unregistered
    let outcomes = topic.post(&mut eventbus, &event);
    assert_eq!(outcomes.len(), 0);
}

/// A listener that counts how many events it has seen.
struct Counter {
    seen: u32,
}

impl Listener<Message> for Counter {
    fn handle(&mut self, _event: &Event<Message>) -> Result<(), ListenerError> {
        self.seen += 1;
        Ok(())
    }
}

/// A listener that always reports failure.
struct Failing;

impl Listener<Message> for Failing {
    fn handle(&mut self, _event: &Event<Message>) -> Result<(), ListenerError> {
        Err(ListenerError::Handler)
    }
}

enum AnyListener {
    Counting(Counter),
    Failing(Failing),
}

impl Listener<Message> for AnyListener {
    fn handle(&mut self, event: &Event<Message>) -> Result<(), ListenerError> {
        match self {
            AnyListener::Counting(c) => c.handle(event),
            AnyListener::Failing(f) => f.handle(event),
        }
    }
}

fn delivered_ids(outcomes: &[(u64, Result<(), ListenerError>)]) -> Vec<u64> {
    let mut ids: Vec<u64> = outcomes.iter().map(|p| p.0).collect();
    ids.sort();
    ids
}

#[test]
fn two_registrations_both_receive_then_only_second() {
    let mut bus: Eventbus<Message, Counter> = Eventbus::new();
    let key = TopicKey::from("shared");
    let r1 = bus.register(key.clone(), Counter { seen: 0 });
    let r2 = bus.register(key.clone(), Counter { seen: 0 });
    assert_ne!(r1.id(), r2.id());

    let outcomes = bus.post(&Event::new(key.clone(), Message { id: 7 }));
    let ids = delivered_ids(&outcomes);
    assert_eq!(ids.len(), 2);
    assert!(ids.contains(&r1.id()) && ids.contains(&r2.id()));

    let id1 = r1.id();
    let id2 = r2.id();
    bus.unregister(r1);
    let outcomes = bus.post(&Event::new(key.clone(), Message { id: 8 }));
    let ids = delivered_ids(&outcomes);
    assert_eq!(ids, vec![id2]);
    assert!(!ids.contains(&id1));
}

#[test]
fn unregister_twice_is_noop() {
    let mut bus: Eventbus<Message, Counter> = Eventbus::new();
    let key = TopicKey::from("once");
    let keep = bus.register(key.clone(), Counter { seen: 0 });
    let gone = bus.register(key.clone(), Counter { seen: 0 });
    let twin: EventListener<Message> = gone.clone();

    bus.unregister(gone);
    assert_eq!(bus.listener_count(&key), 1);
    // removing the same handle again changes nothing
    bus.unregister(twin);
    assert_eq!(bus.listener_count(&key), 1);

    let outcomes = bus.post(&Event::new(key.clone(), Message { id: 1 }));
    assert_eq!(delivered_ids(&outcomes), vec![keep.id()]);
}

#[test]
fn failing_listener_does_not_stop_delivery() {
    let mut bus: Eventbus<Message, AnyListener> = Eventbus::new();
    let key = TopicKey::from("mixed");
    let ok1 = bus.register(key.clone(), AnyListener::Counting(Counter { seen: 0 }));
    let bad = bus.register(key.clone(), AnyListener::Failing(Failing));
    let ok2 = bus.register(key.clone(), AnyListener::Counting(Counter { seen: 0 }));

    // the post itself succeeds and every listener is invoked
    let outcomes = bus.post(&Event::new(key.clone(), Message { id: 3 }));
    assert_eq!(outcomes.len(), 3);
    let ids = delivered_ids(&outcomes);
    assert!(ids.contains(&ok1.id()) && ids.contains(&bad.id()) && ids.contains(&ok2.id()));
    for (id, outcome) in &outcomes {
        if *id == bad.id() {
            assert_eq!(*outcome, Err(ListenerError::Handler));
        } else {
            assert!(outcome.is_ok());
        }
    }
}

#[derive(Debug)]
struct OtherPayload {
    _name: String,
}

impl Listener<OtherPayload> for Counter {
    fn handle(&mut self, _event: &Event<OtherPayload>) -> Result<(), ListenerError> {
        self.seen += 1;
        Ok(())
    }
}

#[test]
fn listener_for_one_type_never_sees_another_type() {
    // one registry per payload type: the type is part of the registration key
    let mut bus_a: Eventbus<Message, Counter> = Eventbus::new();
    let mut bus_b: Eventbus<OtherPayload, Counter> = Eventbus::new();
    let key = TopicKey::from("x");
    let on_a = bus_a.register(key.clone(), Counter { seen: 0 });

    // a post of the other type on the identical topic key reaches nobody here
    let outcomes = bus_b.post(&Event::new(
        key.clone(),
        OtherPayload { _name: String::from("b") },
    ));
    assert!(outcomes.is_empty());

    // while a post of the right type still reaches the registered listener
    let outcomes = bus_a.post(&Event::new(key.clone(), Message { id: 9 }));
    assert_eq!(delivered_ids(&outcomes), vec![on_a.id()]);
}

#[test]
fn post_to_unknown_topic_succeeds_trivially() {
    let mut bus: Eventbus<Message, Counter> = Eventbus::new();
    let outcomes = bus.post(&Event::new(TopicKey::from("nobody"), Message { id: 0 }));
    assert!(outcomes.is_empty());
}

#[test]
fn swap_listener_keeps_the_registration() {
    let mut bus: Eventbus<Message, Counter> = Eventbus::new();
    let key = TopicKey::from("swap");
    let h = bus.register(key.clone(), Counter { seen: 0 });
    bus.post(&Event::new(key.clone(), Message { id: 1 }));
    bus.post(&Event::new(key.clone(), Message { id: 2 }));
    let swapped = bus.swap_listener(&h, Counter { seen: 0 });
    let old = swapped.ok().expect("the handle is still registered");
    assert_eq!(old.seen, 2);
    // the id survives the swap
    assert_eq!(bus.listener_ids(&key), vec![h.id()]);
}
