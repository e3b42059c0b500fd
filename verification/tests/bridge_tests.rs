//! The bridge: typed posts replicated to peers, inbound ingestion, the
//! per-peer failure set, and decode-failure isolation.

use comet_eventbus::{
    failed_targets, BridgeError, BridgeListener, Event, Eventbus, EventbusBridge, Listener,
    ListenerError, Message, SerializedMessage, TopicKey,
};

#[derive(Debug, PartialEq)]
struct Msg {
    id: u8,
}

impl Message for Msg {
    fn encode(&self) -> Option<Vec<u8>> {
        bincode::serialize(&self.id).ok()
    }

    fn decode(bytes: &[u8]) -> Option<Self> {
        bincode::deserialize::<u8>(bytes).ok().map(|id| Msg { id })
    }
}

struct HandlerA;
struct HandlerB;

impl Listener<Msg> for HandlerA {
    fn handle(&mut self, event: &Event<Msg>) -> Result<(), ListenerError> {
        println!("A: {:?}", event.message());
        Ok(())
    }
}

impl Listener<Msg> for HandlerB {
    fn handle(&mut self, event: &Event<Msg>) -> Result<(), ListenerError> {
        println!("B: {:?}", event.message());
        Ok(())
    }
}

type BridgeA = EventbusBridge<BridgeListener<Msg, HandlerA>>;
type BridgeB = EventbusBridge<BridgeListener<Msg, HandlerB>>;

#[test]
fn test_bridge() {
    let mut bridged_a: BridgeA = EventbusBridge::new(Eventbus::new());
    let mut bridged_b: BridgeB = EventbusBridge::new(Eventbus::new());

    // the peer table records the endpoints; the wire itself is driven below
    bridged_a.connect(String::from("http://127.0.0.1:50002"));
    bridged_b.connect(String::from("http://127.0.0.1:50001"));

    let topic = TopicKey::from("foobar");

    let handler_a = bridged_a.register(topic.clone(), HandlerA);
    let handler_b = bridged_b.register(topic.clone(), HandlerB);

    let mut local_a: Eventbus<Msg, HandlerA> = Eventbus::new();
    let mut local_b: Eventbus<Msg, HandlerB> = Eventbus::new();

    // a post on A goes to A's local typed listeners and, over the wire, to B
    let topic_a = bridged_a.create_topic(topic.clone());
    let event = Event::new(topic_a.get_key().clone(), Msg { id: 1 });
    let out = topic_a.post(&bridged_a, &mut local_a, &event).unwrap();
    assert_eq!(out.targets, vec![String::from("http://127.0.0.1:50002")]);
    let delivered = bridged_b.ingest(out.envelope);
    assert_eq!(delivered.len(), 1);
    assert_eq!(delivered[0].0, handler_b.id());
    assert!(delivered[0].1.is_ok());

    // and a post on B reaches A the same way
    let topic_b = bridged_b.create_topic(topic.clone());
    let event = Event::new(topic_b.get_key().clone(), Msg { id: 2 });
    let out = bridged_b.post(&mut local_b, &event).unwrap();
    let delivered = bridged_a.ingest(out.envelope);
    assert_eq!(delivered.len(), 1);
    assert_eq!(delivered[0].0, handler_a.id());
    assert!(delivered[0].1.is_ok());

    // after A's handler unregisters, a post from B reaches nobody on A
    handler_a.unregister(&mut bridged_a);
    let event = Event::new(topic_b.get_key().clone(), Msg { id: 2 });
    let out = bridged_b.post(&mut local_b, &event).unwrap();
    let delivered = bridged_a.ingest(out.envelope);
    assert!(delivered.is_empty());

    // and after B's handler unregisters, a post from A reaches nobody on B
    handler_b.unregister(&mut bridged_b);
    let event = Event::new(topic_a.get_key().clone(), Msg { id: 1 });
    let out = bridged_a.post(&mut local_a, &event).unwrap();
    let delivered = bridged_b.ingest(out.envelope);
    assert!(delivered.is_empty());
}

struct CountingListener {
    seen: u32,
}

impl Listener<Msg> for CountingListener {
    fn handle(&mut self, _event: &Event<Msg>) -> Result<(), ListenerError> {
        self.seen += 1;
        Ok(())
    }
}

#[test]
fn fan_out_reports_exactly_the_unreachable_peers() {
    // bus A bridged to B and C
    let mut bridged_a: EventbusBridge<BridgeListener<Msg, CountingListener>> =
        EventbusBridge::new(Eventbus::new());
    let mut bridged_b: EventbusBridge<BridgeListener<Msg, CountingListener>> =
        EventbusBridge::new(Eventbus::new());
    let mut bridged_c: EventbusBridge<BridgeListener<Msg, CountingListener>> =
        EventbusBridge::new(Eventbus::new());
    bridged_a.connect(String::from("peer-b"));
    bridged_a.connect(String::from("peer-c"));

    let topic = TopicKey::from("fan-out");
    let on_b = bridged_b.register(topic.clone(), CountingListener { seen: 0 });
    let on_c = bridged_c.register(topic.clone(), CountingListener { seen: 0 });

    // A's own local listener sees the post directly
    let mut local_a: Eventbus<Msg, CountingListener> = Eventbus::new();
    let local_handle = local_a.register(topic.clone(), CountingListener { seen: 0 });

    let event = Event::new(topic.clone(), Msg { id: 5 });
    let out = bridged_a.post(&mut local_a, &event).unwrap();
    assert_eq!(out.local.len(), 1);
    assert_eq!(out.local[0].0, local_handle.id());
    assert_eq!(out.targets, vec![String::from("peer-b"), String::from("peer-c")]);

    // B is unreachable; C receives. The post still succeeded for A and C,
    // and the failure set is exactly {B}.
    let delivered_c = bridged_c.ingest(out.envelope);
    assert_eq!(delivered_c.len(), 1);
    assert_eq!(delivered_c[0].0, on_c.id());
    let sent_ok = vec![false, true];
    let failed = failed_targets(&out.targets, &sent_ok);
    assert_eq!(failed, vec![String::from("peer-b")]);
    let _ = on_b;
}

#[derive(Debug)]
struct WideMsg {
    value: u32,
}

impl Message for WideMsg {
    fn encode(&self) -> Option<Vec<u8>> {
        bincode::serialize(&self.value).ok()
    }

    fn decode(bytes: &[u8]) -> Option<Self> {
        if bytes.len() != 4 {
            return None;
        }
        bincode::deserialize::<u32>(bytes).ok().map(|value| WideMsg { value })
    }
}

struct WideListener;

impl Listener<WideMsg> for WideListener {
    fn handle(&mut self, _event: &Event<WideMsg>) -> Result<(), ListenerError> {
        Ok(())
    }
}

#[test]
fn wrong_type_assumption_is_one_isolated_decode_failure() {
    // the receiver assumes WideMsg on this topic, but the peer posts Msg
    let mut receiver: EventbusBridge<BridgeListener<WideMsg, WideListener>> =
        EventbusBridge::new(Eventbus::new());
    let topic = TopicKey::from("crossed");
    let h = receiver.register(topic.clone(), WideListener);

    let sender: EventbusBridge<BridgeListener<Msg, HandlerA>> =
        EventbusBridge::new(Eventbus::new());
    let mut sender_local: Eventbus<Msg, HandlerA> = Eventbus::new();
    let event = Event::new(topic.clone(), Msg { id: 1 });
    let out = sender.post(&mut sender_local, &event).unwrap();

    // no crash: the delivery is attempted, fails in isolation, and the
    // listener stays registered for well-typed posts
    let delivered = receiver.ingest(out.envelope);
    assert_eq!(delivered.len(), 1);
    assert_eq!(delivered[0].0, h.id());
    assert_eq!(delivered[0].1, Err(ListenerError::Deserialization));

    let good = Event::new(topic.clone(), WideMsg { value: 7 });
    let mut wide_local: Eventbus<WideMsg, WideListener> = Eventbus::new();
    let out = receiver.post(&mut wide_local, &good).unwrap();
    let delivered = receiver.ingest(out.envelope);
    assert_eq!(delivered.len(), 1);
    assert!(delivered[0].1.is_ok());
}

#[test]
fn serialized_and_downcast_round_trip() {
    let event = Event::new(TopicKey::from("round"), Msg { id: 42 });
    let wire = event.serialized().unwrap();
    assert_eq!(wire.topic().clone(), TopicKey::from("round"));
    let back = wire.downcast::<Msg>().unwrap();
    assert_eq!(back.message(), &Msg { id: 42 });
}

#[test]
fn downcast_with_wrong_type_is_a_deserialization_error() {
    let event = Event::new(TopicKey::from("short"), Msg { id: 42 });
    let wire = event.serialized().unwrap();
    match wire.downcast::<WideMsg>() {
        Err(BridgeError::Deserialization) => {},
        other => panic!("expected a deserialization error, got {:?}", other.is_ok()),
    }
}

#[derive(Debug)]
struct Unencodable;

impl Message for Unencodable {
    fn encode(&self) -> Option<Vec<u8>> {
        None
    }

    fn decode(_bytes: &[u8]) -> Option<Self> {
        None
    }
}

struct UnencodableListener;

impl Listener<Unencodable> for UnencodableListener {
    fn handle(&mut self, _event: &Event<Unencodable>) -> Result<(), ListenerError> {
        Ok(())
    }
}

#[test]
fn encode_failure_is_a_serialization_error_and_nothing_is_delivered() {
    let bridge: EventbusBridge<BridgeListener<Unencodable, UnencodableListener>> =
        EventbusBridge::new(Eventbus::new());
    let mut local: Eventbus<Unencodable, UnencodableListener> = Eventbus::new();
    let topic = TopicKey::from("opaque");
    let local_handle = local.register(topic.clone(), UnencodableListener);

    let event = Event::new(topic.clone(), Unencodable);
    match bridge.post(&mut local, &event) {
        Err(BridgeError::Serialization) => {},
        other => panic!("expected a serialization error, got ok={}", other.is_ok()),
    }
    // the failure surfaced before any delivery; the listener is untouched
    assert_eq!(local.listener_ids(&topic), vec![local_handle.id()]);

    let direct = Event::new(topic.clone(), Unencodable).serialized();
    assert_eq!(direct.err(), Some(BridgeError::Serialization));
}

#[test]
fn connect_twice_keeps_one_table_entry() {
    let mut bridge: EventbusBridge<BridgeListener<Msg, HandlerA>> =
        EventbusBridge::new(Eventbus::new());
    bridge.connect(String::from("peer"));
    bridge.connect(String::from("peer"));
    bridge.connect(String::from("other"));
    assert_eq!(bridge.peer_targets(), vec![String::from("peer"), String::from("other")]);
}

#[test]
fn ingest_carries_topic_and_payload_bytes() {
    let event = Event::new(TopicKey::from("wire"), Msg { id: 9 });
    let wire = event.serialized().unwrap();
    let req = comet_eventbus::PostReq::from(wire);
    assert_eq!(req.topic, b"wire".to_vec());
    let back = Event::<SerializedMessage>::from(req.clone());
    assert_eq!(back.topic().as_bytes(), b"wire");
    assert_eq!(back.message().bytes(), &req.message[..]);
}
