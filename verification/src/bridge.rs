//! The bridge: replicates posts between independently hosted registries.
//! Outbound, a post is delivered locally, serialized once, and addressed to
//! every connected peer; the per-peer send results come back as a retryable
//! failure set. Inbound, a wire envelope is decoded into a local untyped
//! event and published unconditionally: the wire carries no type tag, so a
//! payload that does not decode as the expected type surfaces as one
//! isolated delivery failure at the receiver, never as a protocol fault.

use vstd::prelude::*;
use vstd::slice::slice_to_vec;

use crate::bus::Eventbus;
use crate::event::Event;
use crate::listener::{EventListener, Listener, ListenerError};
use crate::topic_key::TopicKey;
use core::marker::PhantomData;

verus! {

/// One payload serialized for the wire: opaque bytes, interpreted only by
/// the typed listeners that subscribe to its topic.
#[derive(Debug)]
pub struct SerializedMessage {
    inner: Vec<u8>,
}

impl View for SerializedMessage {
    type V = Seq<u8>;

    closed spec fn view(&self) -> Seq<u8> {
        self.inner@
    }
}

impl SerializedMessage {
    /// Wrap already-encoded bytes.
    pub fn new(inner: Vec<u8>) -> (r: SerializedMessage)
        ensures
            r@ == inner@,
    {
        SerializedMessage { inner }
    }

    /// The serialized bytes.
    pub fn bytes(&self) -> (r: &[u8])
        ensures
            r@ == self@,
    {
        self.inner.as_slice()
    }

    /// Give up the wrapper and keep the bytes.
    pub fn into_vec(self) -> (r: Vec<u8>)
        ensures
            r@ == self@,
    {
        self.inner
    }
}

impl Clone for SerializedMessage {
    /// A clone holds the same bytes.
    fn clone(&self) -> (r: Self)
        ensures
            r@ == self@,
    {
        SerializedMessage { inner: slice_to_vec(self.inner.as_slice()) }
    }
}

/// A bridge failure at the wire boundary.
#[derive(Debug, Clone, Copy, PartialEq, Eq, Structural)]
pub enum BridgeError {
    /// The payload could not be encoded for the wire.
    Serialization,
    /// The opaque wire bytes did not decode as the expected type.
    Deserialization,
}

/// A payload type that can cross the bridge: a fixed binary encoding,
/// symmetric across all participants. By convention a given topic is used by
/// exactly one concrete payload type; violating this surfaces as decode
/// failures at receivers.
///
/// Each implementation describes its own encoding abstractly; `encode` and
/// `decode` promise to realize it, and `decode` carries the round-trip
/// obligation that ties the two directions together. The spec functions
/// default to "no encoding": an implementation overrides them to publish its
/// codec's contract.
pub trait Message: Sized {
    /// The wire encoding of one value, when it has one; a fixed function of
    /// the value, identical across all participants.
    open spec fn spec_encoding(m: Self) -> Option<Seq<u8>> {
        None
    }

    /// What a byte string decodes to as this type, if anything.
    open spec fn spec_decoded(bytes: Seq<u8>) -> Option<Self> {
        None
    }

    /// Encode the payload for the wire; fails exactly when the value has no
    /// encoding.
    fn encode(&self) -> (r: Option<Vec<u8>>)
        ensures
            r is Some <==> Self::spec_encoding(*self) is Some,
            r matches Some(v) ==> Self::spec_encoding(*self) == Some(v@),
    ;

    /// Decode wire bytes as this type; fails exactly when they do not
    /// parse. Whatever this type encodes, it decodes back: the symmetry the
    /// bridge relies on.
    fn decode(bytes: &[u8]) -> (r: Option<Self>)
        ensures
            r == Self::spec_decoded(bytes@),
            forall|m: Self|
                Self::spec_encoding(m) == Some(bytes@) ==> Self::spec_decoded(bytes@) == Some(m),
    ;
}

/// The wire envelope of one replicated post: the topic's bytes and the
/// opaque serialized payload. The wire carries no type tag.
#[derive(Debug)]
pub struct PostReq {
    /// The topic the payload was posted under.
    pub topic: Vec<u8>,
    /// The payload's serialized bytes.
    pub message: Vec<u8>,
}

impl Clone for PostReq {
    /// A clone holds the same topic and payload bytes.
    fn clone(&self) -> (r: Self)
        ensures
            r.topic@ == self.topic@,
            r.message@ == self.message@,
    {
        PostReq {
            topic: slice_to_vec(self.topic.as_slice()),
            message: slice_to_vec(self.message.as_slice()),
        }
    }
}

impl From<PostReq> for Event<SerializedMessage> {
    /// The local untyped event a wire envelope denotes: same topic bytes,
    /// same payload bytes.
    fn from(req: PostReq) -> (r: Event<SerializedMessage>)
        ensures
            r.spec_topic() == req.topic@,
            r.spec_message()@ == req.message@,
    {
        Event::new(TopicKey::from_vec(req.topic), SerializedMessage::new(req.message))
    }
}

impl vstd::std_specs::convert::FromSpecImpl<PostReq> for Event<SerializedMessage> {
    open spec fn obeys_from_spec() -> bool {
        false
    }

    open spec fn from_spec(req: PostReq) -> Event<SerializedMessage> {
        arbitrary()
    }
}

impl From<Event<SerializedMessage>> for PostReq {
    /// The wire envelope of a local untyped event: same topic bytes, same
    /// payload bytes.
    fn from(event: Event<SerializedMessage>) -> (r: PostReq)
        ensures
            r.topic@ == event.spec_topic(),
            r.message@ == event.spec_message()@,
    {
        let topic = slice_to_vec(event.topic().as_bytes());
        PostReq { topic, message: event.into_inner().into_vec() }
    }
}

impl vstd::std_specs::convert::FromSpecImpl<Event<SerializedMessage>> for PostReq {
    open spec fn obeys_from_spec() -> bool {
        false
    }

    open spec fn from_spec(event: Event<SerializedMessage>) -> PostReq {
        arbitrary()
    }
}

impl<T: Message> Event<T> {
    /// Serialize the payload once, keeping the (cheaply shared) topic: the
    /// result carries exactly the payload's encoding. Fails exactly when the
    /// payload has none.
    pub fn serialized(&self) -> (r: Result<Event<SerializedMessage>, BridgeError>)
        ensures
            r is Ok <==> T::spec_encoding(self.spec_message()) is Some,
            r matches Ok(e) ==> e.spec_topic() == self.spec_topic() && T::spec_encoding(
                self.spec_message(),
            ) == Some(e.spec_message()@),
            r matches Err(x) ==> x == BridgeError::Serialization,
    {
        match self.message().encode() {
            Some(bytes) => Ok(
                Event::new(self.topic().clone(), SerializedMessage::new(bytes)),
            ),
            None => Err(BridgeError::Serialization),
        }
    }
}

impl Event<SerializedMessage> {
    /// Decode the opaque payload as a concrete type, keeping the topic: the
    /// result carries exactly what the bytes decode to. Fails exactly when
    /// the bytes do not parse as that type; a wrongly assumed type is an
    /// error value here, never a crash.
    pub fn downcast<T: Message>(&self) -> (r: Result<Event<T>, BridgeError>)
        ensures
            r is Ok <==> T::spec_decoded(self.spec_message()@) is Some,
            r matches Ok(e) ==> e.spec_topic() == self.spec_topic() && T::spec_decoded(
                self.spec_message()@,
            ) == Some(e.spec_message()),
            r matches Err(x) ==> x == BridgeError::Deserialization,
            forall|m: T|
                T::spec_encoding(m) == Some(self.spec_message()@) ==> T::spec_decoded(
                    self.spec_message()@,
                ) == Some(m),
    {
        match T::decode(self.message().bytes()) {
            Some(message) => Ok(Event::new(self.topic().clone(), message)),
            None => Err(BridgeError::Deserialization),
        }
    }
}

/// Bridges the untyped serialized-payload channel to a caller's typed
/// listener: each delivery decodes the opaque bytes as `T` and, on success,
/// invokes the inner listener; a decode failure becomes one isolated
/// delivery failure for that event alone.
#[derive(Debug)]
pub struct BridgeListener<T, L> {
    inner: L,
    marker: PhantomData<T>,
}

impl<T, L> BridgeListener<T, L> {
    /// The wrapped typed listener.
    pub closed spec fn spec_inner(self) -> L {
        self.inner
    }

    /// Wrap a typed listener for the serialized channel.
    pub fn new(inner: L) -> (r: BridgeListener<T, L>)
        ensures
            r.spec_inner() == inner,
    {
        BridgeListener { inner, marker: PhantomData }
    }

    /// Give up the wrapper and keep the typed listener.
    pub fn into_inner(self) -> (r: L)
        ensures
            r == self.spec_inner(),
    {
        self.inner
    }
}

impl<T: Message, L: Listener<T>> Listener<SerializedMessage> for BridgeListener<T, L> {
    /// A delivery whose bytes decode as `T` invokes the inner listener
    /// exactly once with the decoded payload and hands its result through
    /// unchanged; one that does not decode leaves the inner listener
    /// untouched and reports one isolated deserialization failure.
    open spec fn handle_spec(
        pre: BridgeListener<T, L>,
        topic: Seq<u8>,
        message: SerializedMessage,
        post: BridgeListener<T, L>,
        r: Result<(), ListenerError>,
    ) -> bool {
        match T::spec_decoded(message@) {
            Some(m) => L::handle_spec(pre.spec_inner(), topic, m, post.spec_inner(), r),
            None => post == pre && r == Err::<(), ListenerError>(ListenerError::Deserialization),
        }
    }

    /// Decode, then delegate.
    fn handle(&mut self, event: &Event<SerializedMessage>) -> (r: Result<(), ListenerError>) {
        match event.downcast::<T>() {
            Ok(typed) => self.inner.handle(&typed),
            Err(_) => Err(ListenerError::Deserialization),
        }
    }
}

/// A registration handle for a bridged (typed) listener: it refers to the
/// wrapping registration on the serialized-payload channel.
#[derive(Debug)]
pub struct BridgedEventListener<T> {
    inner: EventListener<SerializedMessage>,
    marker: PhantomData<T>,
}

impl<T> BridgedEventListener<T> {
    /// The bytes of the topic the registration is under.
    pub open spec fn spec_topic(self) -> Seq<u8> {
        self.spec_inner().spec_topic()
    }

    /// The id of the registration.
    pub open spec fn spec_id(self) -> u64 {
        self.spec_inner().spec_id()
    }

    /// The underlying handle on the serialized channel.
    pub closed spec fn spec_inner(self) -> EventListener<SerializedMessage> {
        self.inner
    }

    /// Wrap a serialized-channel handle.
    pub fn new(inner: EventListener<SerializedMessage>) -> (r: BridgedEventListener<T>)
        ensures
            r.spec_inner() == inner,
    {
        BridgedEventListener { inner, marker: PhantomData }
    }

    /// The id of the registration.
    pub fn id(&self) -> (r: u64)
        ensures
            r == self.spec_id(),
    {
        self.inner.id()
    }

    /// The topic the registration is under.
    pub fn topic(&self) -> (r: &TopicKey)
        ensures
            r@ == self.spec_topic(),
    {
        self.inner.topic()
    }
}

/// What remains to be done after the local half of a bridged post: the wire
/// envelope, the peer endpoints it is addressed to, and the local delivery
/// outcomes. The caller performs the sends (they are I/O) and passes the
/// per-peer results to [`failed_targets`] for the retryable failure set.
#[derive(Debug)]
pub struct OutboundPost {
    /// The envelope to send, serialized once for all peers.
    pub envelope: PostReq,
    /// Every connected peer endpoint, in table order.
    pub targets: Vec<String>,
    /// The (id, result) outcome of each local delivery.
    pub local: Vec<(u64, Result<(), ListenerError>)>,
}

/// The endpoints whose send failed, in target order.
pub open spec fn failed_of(targets: Seq<Seq<char>>, sent_ok: Seq<bool>) -> Seq<Seq<char>>
    decreases targets.len(),
{
    if targets.len() == 0 || sent_ok.len() == 0 {
        Seq::empty()
    } else if sent_ok[0] {
        failed_of(targets.drop_first(), sent_ok.drop_first())
    } else {
        seq![targets[0]] + failed_of(targets.drop_first(), sent_ok.drop_first())
    }
}

/// Appending one (target, result) pair extends the failure set on the right
/// exactly when the result is a failure.
proof fn lemma_failed_of_push(targets: Seq<Seq<char>>, sent_ok: Seq<bool>, t: Seq<char>, ok: bool)
    requires
        targets.len() == sent_ok.len(),
    ensures
        failed_of(targets.push(t), sent_ok.push(ok)) == if ok {
            failed_of(targets, sent_ok)
        } else {
            failed_of(targets, sent_ok).push(t)
        },
    decreases targets.len(),
{
    if targets.len() == 0 {
        assert(targets.push(t) =~= seq![t]);
        assert(sent_ok.push(ok) =~= seq![ok]);
        assert(targets =~= Seq::<Seq<char>>::empty());
        assert(sent_ok =~= Seq::<bool>::empty());
        assert(seq![t].drop_first() =~= targets);
        assert(seq![ok].drop_first() =~= sent_ok);
        assert(failed_of(targets, sent_ok) == Seq::<Seq<char>>::empty());
        if ok {
            assert(failed_of(seq![t], seq![ok]) =~= Seq::<Seq<char>>::empty());
        } else {
            assert(failed_of(seq![t], seq![ok]) =~= seq![t] + Seq::<Seq<char>>::empty());
            assert(failed_of(targets, sent_ok).push(t) =~= seq![t]
                + Seq::<Seq<char>>::empty());
        }
    } else {
        assert(targets.push(t).drop_first() =~= targets.drop_first().push(t));
        assert(sent_ok.push(ok).drop_first() =~= sent_ok.drop_first().push(ok));
        lemma_failed_of_push(targets.drop_first(), sent_ok.drop_first(), t, ok);
        assert(targets.push(t)[0] == targets[0]);
        assert(sent_ok.push(ok)[0] == sent_ok[0]);
        if sent_ok[0] {
            assert(failed_of(targets.push(t), sent_ok.push(ok)) == failed_of(
                targets.drop_first().push(t),
                sent_ok.drop_first().push(ok),
            ));
            assert(failed_of(targets, sent_ok) == failed_of(
                targets.drop_first(),
                sent_ok.drop_first(),
            ));
            if !ok {
                assert(failed_of(targets.push(t), sent_ok.push(ok)) =~= failed_of(
                    targets,
                    sent_ok,
                ).push(t));
            }
        } else {
            assert(failed_of(targets.push(t), sent_ok.push(ok)) == seq![targets[0]] + failed_of(
                targets.drop_first().push(t),
                sent_ok.drop_first().push(ok),
            ));
            assert(failed_of(targets, sent_ok) == seq![targets[0]] + failed_of(
                targets.drop_first(),
                sent_ok.drop_first(),
            ));
            if ok {
                assert(failed_of(targets.push(t), sent_ok.push(ok)) =~= failed_of(
                    targets,
                    sent_ok,
                ));
            } else {
                assert(failed_of(targets.push(t), sent_ok.push(ok)) =~= failed_of(
                    targets,
                    sent_ok,
                ).push(t));
            }
        }
    }
}

/// The retryable failure set of one bridged post: exactly the peer endpoints
/// whose send failed, so the caller can retry or evict them. Peer failures
/// are isolated per endpoint and never raised as a fatal error.
pub fn failed_targets(targets: &Vec<String>, sent_ok: &Vec<bool>) -> (failed: Vec<String>)
    requires
        targets@.len() == sent_ok@.len(),
    ensures
        failed@.map_values(|s: String| s@) == failed_of(
            targets@.map_values(|s: String| s@),
            sent_ok@,
        ),
{
    let mut failed: Vec<String> = Vec::new();
    let n = targets.len();
    let mut i: usize = 0;
    while i < n
        invariant
            n == targets@.len() == sent_ok@.len(),
            i <= n,
            failed@.map_values(|s: String| s@) =~= failed_of(
                targets@.map_values(|s: String| s@).take(i as int),
                sent_ok@.take(i as int),
            ),
        decreases n - i,
    {
        let ghost tv = targets@.map_values(|s: String| s@);
        if !sent_ok[i] {
            failed.push(targets[i].clone());
        }
        proof {
            lemma_failed_of_push(tv.take(i as int), sent_ok@.take(i as int), tv[i as int], sent_ok@[i as int]);
            assert(tv.take(i as int + 1) =~= tv.take(i as int).push(tv[i as int]));
            assert(sent_ok@.take(i as int + 1) =~= sent_ok@.take(i as int).push(
                sent_ok@[i as int],
            ));
            assert(failed@.map_values(|s: String| s@) =~= failed_of(
                tv.take(i as int + 1),
                sent_ok@.take(i as int + 1),
            ));
        }
        i = i + 1;
    }
    proof {
        let tv = targets@.map_values(|s: String| s@);
        assert(tv.take(n as int) =~= tv);
        assert(sent_ok@.take(n as int) =~= sent_ok@);
    }
    failed
}

/// A bridge connecting one local registry to peer registries over a wire:
/// an explicitly populated outbound peer table and a local serialized-payload
/// registry that inbound envelopes are published on and bridged listeners
/// subscribe to. The wire I/O itself is the caller's: `post` hands back the
/// envelope and the endpoints to send it to.
#[derive(Debug)]
pub struct EventbusBridge<L> {
    bus: Eventbus<SerializedMessage, L>,
    peers: Vec<String>,
}

impl<L> EventbusBridge<L> {
    /// The local serialized-payload registry.
    pub closed spec fn spec_bus(self) -> Eventbus<SerializedMessage, L> {
        self.bus
    }

    /// The connected peer endpoints, in connection order.
    pub closed spec fn spec_peers(self) -> Seq<Seq<char>> {
        self.peers@.map_values(|s: String| s@)
    }

    /// Well-formedness: the registry's own invariant, and no endpoint twice
    /// in the peer table.
    pub open spec fn wf(self) -> bool {
        self.spec_bus().wf() && self.spec_peers().no_duplicates()
    }

    /// A bridge over an existing registry, with no peers connected yet.
    pub fn new(bus: Eventbus<SerializedMessage, L>) -> (r: EventbusBridge<L>)
        requires
            bus.wf(),
        ensures
            r.wf(),
            r.spec_bus() == bus,
            r.spec_peers() == Seq::<Seq<char>>::empty(),
    {
        let r = EventbusBridge { bus, peers: Vec::new() };
        proof {
            assert(r.spec_peers() =~= Seq::<Seq<char>>::empty());
        }
        r
    }

    /// Record a peer endpoint in the outbound table; later posts are
    /// addressed to it. Recording the same endpoint again changes nothing.
    /// Opening the connection itself is the caller's I/O, done with the
    /// endpoint this table hands back.
    pub fn connect(&mut self, endpoint: String)
        requires
            old(self).wf(),
        ensures
            final(self).wf(),
            final(self).spec_bus() == old(self).spec_bus(),
            final(self).spec_peers().to_set() == old(self).spec_peers().to_set().insert(
                endpoint@,
            ),
            old(self).spec_peers().contains(endpoint@) ==> final(self).spec_peers() == old(
                self,
            ).spec_peers(),
            !old(self).spec_peers().contains(endpoint@) ==> final(self).spec_peers() == old(
                self,
            ).spec_peers().push(endpoint@),
    {
        let n = self.peers.len();
        let mut i: usize = 0;
        while i < n
            invariant
                *self == *old(self),
                self.wf(),
                n == self.peers@.len(),
                i <= n,
                forall|j: int| 0 <= j < i ==> self.spec_peers()[j] != endpoint@,
            decreases n - i,
        {
            if self.peers[i] == endpoint {
                proof {
                    assert(self.spec_peers()[i as int] == endpoint@);
                    assert(self.spec_peers().contains(endpoint@));
                    assert(self.spec_peers().to_set() =~= self.spec_peers().to_set().insert(
                        endpoint@,
                    ));
                }
                return ;
            }
            i = i + 1;
        }
        proof {
            assert(!self.spec_peers().contains(endpoint@));
        }
        let ghost pre = *self;
        self.peers.push(endpoint);
        proof {
            assert(self.spec_peers() =~= pre.spec_peers().push(endpoint@));
            assert(self.spec_peers().no_duplicates()) by {
                assert(forall|j: int|
                    0 <= j < pre.spec_peers().len() ==> #[trigger] pre.spec_peers()[j]
                        != endpoint@);
            }
            pre.spec_peers().lemma_push_to_set_commute(endpoint@);
        }
    }

    /// The connected peer endpoints, in table order.
    pub fn peer_targets(&self) -> (r: Vec<String>)
        ensures
            r@.map_values(|s: String| s@) == self.spec_peers(),
    {
        let mut r: Vec<String> = Vec::new();
        let n = self.peers.len();
        let mut i: usize = 0;
        while i < n
            invariant
                n == self.peers@.len(),
                i <= n,
                r@.map_values(|s: String| s@) =~= self.spec_peers().take(i as int),
            decreases n - i,
        {
            r.push(self.peers[i].clone());
            proof {
                assert(self.spec_peers().take(i as int + 1) =~= self.spec_peers().take(
                    i as int,
                ).push(self.spec_peers()[i as int]));
            }
            i = i + 1;
        }
        proof {
            assert(self.spec_peers().take(n as int) =~= self.spec_peers());
        }
        r
    }
}

/// What one inbound delivery does to one subscribed listener: one real
/// invocation on a serialized event carrying exactly the envelope's payload
/// bytes under its topic.
pub open spec fn ingested_delivery<L: Listener<SerializedMessage>>(
    pre: L,
    topic: Seq<u8>,
    payload: Seq<u8>,
    post: L,
    r: Result<(), ListenerError>,
) -> bool {
    exists|m: SerializedMessage| m@ == payload && L::handle_spec(pre, topic, m, post, r)
}

impl<L: Listener<SerializedMessage>> EventbusBridge<L> {
    /// Publish an inbound wire envelope on the local registry,
    /// unconditionally: the one operation the ingestion endpoint exposes.
    /// Whether the bytes mean anything is each bridged listener's own decode.
    pub fn ingest(&mut self, req: PostReq) -> (outcomes: Vec<(u64, Result<(), ListenerError>)>)
        requires
            old(self).wf(),
        ensures
            final(self).wf(),
            final(self).spec_peers() == old(self).spec_peers(),
            final(self).spec_bus().dom() == old(self).spec_bus().dom().insert(req.topic@),
            forall|k: Seq<u8>| #[trigger]
                final(self).spec_bus().ids_at(k) == old(self).spec_bus().ids_at(k),
            outcomes@.map_values(|p: (u64, Result<(), ListenerError>)| p.0) == old(
                self,
            ).spec_bus().ids_at(req.topic@),
            outcomes@.len() == old(self).spec_bus().ids_at(req.topic@).len(),
            forall|j: int|
                0 <= j < outcomes@.len() ==> #[trigger] ingested_delivery(
                    old(self).spec_bus().registrations(req.topic@)[j].1,
                    req.topic@,
                    req.message@,
                    final(self).spec_bus().registrations(req.topic@)[j].1,
                    outcomes@[j].1,
                ),
    {
        let event = Event::<SerializedMessage>::from(req);
        let outcomes = self.bus.post(&event);
        proof {
            assert forall|j: int| 0 <= j < outcomes@.len() implies #[trigger] ingested_delivery(
                old(self).spec_bus().registrations(req.topic@)[j].1,
                req.topic@,
                req.message@,
                self.spec_bus().registrations(req.topic@)[j].1,
                outcomes@[j].1,
            ) by {
                let m = event.spec_message();
                assert(m@ == req.message@ && L::handle_spec(
                    old(self).spec_bus().registrations(req.topic@)[j].1,
                    req.topic@,
                    m,
                    self.spec_bus().registrations(req.topic@)[j].1,
                    outcomes@[j].1,
                ));
            }
        }
        outcomes
    }

    /// The local half of one bridged post, in one step: deliver the typed
    /// event on the local typed registry, serialize the payload once, and
    /// address the envelope to every connected peer. The caller performs the
    /// sends and turns their results into the failure set with
    /// [`failed_targets`]. Fails, touching nothing, exactly when the payload
    /// cannot be encoded; local delivery failures are isolated per listener
    /// and never reported here.
    pub fn post<T: Message, LT: Listener<T>>(
        &self,
        local: &mut Eventbus<T, LT>,
        event: &Event<T>,
    ) -> (r: Result<OutboundPost, BridgeError>)
        requires
            self.wf(),
            old(local).wf(),
        ensures
            final(local).wf(),
            r is Ok <==> T::spec_encoding(event.spec_message()) is Some,
            r matches Err(x) ==> x == BridgeError::Serialization && *final(local) == *old(local),
            r matches Ok(out) ==> {
                &&& out.envelope.topic@ == event.spec_topic()
                &&& T::spec_encoding(event.spec_message()) == Some(out.envelope.message@)
                &&& out.targets@.map_values(|s: String| s@) == self.spec_peers()
                &&& final(local).dom() == old(local).dom().insert(event.spec_topic())
                &&& forall|k: Seq<u8>| #[trigger] final(local).ids_at(k) == old(local).ids_at(k)
                &&& out.local@.map_values(|p: (u64, Result<(), ListenerError>)| p.0) == old(
                    local,
                ).ids_at(event.spec_topic())
                &&& out.local@.len() == old(local).ids_at(event.spec_topic()).len()
                &&& forall|j: int|
                    0 <= j < out.local@.len() ==> #[trigger] LT::handle_spec(
                        old(local).registrations(event.spec_topic())[j].1,
                        event.spec_topic(),
                        event.spec_message(),
                        final(local).registrations(event.spec_topic())[j].1,
                        out.local@[j].1,
                    )
            },
    {
        let serialized = match event.serialized() {
            Ok(s) => s,
            Err(e) => {
                return Err(e);
            },
        };
        let envelope = PostReq::from(serialized);
        let local_outcomes = local.post(event);
        let targets = self.peer_targets();
        Ok(OutboundPost { envelope, targets, local: local_outcomes })
    }
}

impl<T: Message, L2: Listener<T>> EventbusBridge<BridgeListener<T, L2>> {
    /// Register a typed listener with the bridge: wrapped in its decoding
    /// [`BridgeListener`], it subscribes to the serialized-payload channel
    /// for the topic, where inbound envelopes are published.
    pub fn register(&mut self, key: TopicKey, listener: L2) -> (h: BridgedEventListener<T>)
        requires
            old(self).wf(),
        ensures
            final(self).wf(),
            final(self).spec_peers() == old(self).spec_peers(),
            h.spec_topic() == key@,
            final(self).spec_bus().dom() == old(self).spec_bus().dom().insert(key@),
            forall|k: Seq<u8>|
                k != key@ ==> #[trigger] final(self).spec_bus().registrations(k) == old(
                    self,
                ).spec_bus().registrations(k),
            final(self).spec_bus().has(key@, h.spec_id()),
            ({
                let regs = final(self).spec_bus().registrations(key@);
                let before = old(self).spec_bus().registrations(key@);
                !old(self).spec_bus().has(key@, h.spec_id()) ==> regs == before.push(
                    (h.spec_id(), regs.last().1),
                ) && regs.last().1.spec_inner() == listener
            }),
    {
        let wrapped = BridgeListener::new(listener);
        let inner = self.bus.register(key, wrapped);
        BridgedEventListener::new(inner)
    }

    /// Remove a bridged registration; a no-op when it was already removed.
    /// Consumes the handle.
    pub fn unregister(&mut self, handle: BridgedEventListener<T>)
        requires
            old(self).wf(),
        ensures
            final(self).wf(),
            final(self).spec_peers() == old(self).spec_peers(),
            final(self).spec_bus().dom() == old(self).spec_bus().dom().insert(
                handle.spec_topic(),
            ),
            forall|k: Seq<u8>|
                k != handle.spec_topic() ==> #[trigger] final(self).spec_bus().registrations(k)
                    == old(self).spec_bus().registrations(k),
            !final(self).spec_bus().has(handle.spec_topic(), handle.spec_id()),
            old(self).spec_bus().has(handle.spec_topic(), handle.spec_id()) ==> final(self)
                .spec_bus().registrations(handle.spec_topic()) == old(self).spec_bus()
                .registrations(handle.spec_topic()).remove(
                old(self).spec_bus().id_index(handle.spec_topic(), handle.spec_id()),
            ),
            !old(self).spec_bus().has(handle.spec_topic(), handle.spec_id()) ==> final(self)
                .spec_bus().registrations(handle.spec_topic()) == old(self).spec_bus()
                .registrations(handle.spec_topic()),
    {
        let BridgedEventListener { inner, marker: _ } = handle;
        self.bus.unregister(inner);
    }

    /// A typed handle for a topic on this bridge: creates the topic's cell
    /// on the serialized-payload channel if it is absent; never fails.
    pub fn create_topic(&mut self, key: TopicKey) -> (t: BridgedTopic<T>)
        requires
            old(self).wf(),
        ensures
            final(self).wf(),
            final(self).spec_peers() == old(self).spec_peers(),
            t.spec_key() == key@,
            final(self).spec_bus().dom() == old(self).spec_bus().dom().insert(key@),
            forall|k: Seq<u8>| #[trigger]
                final(self).spec_bus().registrations(k) == old(self).spec_bus().registrations(k),
    {
        let _ = self.bus.create_topic(key.clone());
        BridgedTopic { key, marker: PhantomData }
    }
}

/// A typed view of one bridged topic.
#[derive(Debug)]
pub struct BridgedTopic<T> {
    key: TopicKey,
    marker: PhantomData<T>,
}

impl<T> BridgedTopic<T> {
    /// The bytes of the topic's key.
    pub closed spec fn spec_key(self) -> Seq<u8> {
        self.key@
    }

    /// The key of this bridged topic.
    pub fn get_key(&self) -> (r: &TopicKey)
        ensures
            r@ == self.spec_key(),
    {
        &self.key
    }

    /// Create an event carrying the given message, addressed to this topic.
    pub fn create_event(&self, message: T) -> (r: Event<T>)
        ensures
            r.spec_topic() == self.spec_key(),
            r.spec_message() == message,
    {
        Event::new(self.key.clone(), message)
    }
}

impl<T: Message> BridgedTopic<T> {
    /// Shorthand for the bridge's `post` with an event for this topic.
    pub fn post<L: Listener<SerializedMessage>, LT: Listener<T>>(
        &self,
        bridge: &EventbusBridge<L>,
        local: &mut Eventbus<T, LT>,
        event: &Event<T>,
    ) -> (r: Result<OutboundPost, BridgeError>)
        requires
            bridge.wf(),
            old(local).wf(),
        ensures
            final(local).wf(),
            r is Ok <==> T::spec_encoding(event.spec_message()) is Some,
            r matches Err(x) ==> x == BridgeError::Serialization && *final(local) == *old(local),
            r matches Ok(out) ==> {
                &&& out.envelope.topic@ == event.spec_topic()
                &&& T::spec_encoding(event.spec_message()) == Some(out.envelope.message@)
                &&& out.targets@.map_values(|s: String| s@) == bridge.spec_peers()
                &&& final(local).dom() == old(local).dom().insert(event.spec_topic())
                &&& forall|k: Seq<u8>| #[trigger] final(local).ids_at(k) == old(local).ids_at(k)
                &&& out.local@.map_values(|p: (u64, Result<(), ListenerError>)| p.0) == old(
                    local,
                ).ids_at(event.spec_topic())
                &&& out.local@.len() == old(local).ids_at(event.spec_topic()).len()
                &&& forall|j: int|
                    0 <= j < out.local@.len() ==> #[trigger] LT::handle_spec(
                        old(local).registrations(event.spec_topic())[j].1,
                        event.spec_topic(),
                        event.spec_message(),
                        final(local).registrations(event.spec_topic())[j].1,
                        out.local@[j].1,
                    )
            },
    {
        bridge.post(local, event)
    }
}

impl<T: Message> BridgedEventListener<T> {
    /// Shorthand for unregistering this bridged listener from its bridge;
    /// a no-op when it was already removed. Consumes the handle.
    pub fn unregister<L2: Listener<T>>(self, bridge: &mut EventbusBridge<BridgeListener<T, L2>>)
        requires
            old(bridge).wf(),
        ensures
            final(bridge).wf(),
            final(bridge).spec_peers() == old(bridge).spec_peers(),
            final(bridge).spec_bus().dom() == old(bridge).spec_bus().dom().insert(
                self.spec_topic(),
            ),
            forall|k: Seq<u8>|
                k != self.spec_topic() ==> #[trigger] final(bridge).spec_bus().registrations(k)
                    == old(bridge).spec_bus().registrations(k),
            !final(bridge).spec_bus().has(self.spec_topic(), self.spec_id()),
            old(bridge).spec_bus().has(self.spec_topic(), self.spec_id()) ==> final(bridge)
                .spec_bus().registrations(self.spec_topic()) == old(bridge).spec_bus()
                .registrations(self.spec_topic()).remove(
                old(bridge).spec_bus().id_index(self.spec_topic(), self.spec_id()),
            ),
            !old(bridge).spec_bus().has(self.spec_topic(), self.spec_id()) ==> final(bridge)
                .spec_bus().registrations(self.spec_topic()) == old(bridge).spec_bus()
                .registrations(self.spec_topic()),
    {
        bridge.unregister(self);
    }
}

} // verus!
