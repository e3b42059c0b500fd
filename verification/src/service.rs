//! The correlation layer: synchronous request/reply built on the registry,
//! using an ephemeral randomly generated reply topic as the sole correlation
//! token. This module carries the hand-written wrapper types for the sample
//! service; a service of your own follows the same shape.

use vstd::prelude::*;
use vstd::slice::slice_to_vec;

use crate::bus::Eventbus;
use crate::event::Event;
use crate::listener::{EventListener, Listener, ListenerError};
use crate::text::{byte_list_chars, dec_chars, format_byte_list, format_u8};
use crate::topic_key::TopicKey;

verus! {

/// A request for the sample service: the call arguments together with the
/// ephemeral reply topic the response must be posted to. The reply topic is
/// the sole correlation token; there is no separate request id.
#[derive(Debug)]
pub struct MyServiceRequest {
    /// First call argument.
    pub arg0: u8,
    /// Second call argument.
    pub arg1: String,
    /// Third call argument.
    pub arg2: Vec<u8>,
    /// The one-time return address for the response.
    pub reply_topic: TopicKey,
}

/// The sample service's response.
#[derive(Debug)]
pub struct MyServiceResponse {
    /// What the service computed from the request's arguments.
    pub inner: String,
}

impl Clone for MyServiceResponse {
    /// A clone carries the same text.
    fn clone(&self) -> (r: Self)
        ensures
            r.inner@ == self.inner@,
    {
        MyServiceResponse { inner: self.inner.clone() }
    }
}

/// What the sample service computes: its arguments rendered in order,
/// separated by a comma and a space, the byte list in brackets.
pub open spec fn my_service_text(arg0: u8, arg1: Seq<char>, arg2: Seq<u8>) -> Seq<char> {
    dec_chars(arg0) + seq![',', ' '] + arg1 + seq![',', ' '] + byte_list_chars(arg2)
}

/// The sample service's computation, deterministic in its arguments.
pub fn my_service(arg0: u8, arg1: String, arg2: Vec<u8>) -> (r: String)
    ensures
        r@ == my_service_text(arg0, arg1@, arg2@),
{
    proof {
        reveal_strlit(", ");
    }
    let mut out = format_u8(arg0);
    out.append(", ");
    out.append(arg1.as_str());
    out.append(", ");
    let tail = format_byte_list(&arg2);
    out.append(tail.as_str());
    assert(out@ =~= my_service_text(arg0, arg1@, arg2@));
    out
}

/// The server side of one request/reply exchange: a listener registered on
/// the service's well-known base topic. Each delivered request is answered
/// deterministically from its embedded arguments; the response is queued,
/// addressed to the request's reply topic, for the driver to post.
#[derive(Debug)]
pub struct MyService {
    outbox: Vec<Event<MyServiceResponse>>,
}

impl MyService {
    /// The responses queued so far, oldest first.
    pub closed spec fn spec_outbox(self) -> Seq<Event<MyServiceResponse>> {
        self.outbox@
    }

    /// A service with nothing queued.
    pub fn new() -> (r: MyService)
        ensures
            r.spec_outbox() == Seq::<Event<MyServiceResponse>>::empty(),
    {
        MyService { outbox: Vec::new() }
    }

    /// Hand over the queued responses, oldest first, leaving the queue
    /// empty.
    pub fn take_outbox(&mut self) -> (r: Vec<Event<MyServiceResponse>>)
        ensures
            r@ == old(self).spec_outbox(),
            final(self).spec_outbox() == Seq::<Event<MyServiceResponse>>::empty(),
    {
        let mut drained: Vec<Event<MyServiceResponse>> = Vec::new();
        core::mem::swap(&mut self.outbox, &mut drained);
        drained
    }
}

impl Listener<MyServiceRequest> for MyService {
    /// One invocation queues exactly one response, computed deterministically
    /// from the request's embedded arguments and addressed to its embedded
    /// reply topic; the invocation itself always succeeds.
    open spec fn handle_spec(
        pre: MyService,
        topic: Seq<u8>,
        message: MyServiceRequest,
        post: MyService,
        r: Result<(), ListenerError>,
    ) -> bool {
        let resp = post.spec_outbox().last();
        &&& r is Ok
        &&& post.spec_outbox() == pre.spec_outbox().push(resp)
        &&& resp.spec_topic() == message.reply_topic@
        &&& resp.spec_message().inner@ == my_service_text(
            message.arg0,
            message.arg1@,
            message.arg2@,
        )
    }

    /// Computes the response from exactly the request's embedded arguments
    /// and queues it for the request's reply topic.
    fn handle(&mut self, event: &Event<MyServiceRequest>) -> (r: Result<(), ListenerError>) {
        let req = event.message();
        let inner = my_service(req.arg0, req.arg1.clone(), slice_to_vec(req.arg2.as_slice()));
        let reply = Event::new(req.reply_topic.clone(), MyServiceResponse { inner });
        self.outbox.push(reply);
        Ok(())
    }
}

/// The caller side's one-shot listener for a reply topic: it keeps the first
/// payload delivered and hands it to the waiting caller. A second delivery
/// to the same one-shot listener leaves the first value in place and reports
/// a recoverable failure; it never destabilizes the registry.
#[derive(Debug)]
pub struct OneShot<T> {
    slot: Option<T>,
}

impl<T> OneShot<T> {
    /// The payload received so far, if any.
    pub closed spec fn spec_slot(self) -> Option<T> {
        self.slot
    }

    /// An empty one-shot slot.
    pub fn new() -> (r: OneShot<T>)
        ensures
            r.spec_slot() is None,
    {
        OneShot { slot: None }
    }

    /// The received payload, if one arrived; the slot is left empty.
    pub fn take(&mut self) -> (r: Option<T>)
        ensures
            r == old(self).spec_slot(),
            final(self).spec_slot() is None,
    {
        self.slot.take()
    }
}

impl<T: Clone> Listener<T> for OneShot<T> {
    /// The first delivery stores (a clone of) the payload and succeeds; a
    /// later one changes nothing and reports a recoverable failure.
    open spec fn handle_spec(
        pre: OneShot<T>,
        topic: Seq<u8>,
        message: T,
        post: OneShot<T>,
        r: Result<(), ListenerError>,
    ) -> bool {
        &&& pre.spec_slot() is None ==> r is Ok && (post.spec_slot() matches Some(v)
            && vstd::pervasive::cloned::<T>(message, v))
        &&& pre.spec_slot() is Some ==> r is Err && post.spec_slot() == pre.spec_slot()
    }

    /// Keeps the first delivered payload; reports a recoverable failure on a
    /// second delivery.
    fn handle(&mut self, event: &Event<T>) -> (r: Result<(), ListenerError>) {
        match &self.slot {
            Some(_) => Err(ListenerError::Handler),
            None => {
                self.slot = Some(event.message().clone());
                Ok(())
            },
        }
    }
}

/// Whether a one-shot slot holds a response carrying the given text.
spec fn slot_filled(one: OneShot<MyServiceResponse>, text: Seq<char>) -> bool {
    one.spec_slot() matches Some(v) && v.inner@ == text
}

/// A clone of a response carries the same text.
proof fn lemma_cloned_keeps_text(a: MyServiceResponse, b: MyServiceResponse)
    requires
        vstd::pervasive::cloned::<MyServiceResponse>(a, b),
    ensures
        b.inner@ == a.inner@,
{
}

/// One synchronous call of the sample service, layered on fire-and-forget
/// delivery: mint a fresh reply topic, register a one-shot listener for the
/// response under it, post the request (arguments plus reply topic) to the
/// service's base topic, drive the queued responses to the reply topic, and
/// unregister the one-shot listener.
///
/// When the service handle is registered under the base topic with nothing
/// already queued, the call returns the handler's response, computed
/// deterministically from exactly these arguments; when the handle is not
/// registered at all, nobody serves the request and the call returns
/// nothing. Either way the call leaves no registration of its own behind:
/// every topic's listeners afterwards are among those it had before, and the
/// ephemeral reply topic ends with none.
pub fn my_service_call(
    req_bus: &mut Eventbus<MyServiceRequest, MyService>,
    resp_bus: &mut Eventbus<MyServiceResponse, OneShot<MyServiceResponse>>,
    service_handle: &EventListener<MyServiceRequest>,
    base_topic: &TopicKey,
    arg0: u8,
    arg1: String,
    arg2: Vec<u8>,
) -> (r: Option<String>)
    requires
        old(req_bus).wf(),
        old(resp_bus).wf(),
    ensures
        final(req_bus).wf(),
        final(resp_bus).wf(),
        forall|k: Seq<u8>| #[trigger] final(req_bus).ids_at(k) == old(req_bus).ids_at(k),
        forall|k: Seq<u8>| #[trigger]
            final(resp_bus).ids_at(k).to_set().subset_of(old(resp_bus).ids_at(k).to_set()),
        !old(req_bus).has(service_handle.spec_topic(), service_handle.spec_id()) ==> r is None,
        ({
            let base = base_topic@;
            let sid = service_handle.spec_id();
            &&& old(req_bus).has(base, sid)
            &&& service_handle.spec_topic() == base
            &&& old(req_bus).registrations(base)[old(req_bus).id_index(base, sid)].1.spec_outbox()
                == Seq::<Event<MyServiceResponse>>::empty()
        }) ==> (r matches Some(s) && s@ == my_service_text(arg0, arg1@, arg2@)),
{
    let ghost req0 = *req_bus;
    let ghost resp0 = *resp_bus;
    let ghost a1 = arg1@;
    let ghost a2 = arg2@;
    let ghost expect = my_service_text(arg0, a1, a2);
    let ghost sid = service_handle.spec_id();
    let ghost st = service_handle.spec_topic();
    let ghost base = base_topic@;
    let ghost registered = req0.has(st, sid);
    let ghost cc = registered && st == base && req0.registrations(base)[req0.id_index(
        base,
        sid,
    )].1.spec_outbox() == Seq::<Event<MyServiceResponse>>::empty();

    let reply_topic = TopicKey::random(crate::REPLY_TOPIC_LEN);
    let ghost reply = reply_topic@;
    let one_shot_handle = resp_bus.register(reply_topic.clone(), OneShot::new());
    let ghost osid = one_shot_handle.spec_id();
    let ghost resp1 = *resp_bus;
    let ghost j1 = resp1.id_index(reply, osid);
    proof {
        // locate the freshly registered one-shot: its slot is empty
        if resp0.has(reply, osid) {
            let j0 = resp0.id_index(reply, osid);
            assert(0 <= j0 < resp0.ids_at(reply).len() && resp0.ids_at(reply)[j0] == osid);
            assert(resp1.ids_at(reply) =~= resp0.ids_at(reply));
            assert(j1 == j0) by {
                resp1.lemma_ids_distinct(reply);
                assert(resp1.ids_at(reply)[j0] == osid);
                assert(resp1.ids_at(reply).contains(osid));
                assert(0 <= j1 < resp1.ids_at(reply).len() && resp1.ids_at(reply)[j1] == osid);
            }
        } else {
            assert(resp1.ids_at(reply) =~= resp0.ids_at(reply).push(osid));
            assert(resp1.ids_at(reply)[resp0.ids_at(reply).len() as int] == osid);
            assert(resp1.ids_at(reply).contains(osid));
            assert(j1 == resp0.ids_at(reply).len()) by {
                resp1.lemma_ids_distinct(reply);
                assert(0 <= j1 < resp1.ids_at(reply).len() && resp1.ids_at(reply)[j1] == osid);
            }
        }
        assert(resp1.has(reply, osid));
        assert(0 <= j1 < resp1.registrations(reply).len());
        assert(resp1.registrations(reply)[j1].1.spec_slot() is None);
    }
    let request = MyServiceRequest { arg0, arg1, arg2, reply_topic };
    let request_event = Event::new(base_topic.clone(), request);
    let request_outcomes = req_bus.post(&request_event);
    let ghost req_post = *req_bus;
    proof {
        if cc {
            let jj = req0.id_index(base, sid);
            assert(0 <= jj < req0.ids_at(base).len() && req0.ids_at(base)[jj] == sid);
            assert(request_outcomes@.len() == req0.ids_at(base).len());
            assert(MyService::handle_spec(
                req0.registrations(base)[jj].1,
                base,
                request_event.spec_message(),
                req_post.registrations(base)[jj].1,
                request_outcomes@[jj].1,
            ));
            let served_spec = req_post.registrations(base)[jj].1;
            assert(served_spec.spec_outbox() =~= Seq::<Event<MyServiceResponse>>::empty().push(
                served_spec.spec_outbox().last(),
            ));
            assert(served_spec.spec_outbox().len() == 1);
            assert(served_spec.spec_outbox()[0].spec_topic() == reply);
            assert(served_spec.spec_outbox()[0].spec_message().inner@ == expect);
        }
    }
    match req_bus.swap_listener(service_handle, MyService::new()) {
        Ok(mut served) => {
            let ghost req_mid = *req_bus;
            proof {
                assert(req_post.has(st, sid));
                let j = req_post.id_index(st, sid);
                assert(0 <= j < req_post.ids_at(st).len() && req_post.ids_at(st)[j] == sid);
                assert forall|k: Seq<u8>| #[trigger] req_mid.ids_at(k) == req_post.ids_at(k) by {
                    if k == st {
                        assert(req_mid.ids_at(st) =~= req_post.ids_at(st));
                    }
                }
                if cc {
                    let jj = req0.id_index(base, sid);
                    assert(req_post.ids_at(base) == req0.ids_at(base));
                    assert(j == jj);
                    assert(served == req_post.registrations(base)[jj].1);
                    assert(served.spec_outbox().len() == 1);
                }
            }
            let responses = served.take_outbox();
            let n = responses.len();
            let mut i: usize = 0;
            while i < n
                invariant
                    req_bus.wf(),
                    resp_bus.wf(),
                    n == responses@.len(),
                    i <= n,
                    forall|k: Seq<u8>| #[trigger] req_bus.ids_at(k) == req_mid.ids_at(k),
                    forall|k: Seq<u8>| #[trigger] resp_bus.ids_at(k) == resp1.ids_at(k),
                    0 <= j1 < resp1.registrations(reply).len(),
                    cc ==> n == 1 && responses@[0].spec_topic() == reply
                        && responses@[0].spec_message().inner@ == expect,
                    cc && i == 0 ==> resp_bus.registrations(reply)[j1].1.spec_slot() is None
                        && resp_bus.registrations(reply).len() == resp1.registrations(
                        reply,
                    ).len(),
                    cc && i > 0 ==> slot_filled(resp_bus.registrations(reply)[j1].1, expect)
                        && resp_bus.registrations(reply).len() == resp1.registrations(
                        reply,
                    ).len(),
                decreases n - i,
            {
                let ghost resp_prev = *resp_bus;
                let delivery = resp_bus.post(&responses[i]);
                proof {
                    if cc {
                        assert(i == 0);
                        assert(responses@[0].spec_topic() == reply);
                        assert(delivery@.len() == resp_prev.ids_at(reply).len());
                        assert(resp_prev.ids_at(reply).len() == resp_prev.registrations(
                            reply,
                        ).len());
                        assert(OneShot::<MyServiceResponse>::handle_spec(
                            resp_prev.registrations(reply)[j1].1,
                            reply,
                            responses@[0].spec_message(),
                            resp_bus.registrations(reply)[j1].1,
                            delivery@[j1].1,
                        ));
                        let one = resp_bus.registrations(reply)[j1].1;
                        assert(one.spec_slot() matches Some(v) && vstd::pervasive::cloned::<
                            MyServiceResponse,
                        >(responses@[0].spec_message(), v));
                        let v = one.spec_slot().unwrap();
                        lemma_cloned_keeps_text(responses@[0].spec_message(), v);
                        assert(slot_filled(one, expect));
                        assert(resp_bus.ids_at(reply).len() == resp_prev.ids_at(reply).len());
                    }
                }
                i = i + 1;
            }
        },
        Err(_) => {
            proof {
                assert(!req_post.has(st, sid));
                assert(req_post.ids_at(st) == req0.ids_at(st));
                assert(!registered);
                assert(!cc);
            }
        },
    }
    proof {
        assert(forall|k: Seq<u8>| #[trigger] req_bus.ids_at(k) == req0.ids_at(k));
    }
    let ghost resp2 = *resp_bus;
    proof {
        assert(forall|k: Seq<u8>| #[trigger] resp2.ids_at(k) == resp1.ids_at(k));
        assert(resp2.has(reply, osid));
        assert(resp2.id_index(reply, osid) == j1) by {
            assert(resp2.ids_at(reply) == resp1.ids_at(reply));
        }
        if !registered {
            assert(resp2 == resp1);
        }
        if cc {
            assert(slot_filled(resp2.registrations(reply)[j1].1, expect));
        }
    }
    let delivered = resp_bus.take(&one_shot_handle);
    proof {
        let j2 = resp2.id_index(reply, osid);
        assert(j2 == j1);
        assert(0 <= j2 < resp2.ids_at(reply).len() && resp2.ids_at(reply)[j2] == osid);
        assert(resp_bus.ids_at(reply) =~= resp2.ids_at(reply).remove(j2)) by {
            resp2.registrations(reply).remove_ensures(j2);
            resp2.ids_at(reply).remove_ensures(j2);
        }
        resp2.ids_at(reply).remove_ensures(j2);
        assert forall|k: Seq<u8>| #[trigger]
            resp_bus.ids_at(k).to_set().subset_of(resp0.ids_at(k).to_set()) by {
            if k == reply {
                assert forall|x: u64| resp_bus.ids_at(reply).to_set().contains(x)
                    implies resp0.ids_at(reply).to_set().contains(x) by {
                    let xi = choose|xi: int|
                        0 <= xi < resp_bus.ids_at(reply).len() && resp_bus.ids_at(reply)[xi] == x;
                    let xo: int = if xi < j2 {
                        xi
                    } else {
                        xi + 1
                    };
                    assert(resp2.ids_at(reply)[xo] == x);
                    if resp0.has(reply, osid) {
                        assert(resp1.ids_at(reply) =~= resp0.ids_at(reply));
                        assert(resp0.ids_at(reply).contains(x));
                    } else {
                        assert(resp1.ids_at(reply) =~= resp0.ids_at(reply).push(osid));
                        if xo < resp0.ids_at(reply).len() {
                            assert(resp0.ids_at(reply).contains(x));
                        } else {
                            assert(x == osid);
                            resp1.lemma_ids_distinct(reply);
                            assert(resp2.ids_at(reply)[j2] == osid);
                            assert(j2 == resp0.ids_at(reply).len()) by {
                                if j2 < resp0.ids_at(reply).len() {
                                    assert(resp1.ids_at(reply)[j2] == resp0.ids_at(reply)[j2]);
                                    assert(resp1.ids_at(reply)[resp0.ids_at(reply).len() as int]
                                        == osid);
                                }
                            }
                            assert(false);
                        }
                    }
                }
            } else {
                assert(resp_bus.ids_at(k) == resp2.ids_at(k));
                assert(resp2.ids_at(k) == resp1.ids_at(k));
                assert(resp1.ids_at(k) == resp0.ids_at(k));
            }
        }
        assert(delivered == Some(resp2.registrations(reply)[j1].1));
    }
    match delivered {
        Some(mut one) => {
            match one.take() {
                Some(resp) => Some(resp.inner),
                None => None,
            }
        },
        None => None,
    }
}

} // verus!
