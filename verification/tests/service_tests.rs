//! The correlation layer: synchronous request/reply over the registry, with
//! an ephemeral reply topic as the correlation token.

use comet_eventbus::{
    my_service, my_service_call, Event, Eventbus, MyService, MyServiceRequest, MyServiceResponse,
    OneShot, TopicKey, REPLY_TOPIC_LEN,
};

#[test]
fn my_service_is_deterministic_in_its_arguments() {
    assert_eq!(my_service(1, String::from("hi"), vec![0, 1]), "1, hi, [0, 1]");
    assert_eq!(my_service(0, String::from(""), vec![]), "0, , []");
    assert_eq!(my_service(255, String::from("x"), vec![200]), "255, x, [200]");
    // the reference formatting of the same arguments agrees
    assert_eq!(
        my_service(1, String::from("hi"), vec![0, 1]),
        format!("{}, {}, {:?}", 1u8, "hi", vec![0u8, 1u8])
    );
}

#[test]
fn call_returns_the_handler_computed_response() {
    let mut req_bus: Eventbus<MyServiceRequest, MyService> = Eventbus::new();
    let mut resp_bus: Eventbus<MyServiceResponse, OneShot<MyServiceResponse>> = Eventbus::new();
    let base = TopicKey::from("topic");
    let service_handle = req_bus.register(base.clone(), MyService::new());

    let response = my_service_call(
        &mut req_bus,
        &mut resp_bus,
        &service_handle,
        &base,
        1u8,
        String::from("hi"),
        vec![0u8, 1u8],
    );
    assert_eq!(response.unwrap(), "1, hi, [0, 1]");

    // the service stays registered: a second call works the same way
    let response = my_service_call(
        &mut req_bus,
        &mut resp_bus,
        &service_handle,
        &base,
        2u8,
        String::from("again"),
        vec![],
    );
    assert_eq!(response.unwrap(), "2, again, []");
}

#[test]
fn call_without_a_server_returns_nothing() {
    let mut req_bus: Eventbus<MyServiceRequest, MyService> = Eventbus::new();
    let mut resp_bus: Eventbus<MyServiceResponse, OneShot<MyServiceResponse>> = Eventbus::new();
    let base = TopicKey::from("topic");
    // a handle that was never registered: nobody serves the request
    let service_handle = req_bus.register(base.clone(), MyService::new());
    let ghost_handle = service_handle.clone();
    req_bus.unregister(service_handle);

    let response = my_service_call(
        &mut req_bus,
        &mut resp_bus,
        &ghost_handle,
        &base,
        1u8,
        String::from("hi"),
        vec![],
    );
    assert!(response.is_none());
}

#[test]
fn reply_topic_has_no_listener_after_the_exchange() {
    // the caller's side of the protocol, step by step, with the reply topic
    // held so the cleanup is observable
    let mut req_bus: Eventbus<MyServiceRequest, MyService> = Eventbus::new();
    let mut resp_bus: Eventbus<MyServiceResponse, OneShot<MyServiceResponse>> = Eventbus::new();
    let base = TopicKey::from("topic");
    let service_handle = req_bus.register(base.clone(), MyService::new());

    let reply_topic = TopicKey::random(REPLY_TOPIC_LEN);
    let one_shot = resp_bus.register(reply_topic.clone(), OneShot::new());
    let request = MyServiceRequest {
        arg0: 1,
        arg1: String::from("hi"),
        arg2: vec![0, 1],
        reply_topic: reply_topic.clone(),
    };
    req_bus.post(&Event::new(base.clone(), request));

    // drive the queued response to the reply topic
    let mut served = req_bus.swap_listener(&service_handle, MyService::new()).ok().unwrap();
    let responses = served.take_outbox();
    assert_eq!(responses.len(), 1);
    for response in &responses {
        resp_bus.post(response);
    }

    let mut slot = resp_bus.take(&one_shot).unwrap();
    assert_eq!(slot.take().unwrap().inner, "1, hi, [0, 1]");

    // the ephemeral reply topic has no remaining listener: a subsequent post
    // to it reaches nobody
    assert_eq!(resp_bus.listener_count(&reply_topic), 0);
    let outcomes = resp_bus.post(&Event::new(
        reply_topic.clone(),
        MyServiceResponse { inner: String::from("late") },
    ));
    assert!(outcomes.is_empty());
}

#[test]
fn one_shot_keeps_the_first_delivery() {
    let mut resp_bus: Eventbus<MyServiceResponse, OneShot<MyServiceResponse>> = Eventbus::new();
    let reply = TopicKey::random(REPLY_TOPIC_LEN);
    let handle = resp_bus.register(reply.clone(), OneShot::new());

    let first = resp_bus.post(&Event::new(
        reply.clone(),
        MyServiceResponse { inner: String::from("first") },
    ));
    assert!(first[0].1.is_ok());
    // a second delivery to the same one-shot listener must not crash; it is
    // reported as one recoverable failure and the first value stays
    let second = resp_bus.post(&Event::new(
        reply.clone(),
        MyServiceResponse { inner: String::from("second") },
    ));
    assert!(second[0].1.is_err());

    let mut slot = resp_bus.take(&handle).unwrap();
    assert_eq!(slot.take().unwrap().inner, "first");
}
