use skunk::flow::{FlowBus, FlowEmitter, FlowEvent, FlowEventKind, Received};

#[test]
fn emitter_produces_the_lifecycle_in_order() {
    let mut emitter = FlowEmitter::new(7);
    let mut kinds = Vec::new();
    kinds.push(emitter.start().kind);
    kinds.push(emitter.request_body().kind);
    kinds.push(emitter.request_body().kind);
    kinds.push(emitter.response_headers().kind);
    kinds.push(emitter.response_body().kind);
    kinds.push(emitter.complete().kind);
    assert_eq!(
        kinds,
        vec![
            FlowEventKind::Started,
            FlowEventKind::RequestBody,
            FlowEventKind::RequestBody,
            FlowEventKind::ResponseHeaders,
            FlowEventKind::ResponseBody,
            FlowEventKind::Completed,
        ]
    );
}

#[test]
fn emitter_without_bodies_still_orders_events() {
    let mut emitter = FlowEmitter::new(1);
    assert_eq!(emitter.start().kind, FlowEventKind::Started);
    assert_eq!(emitter.response_headers().kind, FlowEventKind::ResponseHeaders);
    assert_eq!(emitter.complete().kind, FlowEventKind::Completed);
}

#[test]
fn subscriber_sees_events_in_publish_order() {
    let mut bus = FlowBus::new();
    let s = bus.subscribe(8);
    bus.publish(FlowEvent { flow_id: 1, kind: FlowEventKind::Started });
    bus.publish(FlowEvent { flow_id: 1, kind: FlowEventKind::ResponseHeaders });
    bus.publish(FlowEvent { flow_id: 1, kind: FlowEventKind::Completed });
    assert_eq!(
        bus.recv(s),
        Some(Received::Event(FlowEvent { flow_id: 1, kind: FlowEventKind::Started }))
    );
    assert_eq!(
        bus.recv(s),
        Some(Received::Event(FlowEvent { flow_id: 1, kind: FlowEventKind::ResponseHeaders }))
    );
    assert_eq!(
        bus.recv(s),
        Some(Received::Event(FlowEvent { flow_id: 1, kind: FlowEventKind::Completed }))
    );
    assert_eq!(bus.recv(s), None);
}

#[test]
fn overflow_drops_oldest_and_reports_the_gap() {
    let mut bus = FlowBus::new();
    let s = bus.subscribe(2);
    bus.publish(FlowEvent { flow_id: 1, kind: FlowEventKind::Started });
    bus.publish(FlowEvent { flow_id: 2, kind: FlowEventKind::Started });
    bus.publish(FlowEvent { flow_id: 3, kind: FlowEventKind::Started });
    // The queue held two; the oldest was dropped and the gap is reported
    // first.
    assert_eq!(bus.recv(s), Some(Received::Lagged(1)));
    assert_eq!(
        bus.recv(s),
        Some(Received::Event(FlowEvent { flow_id: 2, kind: FlowEventKind::Started }))
    );
    assert_eq!(
        bus.recv(s),
        Some(Received::Event(FlowEvent { flow_id: 3, kind: FlowEventKind::Started }))
    );
    assert_eq!(bus.recv(s), None);
}

#[test]
fn slow_subscriber_does_not_stall_others() {
    let mut bus = FlowBus::new();
    let slow = bus.subscribe(1);
    let fast = bus.subscribe(16);
    for id in 0..5u128 {
        bus.publish(FlowEvent { flow_id: id, kind: FlowEventKind::Started });
    }
    // The fast subscriber saw everything, in order.
    for id in 0..5u128 {
        assert_eq!(
            bus.recv(fast),
            Some(Received::Event(FlowEvent { flow_id: id, kind: FlowEventKind::Started }))
        );
    }
    // The slow one lost four and holds the newest.
    assert_eq!(bus.recv(slow), Some(Received::Lagged(4)));
    assert_eq!(
        bus.recv(slow),
        Some(Received::Event(FlowEvent { flow_id: 4, kind: FlowEventKind::Started }))
    );
}
