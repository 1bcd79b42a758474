use iox_tunnel::descriptor::PayloadShape;
use iox_tunnel::event::{EventConnector, EventNotice, WireEvent};
use iox_tunnel::payload::{LocalSample, PayloadConnector, WireSample};

fn payload_connector(shape: PayloadShape, payload_size: u64, max_slice_len: u64) -> PayloadConnector {
    PayloadConnector::create(77, shape, payload_size, max_slice_len, 77, 1)
}

#[test]
fn outbound_keeps_genuine_samples_in_order() {
    let c = payload_connector(PayloadShape::Slice, 1, 16);
    let drained = vec![
        LocalSample { origin: 5, payload: vec![1] },
        LocalSample { origin: 6, payload: vec![2, 3] },
    ];
    let out = c.relay_outbound(&drained);
    assert_eq!(out.len(), 2);
    assert_eq!(out[0].payload, vec![1]);
    assert_eq!(out[1].payload, vec![2, 3]);
    assert_eq!(out[0].origin, 1);
}

#[test]
fn outbound_skips_the_connectors_own_injections() {
    let c = payload_connector(PayloadShape::Slice, 1, 16);
    let drained = vec![
        LocalSample { origin: 77, payload: vec![9] },
        LocalSample { origin: 5, payload: vec![1] },
        LocalSample { origin: 77, payload: vec![8] },
    ];
    let out = c.relay_outbound(&drained);
    assert_eq!(out.len(), 1);
    assert_eq!(out[0].payload, vec![1]);
}

#[test]
fn inbound_stamps_samples_with_the_connectors_endpoint() {
    let mut c = payload_connector(PayloadShape::Slice, 1, 16);
    let received = vec![WireSample { origin: 2, payload: vec![4, 5, 6] }];
    let out = c.relay_inbound(&received);
    assert_eq!(out.len(), 1);
    assert_eq!(out[0].origin, 77);
    assert_eq!(out[0].payload, vec![4, 5, 6]);
    assert_eq!(c.failed_relays, 0);
}

#[test]
fn inbound_filters_the_connectors_own_session() {
    let mut c = payload_connector(PayloadShape::Slice, 1, 16);
    let received = vec![
        WireSample { origin: 1, payload: vec![1] },
        WireSample { origin: 2, payload: vec![2] },
    ];
    let out = c.relay_inbound(&received);
    assert_eq!(out.len(), 1);
    assert_eq!(out[0].payload, vec![2]);
    // Filtering the own session is not a failure.
    assert_eq!(c.failed_relays, 0);
}

#[test]
fn fixed_shape_rejects_wrongly_sized_samples() {
    let mut c = payload_connector(PayloadShape::Fixed, 4, 0);
    let received = vec![
        WireSample { origin: 2, payload: vec![1, 2, 3] },
        WireSample { origin: 2, payload: vec![1, 2, 3, 4] },
        WireSample { origin: 2, payload: vec![1, 2, 3, 4, 5] },
    ];
    let out = c.relay_inbound(&received);
    assert_eq!(out.len(), 1);
    assert_eq!(out[0].payload, vec![1, 2, 3, 4]);
    assert_eq!(c.failed_relays, 2);
}

#[test]
fn oversized_slices_are_counted_and_skipped() {
    let mut c = payload_connector(PayloadShape::Slice, 1, 2);
    let received = vec![
        WireSample { origin: 2, payload: vec![1, 2, 3] },
        WireSample { origin: 2, payload: vec![1, 2] },
    ];
    let out = c.relay_inbound(&received);
    assert_eq!(out.len(), 1);
    assert_eq!(out[0].payload, vec![1, 2]);
    assert_eq!(c.failed_relays, 1);
}

#[test]
fn event_bursts_are_consolidated_to_distinct_identifiers() {
    let c = EventConnector::create(88, 255, 88, 1);
    let mut drained = Vec::new();
    for _ in 0..10 {
        drained.push(EventNotice { origin: 9, id: 42 });
        drained.push(EventNotice { origin: 9, id: 73 });
        drained.push(EventNotice { origin: 9, id: 127 });
    }
    let out = c.relay_outbound(&drained);
    let ids: Vec<u64> = out.iter().map(|w| w.id).collect();
    assert_eq!(ids, vec![42, 73, 127]);
}

#[test]
fn empty_event_drain_emits_nothing() {
    let c = EventConnector::create(88, 255, 88, 1);
    assert!(c.relay_outbound(&Vec::new()).is_empty());
}

#[test]
fn own_notifications_are_not_consolidated_onto_the_wire() {
    let c = EventConnector::create(88, 255, 88, 1);
    let drained = vec![
        EventNotice { origin: 88, id: 1 },
        EventNotice { origin: 9, id: 2 },
        EventNotice { origin: 88, id: 3 },
    ];
    let out = c.relay_outbound(&drained);
    let ids: Vec<u64> = out.iter().map(|w| w.id).collect();
    assert_eq!(ids, vec![2]);
}

#[test]
fn wire_events_outside_the_service_range_are_dropped() {
    let mut c = EventConnector::create(88, 100, 88, 1);
    let received = vec![
        WireEvent { origin: 2, id: 100 },
        WireEvent { origin: 2, id: 101 },
    ];
    let out = c.relay_inbound(&received);
    assert_eq!(out.len(), 1);
    assert_eq!(out[0].id, 100);
    assert_eq!(out[0].origin, 88);
    assert_eq!(c.failed_relays, 1);
}

#[test]
fn duplicate_wire_events_are_delivered_without_consolidation() {
    let mut c = EventConnector::create(88, 255, 88, 1);
    let received = vec![
        WireEvent { origin: 2, id: 6 },
        WireEvent { origin: 2, id: 6 },
    ];
    let out = c.relay_inbound(&received);
    assert_eq!(out.len(), 2);
}
