use iox_tunnel::descriptor::{MessagingPattern, PayloadShape, ServiceDescriptor, TypeIdentity};
use iox_tunnel::event::{EventNotice, WireEvent};
use iox_tunnel::payload::{LocalSample, WireSample};
use iox_tunnel::tunnel::{
    DiscoveryInput, LocalBusConfig, Scope, ServiceTraffic, Tunnel, TunnelConfig, WireConfig,
};

fn pubsub_descriptor(
    fingerprint: u64,
    name: &str,
    shape: PayloadShape,
    size: u64,
    history_size: u64,
) -> ServiceDescriptor {
    ServiceDescriptor {
        fingerprint,
        name: name.to_string(),
        pattern: MessagingPattern::PublishSubscribe {
            shape,
            payload_type: TypeIdentity { name: "u8".to_string(), size, align: 1 },
            history_size,
            max_subscribers: 10,
        },
    }
}

fn event_descriptor(fingerprint: u64, name: &str, greatest_event_id: u64) -> ServiceDescriptor {
    ServiceDescriptor {
        fingerprint,
        name: name.to_string(),
        pattern: MessagingPattern::Event { max_notifiers: 10, greatest_event_id },
    }
}

fn no_input() -> DiscoveryInput {
    DiscoveryInput { snapshot: Some(Vec::new()), daemon_events: Vec::new(),
        daemon_events_missed: false, announcements: Vec::new() }
}

fn snapshot_input(snapshot: Vec<ServiceDescriptor>) -> DiscoveryInput {
    DiscoveryInput { snapshot: Some(snapshot), daemon_events: Vec::new(),
        daemon_events_missed: false, announcements: Vec::new() }
}

fn announcement_input(announcements: Vec<String>) -> DiscoveryInput {
    DiscoveryInput { snapshot: Some(Vec::new()), daemon_events: Vec::new(),
        daemon_events_missed: false, announcements }
}

fn make_tunnel(node_id: u64, session_id: u64) -> Tunnel {
    Tunnel::create(
        &TunnelConfig::default(),
        &LocalBusConfig { node_id },
        &WireConfig { session_id },
    )
}

fn quiet_traffic(fingerprint: u64) -> ServiceTraffic {
    ServiceTraffic {
        fingerprint,
        local_samples: Vec::new(),
        wire_samples: Vec::new(),
        local_events: Vec::new(),
        wire_events: Vec::new(),
    }
}

/// Hands the announcements one `discover` produced to a peer's input.
fn carry_announcements(outcome: &iox_tunnel::tunnel::DiscoverOutcome) -> Vec<String> {
    outcome.announcements.iter().map(|(_, payload)| payload.clone()).collect()
}

#[test]
fn discovers_local_services_via_discovery_service() {
    let iox_service_fingerprint: u64 = 0x51;
    let tunnel_config = TunnelConfig {
        discovery_service: Some("iox2://discovery/services/".into()),
    };
    let mut tunnel = Tunnel::create(
        &tunnel_config,
        &LocalBusConfig { node_id: 1 },
        &WireConfig { session_id: 1 },
    );
    assert_eq!(tunnel.tunneled_services().len(), 0);

    // The external discovery daemon publishes an announcement of the
    // newly created service on its topic.
    let descriptor =
        pubsub_descriptor(iox_service_fingerprint, "svc-daemon", PayloadShape::Slice, 1, 10);
    let input = DiscoveryInput {
        snapshot: None,
        daemon_events: vec![descriptor],
        daemon_events_missed: false,
        announcements: Vec::new(),
    };

    tunnel.discover(Scope::Local, &input).unwrap();
    assert_eq!(tunnel.tunneled_services().len(), 1);
    assert!(tunnel.tunneled_services().contains(&iox_service_fingerprint));
}

#[test]
fn discovers_local_services_via_tracker() {
    let iox_service_fingerprint: u64 = 0x52;
    let mut tunnel = make_tunnel(1, 1);
    assert_eq!(tunnel.tunneled_services().len(), 0);

    let descriptor =
        pubsub_descriptor(iox_service_fingerprint, "svc-tracker", PayloadShape::Slice, 1, 10);
    tunnel.discover(Scope::Local, &snapshot_input(vec![descriptor])).unwrap();
    assert_eq!(tunnel.tunneled_services().len(), 1);
    assert!(tunnel.tunneled_services().contains(&iox_service_fingerprint));
}

#[test]
fn discovers_remote_services_via_zenoh() {
    let iox_service_fingerprint: u64 = 0x53;
    let mut tunnel_a = make_tunnel(1, 1);
    assert_eq!(tunnel_a.tunneled_services().len(), 0);
    let mut tunnel_b = make_tunnel(2, 2);
    assert_eq!(tunnel_b.tunneled_services().len(), 0);

    // Host A hears nothing on the wire yet.
    tunnel_a.discover(Scope::Wire, &no_input()).unwrap();
    assert_eq!(tunnel_a.tunneled_services().len(), 0);

    // Host B discovers its local service and announces it.
    let descriptor =
        pubsub_descriptor(iox_service_fingerprint, "svc-remote", PayloadShape::Slice, 1, 10);
    let outcome_b = tunnel_b.discover(Scope::Local, &snapshot_input(vec![descriptor])).unwrap();
    assert_eq!(tunnel_b.tunneled_services().len(), 1);
    assert!(tunnel_b.tunneled_services().contains(&iox_service_fingerprint));

    // Host A picks the announcement up from the wire.
    tunnel_a
        .discover(Scope::Wire, &announcement_input(carry_announcements(&outcome_b)))
        .unwrap();
    assert!(
        tunnel_a.tunneled_services().contains(&iox_service_fingerprint),
        "failed to discover remote service"
    );
}

/// The byte image of the record `{id: u32, value: f64, active: bool}`.
fn my_type_bytes(id: u32, value: f64, active: bool) -> Vec<u8> {
    let mut bytes = Vec::new();
    bytes.extend_from_slice(&id.to_le_bytes());
    bytes.extend_from_slice(&value.to_le_bytes());
    bytes.push(active as u8);
    bytes
}

fn propagates_n_struct_payloads(sample_count: usize) {
    let fingerprint: u64 = 0x60;
    let user_publisher_id: u64 = 1000;
    let record_size: u64 = 13;

    let mut tunnel_a = make_tunnel(1, 1);
    let descriptor = pubsub_descriptor(fingerprint, "svc-struct", PayloadShape::Fixed, record_size, 0);
    let outcome_a = tunnel_a.discover(Scope::Local, &snapshot_input(vec![descriptor])).unwrap();
    assert_eq!(tunnel_a.tunneled_services().len(), 1);
    assert!(tunnel_a.tunneled_services().contains(&fingerprint));

    let mut tunnel_b = make_tunnel(2, 2);
    tunnel_b
        .discover(Scope::Wire, &announcement_input(carry_announcements(&outcome_a)))
        .unwrap();
    assert!(
        tunnel_b.tunneled_services().contains(&fingerprint),
        "failed to discover remote service"
    );

    for i in 0..sample_count {
        let payload_data = my_type_bytes(42 + i as u32, 3.14 + i as f64, i % 2 == 0);

        // Host A's local publisher emits the sample; the connector's
        // subscriber drains it.
        let mut traffic_a = quiet_traffic(fingerprint);
        traffic_a.local_samples.push(LocalSample {
            origin: user_publisher_id,
            payload: payload_data.clone(),
        });
        let out_a = tunnel_a.propagate(&vec![traffic_a]);
        assert_eq!(out_a[0].to_wire_samples.len(), 1);

        // The wire carries the message to host B, which injects it.
        let mut traffic_b = quiet_traffic(fingerprint);
        for wire_sample in &out_a[0].to_wire_samples {
            traffic_b.wire_samples.push(WireSample {
                origin: wire_sample.origin,
                payload: wire_sample.payload.clone(),
            });
        }
        let out_b = tunnel_b.propagate(&vec![traffic_b]);
        assert_eq!(out_b[0].to_local_samples.len(), 1, "failed to receive expected sample");
        assert_eq!(out_b[0].to_local_samples[0].payload, payload_data, "received unexpected sample");
    }
}

#[test]
fn propagates_one_struct_payload() {
    propagates_n_struct_payloads(1);
}

#[test]
fn propagates_two_struct_payloads() {
    propagates_n_struct_payloads(2);
}

#[test]
fn propagates_ten_struct_payloads() {
    propagates_n_struct_payloads(10);
}

fn propagates_n_slice_payloads(sample_count: usize) {
    const PAYLOAD_DATA_LENGTH: usize = 256;
    let fingerprint: u64 = 0x61;
    let user_publisher_id: u64 = 1000;

    let mut tunnel_a = make_tunnel(1, 1);
    let descriptor = pubsub_descriptor(fingerprint, "svc-slice", PayloadShape::Slice, 1, 0);
    let outcome_a = tunnel_a.discover(Scope::Local, &snapshot_input(vec![descriptor])).unwrap();
    assert_eq!(tunnel_a.tunneled_services().len(), 1);
    assert!(tunnel_a.tunneled_services().contains(&fingerprint));

    let mut tunnel_b = make_tunnel(2, 2);
    tunnel_b
        .discover(Scope::Wire, &announcement_input(carry_announcements(&outcome_a)))
        .unwrap();
    assert!(
        tunnel_b.tunneled_services().contains(&fingerprint),
        "failed to discover remote service"
    );

    for i in 0..sample_count {
        let mut payload_data = Vec::with_capacity(PAYLOAD_DATA_LENGTH);
        for j in 0..PAYLOAD_DATA_LENGTH {
            let char_index = ((i * 7 + j * 13) % 26) as u8;
            payload_data.push(b'A' + char_index);
        }

        let mut traffic_a = quiet_traffic(fingerprint);
        traffic_a.local_samples.push(LocalSample {
            origin: user_publisher_id,
            payload: payload_data.clone(),
        });
        let out_a = tunnel_a.propagate(&vec![traffic_a]);
        assert_eq!(out_a[0].to_wire_samples.len(), 1);

        let mut traffic_b = quiet_traffic(fingerprint);
        for wire_sample in &out_a[0].to_wire_samples {
            traffic_b.wire_samples.push(WireSample {
                origin: wire_sample.origin,
                payload: wire_sample.payload.clone(),
            });
        }
        let out_b = tunnel_b.propagate(&vec![traffic_b]);
        assert_eq!(out_b[0].to_local_samples.len(), 1, "failed to receive expected sample");
        assert_eq!(out_b[0].to_local_samples[0].payload, payload_data, "received unexpected sample");
    }
}

#[test]
fn propagates_one_slice_payload() {
    propagates_n_slice_payloads(1);
}

#[test]
fn propagates_two_slice_payloads() {
    propagates_n_slice_payloads(2);
}

#[test]
fn propagates_ten_slice_payloads() {
    propagates_n_slice_payloads(10);
}

#[test]
fn propagated_payloads_do_not_loop_back() {
    const PAYLOAD_DATA: &str = "WhenItRegisters";
    let fingerprint: u64 = 0x62;
    let user_publisher_id: u64 = 1000;

    let mut tunnel_a = make_tunnel(1, 1);
    let descriptor = pubsub_descriptor(fingerprint, "svc-loop", PayloadShape::Slice, 1, 0);
    tunnel_a.discover(Scope::Local, &snapshot_input(vec![descriptor])).unwrap();
    assert_eq!(tunnel_a.tunneled_services().len(), 1);
    assert!(tunnel_a.tunneled_services().contains(&fingerprint));

    // The user publisher emits; the user subscriber drains its local
    // copy directly from the bus. The connector's subscriber drains the
    // same sample.
    let mut traffic = quiet_traffic(fingerprint);
    traffic.local_samples.push(LocalSample {
        origin: user_publisher_id,
        payload: PAYLOAD_DATA.as_bytes().to_vec(),
    });
    let out = tunnel_a.propagate(&vec![traffic]);

    // The sample went to the wire, but nothing was injected back into
    // host A's bus.
    assert_eq!(out[0].to_wire_samples.len(), 1);
    assert!(out[0].to_local_samples.is_empty(), "sample looped back");

    // Even if the wire echoed host A's own message back, the connector
    // filters its own session.
    let mut echo = quiet_traffic(fingerprint);
    for wire_sample in &out[0].to_wire_samples {
        echo.wire_samples.push(WireSample {
            origin: wire_sample.origin,
            payload: wire_sample.payload.clone(),
        });
    }
    let out2 = tunnel_a.propagate(&vec![echo]);
    assert!(out2[0].to_local_samples.is_empty(), "sample looped back");
}

#[test]
fn announces_service_details_on_zenoh() {
    let fingerprint: u64 = 0x63;
    let mut tunnel_a = make_tunnel(1, 1);
    let descriptor = pubsub_descriptor(fingerprint, "svc-announce", PayloadShape::Slice, 1, 10);
    let outcome = tunnel_a.discover(Scope::Local, &snapshot_input(vec![descriptor])).unwrap();
    assert_eq!(tunnel_a.tunneled_services().len(), 1);
    assert!(tunnel_a.tunneled_services().contains(&fingerprint));

    // The announcement sits under the service's details key.
    assert_eq!(outcome.announcements.len(), 1);
    let (key, payload) = &outcome.announcements[0];
    assert_eq!(key, &iox_tunnel::keys::service_details(fingerprint));

    // A querier that knows only the wire format can reconstruct the
    // full descriptor.
    let decoded = iox_tunnel::codec::decode_descriptor(payload.as_str())
        .expect("no reply to type details query");
    assert_eq!(decoded.fingerprint, fingerprint);
    assert_eq!(decoded.name, "svc-announce");
    match decoded.pattern {
        MessagingPattern::PublishSubscribe { shape, payload_type, history_size, max_subscribers } => {
            assert_eq!(shape, PayloadShape::Slice);
            assert_eq!(payload_type.name, "u8");
            assert_eq!(payload_type.size, 1);
            assert_eq!(payload_type.align, 1);
            assert_eq!(history_size, 10);
            assert_eq!(max_subscribers, 10);
        }
        MessagingPattern::Event { .. } => panic!("error reading reply to type details query"),
    }

    // The port answers queries with the same payload.
    let replied = tunnel_a.announcement_of(fingerprint).expect("no reply to type details query");
    assert_eq!(&replied, payload);
}

#[test]
fn propagates_one_event() {
    let fingerprint: u64 = 0x64;
    let user_notifier_id: u64 = 2000;

    let mut tunnel_a = make_tunnel(1, 1);
    let descriptor = event_descriptor(fingerprint, "svc-event", 255);
    let outcome_a = tunnel_a.discover(Scope::Local, &snapshot_input(vec![descriptor])).unwrap();
    assert_eq!(tunnel_a.tunneled_services().len(), 1);
    assert!(tunnel_a.tunneled_services().contains(&fingerprint));

    let mut tunnel_b = make_tunnel(2, 2);
    tunnel_b
        .discover(Scope::Wire, &announcement_input(carry_announcements(&outcome_a)))
        .unwrap();
    assert!(
        tunnel_b.tunneled_services().contains(&fingerprint),
        "failed to discover remote service"
    );

    // Host A's notifier raises one notification.
    let mut traffic_a = quiet_traffic(fingerprint);
    traffic_a.local_events.push(EventNotice { origin: user_notifier_id, id: 0 });
    let out_a = tunnel_a.propagate(&vec![traffic_a]);
    assert_eq!(out_a[0].to_wire_events.len(), 1);

    // Host B raises it on its local notifier.
    let mut traffic_b = quiet_traffic(fingerprint);
    traffic_b.wire_events.extend(out_a[0].to_wire_events.iter().copied());
    let out_b = tunnel_b.propagate(&vec![traffic_b]);
    assert_eq!(out_b[0].to_local_events.len(), 1, "failed to receive expected event");
    assert_eq!(out_b[0].to_local_events[0].id, 0);
}

#[test]
fn propagated_events_do_not_loop_back() {
    let fingerprint: u64 = 0x65;
    let user_notifier_id: u64 = 2000;

    let mut tunnel_a = make_tunnel(1, 1);
    let descriptor = event_descriptor(fingerprint, "svc-event-loop", 255);
    let outcome_a = tunnel_a.discover(Scope::Local, &snapshot_input(vec![descriptor])).unwrap();
    assert_eq!(tunnel_a.tunneled_services().len(), 1);
    assert!(tunnel_a.tunneled_services().contains(&fingerprint));

    let mut tunnel_b = make_tunnel(2, 2);
    tunnel_b
        .discover(Scope::Wire, &announcement_input(carry_announcements(&outcome_a)))
        .unwrap();
    assert!(
        tunnel_b.tunneled_services().contains(&fingerprint),
        "failed to discover remote service"
    );

    // Host A notifies; its own listener drains the notification
    // locally, and the connector drains it too.
    let mut traffic_a = quiet_traffic(fingerprint);
    traffic_a.local_events.push(EventNotice { origin: user_notifier_id, id: 5 });
    let out_a = tunnel_a.propagate(&vec![traffic_a]);
    assert_eq!(out_a[0].to_wire_events.len(), 1);

    // Host B observes the event.
    let mut traffic_b = quiet_traffic(fingerprint);
    traffic_b.wire_events.extend(out_a[0].to_wire_events.iter().copied());
    let out_b = tunnel_b.propagate(&vec![traffic_b]);
    assert_eq!(out_b[0].to_local_events.len(), 1, "failed to receive expected event");

    // Host B's connector raised the event on its own notifier; its own
    // listener sees it and must not send it back out.
    let mut echo_b = quiet_traffic(fingerprint);
    echo_b.local_events.extend(out_b[0].to_local_events.iter().copied());
    let out_b2 = tunnel_b.propagate(&vec![echo_b]);
    assert!(out_b2[0].to_wire_events.is_empty());

    // A few more cycles move nothing back to host A's listener.
    for _ in 0..5 {
        let out_a_again = tunnel_a.propagate(&vec![quiet_traffic(fingerprint)]);
        let out_b_again = tunnel_b.propagate(&vec![quiet_traffic(fingerprint)]);
        assert!(out_a_again[0].to_local_events.is_empty());
        assert!(out_b_again[0].to_local_events.is_empty());
    }
}

#[test]
fn multiple_events_are_consolidated_by_id() {
    let fingerprint: u64 = 0x66;
    let user_notifier_id: u64 = 2000;

    let mut tunnel_a = make_tunnel(1, 1);
    let descriptor = event_descriptor(fingerprint, "svc-consolidate", 255);
    let outcome_a = tunnel_a.discover(Scope::Local, &snapshot_input(vec![descriptor])).unwrap();
    assert_eq!(tunnel_a.tunneled_services().len(), 1);
    assert!(tunnel_a.tunneled_services().contains(&fingerprint));

    let mut tunnel_b = make_tunnel(2, 2);
    tunnel_b
        .discover(Scope::Wire, &announcement_input(carry_announcements(&outcome_a)))
        .unwrap();
    assert!(
        tunnel_b.tunneled_services().contains(&fingerprint),
        "failed to discover remote service"
    );

    // Host A raises three distinct identifiers, ten times each,
    // without an intervening drain.
    const NUM_NOTIFICATIONS: usize = 10;
    let event_a: u64 = 42;
    let event_b: u64 = 73;
    let event_c: u64 = 127;
    let mut traffic_a = quiet_traffic(fingerprint);
    for _ in 0..NUM_NOTIFICATIONS {
        traffic_a.local_events.push(EventNotice { origin: user_notifier_id, id: event_a });
        traffic_a.local_events.push(EventNotice { origin: user_notifier_id, id: event_b });
        traffic_a.local_events.push(EventNotice { origin: user_notifier_id, id: event_c });
    }
    let out_a = tunnel_a.propagate(&vec![traffic_a]);

    // The wire receives each distinct identifier exactly once.
    assert_eq!(out_a[0].to_wire_events.len(), 3);

    let mut traffic_b = quiet_traffic(fingerprint);
    traffic_b.wire_events.extend(out_a[0].to_wire_events.iter().copied());
    let out_b = tunnel_b.propagate(&vec![traffic_b]);

    let mut num_notifications_a = 0;
    let mut num_notifications_b = 0;
    let mut num_notifications_c = 0;
    for notice in &out_b[0].to_local_events {
        if notice.id == event_a {
            num_notifications_a += 1;
        }
        if notice.id == event_b {
            num_notifications_b += 1;
        }
        if notice.id == event_c {
            num_notifications_c += 1;
        }
    }
    assert_eq!(num_notifications_a, 1, "expected notifications did not arrive");
    assert_eq!(num_notifications_b, 1, "expected notifications did not arrive");
    assert_eq!(num_notifications_c, 1, "expected notifications did not arrive");
}

#[test]
fn echoed_wire_events_do_not_reenter_the_origin() {
    let fingerprint: u64 = 0x67;
    let mut tunnel_a = make_tunnel(1, 1);
    let descriptor = event_descriptor(fingerprint, "svc-echo", 255);
    tunnel_a.discover(Scope::Local, &snapshot_input(vec![descriptor])).unwrap();

    let mut traffic = quiet_traffic(fingerprint);
    traffic.local_events.push(EventNotice { origin: 2000, id: 7 });
    let out = tunnel_a.propagate(&vec![traffic]);
    assert_eq!(out[0].to_wire_events.len(), 1);

    // An event echoed back with the tunnel's own session is filtered.
    let mut echo = quiet_traffic(fingerprint);
    echo.wire_events.push(WireEvent { origin: out[0].to_wire_events[0].origin, id: 7 });
    let out2 = tunnel_a.propagate(&vec![echo]);
    assert!(out2[0].to_local_events.is_empty());
}
