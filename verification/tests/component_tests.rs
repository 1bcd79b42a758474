use iox_tunnel::codec::{decode_descriptor, encode_descriptor};
use iox_tunnel::descriptor::{MessagingPattern, PayloadShape, ServiceDescriptor, TypeIdentity};
use iox_tunnel::discovery::{DaemonDiscovery, DiscoveryError, DiscoveryTracker};
use iox_tunnel::keys;
use iox_tunnel::table::TunneledServiceTable;
use iox_tunnel::tunnel::{
    DiscoveryInput, LocalBusConfig, Scope, Tunnel, TunnelConfig, WireConfig,
};

fn sample_pubsub() -> ServiceDescriptor {
    ServiceDescriptor {
        fingerprint: 0xfeed_beef,
        name: "radar/objects".to_string(),
        pattern: MessagingPattern::PublishSubscribe {
            shape: PayloadShape::Fixed,
            payload_type: TypeIdentity { name: "RadarObject".to_string(), size: 24, align: 8 },
            history_size: 3,
            max_subscribers: 16,
        },
    }
}

fn sample_event() -> ServiceDescriptor {
    ServiceDescriptor {
        fingerprint: 7,
        name: "doors".to_string(),
        pattern: MessagingPattern::Event { max_notifiers: 4, greatest_event_id: 511 },
    }
}

#[test]
fn wire_keys_have_the_documented_form() {
    assert_eq!(keys::publish_subscribe(0x1234), "iox2/0000000000001234/payload");
    assert_eq!(keys::event(0x1234), "iox2/0000000000001234/event");
    assert_eq!(keys::service_details(0x1234), "iox2/0000000000001234/details");
    assert_eq!(
        keys::publish_subscribe(u64::MAX),
        "iox2/ffffffffffffffff/payload"
    );
}

#[test]
fn wire_keys_of_distinct_channels_differ() {
    let payload_key = keys::publish_subscribe(42);
    let event_key = keys::event(42);
    let details_key = keys::service_details(42);
    assert_ne!(payload_key, event_key);
    assert_ne!(payload_key, details_key);
    assert_ne!(event_key, details_key);
    assert_ne!(keys::publish_subscribe(42), keys::publish_subscribe(43));
}

#[test]
fn descriptor_encoding_round_trips_publish_subscribe() {
    let descriptor = sample_pubsub();
    let encoded = encode_descriptor(&descriptor);
    let decoded = decode_descriptor(encoded.as_str()).expect("announcement did not decode");
    assert_eq!(decoded.fingerprint, descriptor.fingerprint);
    assert_eq!(decoded.name, descriptor.name);
    match decoded.pattern {
        MessagingPattern::PublishSubscribe { shape, payload_type, history_size, max_subscribers } => {
            assert_eq!(shape, PayloadShape::Fixed);
            assert_eq!(payload_type.name, "RadarObject");
            assert_eq!(payload_type.size, 24);
            assert_eq!(payload_type.align, 8);
            assert_eq!(history_size, 3);
            assert_eq!(max_subscribers, 16);
        }
        MessagingPattern::Event { .. } => panic!("wrong pattern decoded"),
    }
}

#[test]
fn descriptor_encoding_round_trips_event() {
    let descriptor = sample_event();
    let encoded = encode_descriptor(&descriptor);
    let decoded = decode_descriptor(encoded.as_str()).expect("announcement did not decode");
    assert_eq!(decoded.fingerprint, 7);
    assert_eq!(decoded.name, "doors");
    match decoded.pattern {
        MessagingPattern::Event { max_notifiers, greatest_event_id } => {
            assert_eq!(max_notifiers, 4);
            assert_eq!(greatest_event_id, 511);
        }
        MessagingPattern::PublishSubscribe { .. } => panic!("wrong pattern decoded"),
    }
}

#[test]
fn descriptor_encoding_is_readable_text() {
    let encoded = encode_descriptor(&sample_event());
    assert!(encoded.starts_with("service\nfingerprint 0000000000000007\n"));
    assert!(encoded.contains("\npattern event\n"));
    assert!(encoded.contains("\ngreatest-id 00000000000001ff\n"));
}

#[test]
fn descriptor_with_unusual_name_round_trips() {
    let descriptor = ServiceDescriptor {
        fingerprint: 1,
        name: "spaces and\nnewlines; even = signs".to_string(),
        pattern: MessagingPattern::Event { max_notifiers: 1, greatest_event_id: 0 },
    };
    let encoded = encode_descriptor(&descriptor);
    let decoded = decode_descriptor(encoded.as_str()).expect("announcement did not decode");
    assert_eq!(decoded.name, descriptor.name);
}

#[test]
fn garbage_does_not_decode() {
    assert!(decode_descriptor("").is_none());
    assert!(decode_descriptor("service\n").is_none());
    assert!(decode_descriptor("not an announcement at all").is_none());
    // A truncated but otherwise well-formed prefix does not decode.
    let encoded = encode_descriptor(&sample_event());
    let truncated = &encoded[..encoded.len() - 2];
    assert!(decode_descriptor(truncated).is_none());
    // Trailing bytes after a full descriptor are refused too.
    let padded = format!("{}x", encoded);
    assert!(decode_descriptor(padded.as_str()).is_none());
}

#[test]
fn table_insertion_is_exactly_once() {
    let mut table = TunneledServiceTable::new();
    assert_eq!(table.len(), 0);
    assert!(!table.contains(9));
    assert!(table.insert(9));
    assert!(table.contains(9));
    assert!(!table.insert(9));
    assert_eq!(table.len(), 1);
    assert!(table.insert(10));
    assert_eq!(table.len(), 2);
    assert_eq!(table.to_vec(), vec![9, 10]);
}

#[test]
fn tracker_is_level_triggered() {
    let mut tracker = DiscoveryTracker::create();
    let snapshot = vec![sample_pubsub(), sample_event()];
    let added = tracker.discover(Some(&snapshot)).unwrap();
    assert_eq!(added.len(), 2);
    // The unchanged world yields nothing.
    let added_again = tracker.discover(Some(&snapshot)).unwrap();
    assert!(added_again.is_empty());
    // A service that vanishes and reappears is reported anew.
    let empty: Vec<ServiceDescriptor> = Vec::new();
    tracker.discover(Some(&empty)).unwrap();
    let re_added = tracker.discover(Some(&snapshot)).unwrap();
    assert_eq!(re_added.len(), 2);
}

#[test]
fn tracker_surfaces_synchronization_failure() {
    let mut tracker = DiscoveryTracker::create();
    let result = tracker.discover(None);
    assert_eq!(result.unwrap_err(), DiscoveryError::TrackerSynchronization);
}

#[test]
fn daemon_discovery_reports_each_service_once() {
    let mut daemon = DaemonDiscovery::create();
    // The stream retransmits: the same descriptor arrives twice in one
    // batch and once more in the next.
    let added = daemon.poll(&vec![sample_event(), sample_event(), sample_pubsub()]);
    assert_eq!(added.len(), 2);
    assert_eq!(added[0].fingerprint, 7);
    let added_again = daemon.poll(&vec![sample_event()]);
    assert!(added_again.is_empty());
}

#[test]
fn discover_surfaces_tracker_failure_and_changes_nothing() {
    let mut tunnel = Tunnel::create(
        &TunnelConfig::default(),
        &LocalBusConfig { node_id: 1 },
        &WireConfig { session_id: 1 },
    );
    let input = DiscoveryInput {
        snapshot: None,
        daemon_events: Vec::new(),
        daemon_events_missed: false,
        announcements: Vec::new(),
    };
    let result = tunnel.discover(Scope::Local, &input);
    assert_eq!(result.unwrap_err(), DiscoveryError::TrackerSynchronization);
    assert_eq!(tunnel.tunneled_services().len(), 0);
}

#[test]
fn discover_surfaces_bad_announcements_and_changes_nothing() {
    let mut tunnel = Tunnel::create(
        &TunnelConfig::default(),
        &LocalBusConfig { node_id: 1 },
        &WireConfig { session_id: 1 },
    );
    let input = DiscoveryInput {
        snapshot: Some(Vec::new()),
        daemon_events: Vec::new(),
        daemon_events_missed: false,
        announcements: vec!["this is not an announcement".to_string()],
    };
    let result = tunnel.discover(Scope::Wire, &input);
    assert_eq!(result.unwrap_err(), DiscoveryError::DiscoveryProcessing);
    assert_eq!(tunnel.tunneled_services().len(), 0);
}

#[test]
fn unconstructible_service_is_rejected_but_the_rest_is_admitted() {
    let mut tunnel = Tunnel::create(
        &TunnelConfig::default(),
        &LocalBusConfig { node_id: 1 },
        &WireConfig { session_id: 1 },
    );
    // A payload element of size zero cannot back a local endpoint.
    let broken = ServiceDescriptor {
        fingerprint: 500,
        name: "broken".to_string(),
        pattern: MessagingPattern::PublishSubscribe {
            shape: PayloadShape::Fixed,
            payload_type: TypeIdentity { name: "Nothing".to_string(), size: 0, align: 0 },
            history_size: 0,
            max_subscribers: 1,
        },
    };
    let input = DiscoveryInput {
        snapshot: Some(vec![broken, sample_event()]),
        daemon_events: Vec::new(),
        daemon_events_missed: false,
        announcements: Vec::new(),
    };
    let outcome = tunnel.discover(Scope::Local, &input).unwrap();
    assert_eq!(outcome.rejected, vec![500]);
    let services = tunnel.tunneled_services();
    assert_eq!(services, vec![7]);
}

#[test]
fn repeated_discovery_does_not_grow_the_table() {
    let mut tunnel = Tunnel::create(
        &TunnelConfig::default(),
        &LocalBusConfig { node_id: 1 },
        &WireConfig { session_id: 1 },
    );
    let input = DiscoveryInput {
        snapshot: Some(vec![sample_pubsub(), sample_event()]),
        daemon_events: Vec::new(),
        daemon_events_missed: false,
        announcements: Vec::new(),
    };
    tunnel.discover(Scope::Local, &input).unwrap();
    let first = tunnel.tunneled_services();
    assert_eq!(first.len(), 2);
    for _ in 0..3 {
        tunnel.discover(Scope::Local, &input).unwrap();
        assert_eq!(tunnel.tunneled_services(), first);
    }
}

#[test]
fn empty_snapshot_discovers_nothing() {
    let mut tunnel = Tunnel::create(
        &TunnelConfig::default(),
        &LocalBusConfig { node_id: 1 },
        &WireConfig { session_id: 1 },
    );
    let input = DiscoveryInput {
        snapshot: Some(Vec::new()),
        daemon_events: Vec::new(),
        daemon_events_missed: false,
        announcements: Vec::new(),
    };
    let outcome = tunnel.discover(Scope::Both, &input).unwrap();
    assert!(outcome.announcements.is_empty());
    assert!(outcome.rejected.is_empty());
    assert_eq!(tunnel.tunneled_services().len(), 0);
}

#[test]
fn announcement_query_for_unknown_service_is_empty() {
    let tunnel = Tunnel::create(
        &TunnelConfig::default(),
        &LocalBusConfig { node_id: 1 },
        &WireConfig { session_id: 1 },
    );
    assert!(tunnel.announcement_of(424242).is_none());
}

#[test]
fn colliding_fingerprints_are_bridged_once() {
    let mut tunnel = Tunnel::create(
        &TunnelConfig::default(),
        &LocalBusConfig { node_id: 1 },
        &WireConfig { session_id: 1 },
    );
    let twin = ServiceDescriptor {
        fingerprint: 7,
        name: "doors-twin".to_string(),
        pattern: MessagingPattern::Event { max_notifiers: 2, greatest_event_id: 15 },
    };
    let input = DiscoveryInput {
        snapshot: Some(vec![sample_event(), twin]),
        daemon_events: Vec::new(),
        daemon_events_missed: false,
        announcements: Vec::new(),
    };
    let outcome = tunnel.discover(Scope::Local, &input).unwrap();
    assert_eq!(tunnel.tunneled_services(), vec![7]);
    // Only the first arrival was announced.
    assert_eq!(outcome.announcements.len(), 1);
}

#[test]
fn both_hosts_converge_on_the_union_of_services() {
    let mut tunnel_a = Tunnel::create(
        &TunnelConfig::default(),
        &LocalBusConfig { node_id: 1 },
        &WireConfig { session_id: 1 },
    );
    let mut tunnel_b = Tunnel::create(
        &TunnelConfig::default(),
        &LocalBusConfig { node_id: 2 },
        &WireConfig { session_id: 2 },
    );

    // Host A offers the pub/sub service, host B the event service.
    let input_a = DiscoveryInput {
        snapshot: Some(vec![sample_pubsub()]),
        daemon_events: Vec::new(),
        daemon_events_missed: false,
        announcements: Vec::new(),
    };
    let input_b = DiscoveryInput {
        snapshot: Some(vec![sample_event()]),
        daemon_events: Vec::new(),
        daemon_events_missed: false,
        announcements: Vec::new(),
    };
    let outcome_a = tunnel_a.discover(Scope::Both, &input_a).unwrap();
    let outcome_b = tunnel_b.discover(Scope::Both, &input_b).unwrap();

    // Each host replays the announcements the wire retained for it.
    let for_b = DiscoveryInput {
        snapshot: Some(vec![sample_event()]),
        daemon_events: Vec::new(),
        daemon_events_missed: false,
        announcements: outcome_a.announcements.iter().map(|(_, p)| p.clone()).collect(),
    };
    let for_a = DiscoveryInput {
        snapshot: Some(vec![sample_pubsub()]),
        daemon_events: Vec::new(),
        daemon_events_missed: false,
        announcements: outcome_b.announcements.iter().map(|(_, p)| p.clone()).collect(),
    };
    tunnel_a.discover(Scope::Both, &for_a).unwrap();
    tunnel_b.discover(Scope::Both, &for_b).unwrap();

    let mut services_a = tunnel_a.tunneled_services();
    let mut services_b = tunnel_b.tunneled_services();
    services_a.sort();
    services_b.sort();
    assert_eq!(services_a, vec![7, 0xfeed_beef]);
    assert_eq!(services_b, vec![7, 0xfeed_beef]);
}

#[test]
fn missed_daemon_events_are_reported() {
    let mut tunnel = Tunnel::create(
        &TunnelConfig {
            discovery_service: Some("iox2://discovery/services/".into()),
        },
        &LocalBusConfig { node_id: 1 },
        &WireConfig { session_id: 1 },
    );
    let input = DiscoveryInput {
        snapshot: None,
        daemon_events: vec![sample_event()],
        daemon_events_missed: true,
        announcements: Vec::new(),
    };
    let result = tunnel.discover(Scope::Local, &input);
    assert_eq!(result.unwrap_err(), DiscoveryError::DiscoveryProcessing);
    assert_eq!(tunnel.tunneled_services().len(), 0);
}

#[test]
fn remote_discoveries_are_not_announced() {
    let mut tunnel_a = Tunnel::create(
        &TunnelConfig::default(),
        &LocalBusConfig { node_id: 1 },
        &WireConfig { session_id: 1 },
    );
    let input_a = DiscoveryInput {
        snapshot: Some(vec![sample_event()]),
        daemon_events: Vec::new(),
        daemon_events_missed: false,
        announcements: Vec::new(),
    };
    let outcome_a = tunnel_a.discover(Scope::Local, &input_a).unwrap();

    let mut tunnel_b = Tunnel::create(
        &TunnelConfig::default(),
        &LocalBusConfig { node_id: 2 },
        &WireConfig { session_id: 2 },
    );
    let input_b = DiscoveryInput {
        snapshot: Some(Vec::new()),
        daemon_events: Vec::new(),
        daemon_events_missed: false,
        announcements: outcome_a.announcements.iter().map(|(_, p)| p.clone()).collect(),
    };
    let outcome_b = tunnel_b.discover(Scope::Both, &input_b).unwrap();
    assert!(tunnel_b.tunneled_services().contains(&7));
    // Only locally discovered services are announced.
    assert!(outcome_b.announcements.is_empty());
    assert!(tunnel_b.announcement_of(7).is_none());
}
