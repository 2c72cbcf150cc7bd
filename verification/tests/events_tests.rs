use accesslm::events::{NetworkEvent, NodeState};
use accesslm::json::{index_string, snapshot_string};

#[test]
fn discovery_event_reaches_snapshot() {
    let mut node = NodeState::new();
    node.handle_event(&NetworkEvent::Discovered {
        peer: "P1".to_string(),
        ip: "10.0.0.5".to_string(),
        ts: 100,
    });
    let snap = snapshot_string(&node.registry, 100);
    assert_eq!(
        snap,
        "{\"updated_at\":100,\"peers\":[{\"peer_id\":\"P1\",\"ip\":\"10.0.0.5\",\"last_seen\":100}]}"
    );
}

#[test]
fn lookup_result_reaches_index_file() {
    // The persisted index keeps the key's "model:" prefix.
    let mut node = NodeState::new();
    node.handle_event(&NetworkEvent::LookupResult {
        key: "model:org/model-a".to_string(),
        value: "Qm...2|10.0.0.8|7331".to_string(),
    });
    assert_eq!(
        index_string(&node.index),
        "{\"model:org/model-a\":[\"Qm...2|10.0.0.8|7331\"]}"
    );
}

#[test]
fn lookup_results_accumulate_in_arrival_order() {
    let mut node = NodeState::new();
    node.handle_event(&NetworkEvent::LookupResult {
        key: "model:m".to_string(),
        value: "D1".to_string(),
    });
    node.handle_event(&NetworkEvent::LookupResult {
        key: "model:m".to_string(),
        value: "D2".to_string(),
    });
    // A third, unrelated result never mutates the entry for "model:m".
    node.handle_event(&NetworkEvent::LookupResult {
        key: "model:other".to_string(),
        value: "D3".to_string(),
    });
    assert_eq!(
        index_string(&node.index),
        "{\"model:m\":[\"D1\",\"D2\"],\"model:other\":[\"D3\"]}"
    );
}

#[test]
fn expiry_event_empties_snapshot() {
    let mut node = NodeState::new();
    node.handle_event(&NetworkEvent::Discovered {
        peer: "P1".to_string(),
        ip: "10.0.0.5".to_string(),
        ts: 100,
    });
    node.handle_event(&NetworkEvent::Expired { peer: "P1".to_string() });
    assert_eq!(snapshot_string(&node.registry, 101), "{\"updated_at\":101,\"peers\":[]}");
}

#[test]
fn replay_keeps_peers_discovered_and_not_expired() {
    let mut node = NodeState::new();
    node.handle_event(&NetworkEvent::Discovered {
        peer: "P1".to_string(),
        ip: "10.0.0.1".to_string(),
        ts: 1,
    });
    node.handle_event(&NetworkEvent::Discovered {
        peer: "P2".to_string(),
        ip: "10.0.0.2".to_string(),
        ts: 2,
    });
    node.handle_event(&NetworkEvent::Expired { peer: "P1".to_string() });
    node.handle_event(&NetworkEvent::Discovered {
        peer: "P3".to_string(),
        ip: "10.0.0.3".to_string(),
        ts: 3,
    });
    let snap = snapshot_string(&node.registry, 4);
    assert!(!snap.contains("P1"));
    assert_eq!(
        snap,
        "{\"updated_at\":4,\"peers\":[\
         {\"peer_id\":\"P2\",\"ip\":\"10.0.0.2\",\"last_seen\":2},\
         {\"peer_id\":\"P3\",\"ip\":\"10.0.0.3\",\"last_seen\":3}]}"
    );
}

#[test]
fn identify_without_address_only_touches() {
    let mut node = NodeState::new();
    // Unknown peer: no record is fabricated.
    node.handle_event(&NetworkEvent::Identified {
        peer: "P9".to_string(),
        addr: None,
        ts: 10,
    });
    assert_eq!(node.registry.len(), 0);
    // Known peer: last_seen moves, address is kept.
    node.handle_event(&NetworkEvent::Discovered {
        peer: "P9".to_string(),
        ip: "10.0.0.9".to_string(),
        ts: 11,
    });
    node.handle_event(&NetworkEvent::Identified {
        peer: "P9".to_string(),
        addr: None,
        ts: 12,
    });
    assert_eq!(
        snapshot_string(&node.registry, 12),
        "{\"updated_at\":12,\"peers\":[{\"peer_id\":\"P9\",\"ip\":\"10.0.0.9\",\"last_seen\":12}]}"
    );
}

#[test]
fn identify_with_address_inserts() {
    let mut node = NodeState::new();
    node.handle_event(&NetworkEvent::Identified {
        peer: "P5".to_string(),
        addr: Some("10.0.0.55".to_string()),
        ts: 7,
    });
    assert!(node.registry.contains("P5"));
}

#[test]
fn ping_touches_known_peer() {
    let mut node = NodeState::new();
    node.handle_event(&NetworkEvent::Discovered {
        peer: "P1".to_string(),
        ip: "10.0.0.5".to_string(),
        ts: 100,
    });
    node.handle_event(&NetworkEvent::Pinged { peer: "P1".to_string(), ts: 170 });
    assert_eq!(
        snapshot_string(&node.registry, 170),
        "{\"updated_at\":170,\"peers\":[{\"peer_id\":\"P1\",\"ip\":\"10.0.0.5\",\"last_seen\":170}]}"
    );
}

#[test]
fn routing_update_with_address_inserts() {
    let mut node = NodeState::new();
    node.handle_event(&NetworkEvent::RoutingUpdated {
        peer: "P7".to_string(),
        addr: Some("10.0.0.77".to_string()),
        ts: 3,
    });
    assert!(node.registry.contains("P7"));
}

#[test]
fn publish_confirmation_mutates_nothing() {
    let mut node = NodeState::new();
    node.handle_event(&NetworkEvent::PublishConfirmed { key: "model:x".to_string() });
    assert_eq!(node.registry.len(), 0);
    assert_eq!(index_string(&node.index), "{}");
}
