use accesslm::events::{NetworkEvent, NodeState};
use accesslm::json::{index_string, snapshot_string};
use accesslm::registry::PeerRegistry;

#[test]
fn empty_structures_render_as_empty_json() {
    let reg = PeerRegistry::new();
    assert_eq!(snapshot_string(&reg, 0), "{\"updated_at\":0,\"peers\":[]}");
    let node = NodeState::new();
    assert_eq!(index_string(&node.index), "{}");
}

#[test]
fn large_timestamp_renders_all_digits() {
    let reg = PeerRegistry::new();
    assert_eq!(
        snapshot_string(&reg, u64::MAX),
        "{\"updated_at\":18446744073709551615,\"peers\":[]}"
    );
}

#[test]
fn snapshot_escapes_and_round_trips_through_serde() {
    // A peer identity with every escape class: quote, backslash, newline,
    // tab, a raw control character, and a non-ASCII character.
    let odd_id = "a\"b\\c\nd\te\u{1}f\u{e9}";
    let mut reg = PeerRegistry::new();
    reg.upsert(odd_id, "10.0.0.1", 42);
    let snap = snapshot_string(&reg, 7);
    let v: serde_json::Value = serde_json::from_str(&snap).expect("snapshot must be valid JSON");
    assert_eq!(v["updated_at"], serde_json::Value::from(7u64));
    let peers = v["peers"].as_array().unwrap();
    assert_eq!(peers.len(), 1);
    assert_eq!(peers[0]["peer_id"].as_str().unwrap(), odd_id);
    assert_eq!(peers[0]["ip"].as_str().unwrap(), "10.0.0.1");
    assert_eq!(peers[0]["last_seen"], serde_json::Value::from(42u64));
}

#[test]
fn index_escapes_and_round_trips_through_serde() {
    let mut node = NodeState::new();
    node.handle_event(&NetworkEvent::LookupResult {
        key: "model:we\"ird/\\name".to_string(),
        value: "p|1.2.3.4|80".to_string(),
    });
    let text = index_string(&node.index);
    let v: serde_json::Value = serde_json::from_str(&text).expect("index must be valid JSON");
    let list = v["model:we\"ird/\\name"].as_array().unwrap();
    assert_eq!(list.len(), 1);
    assert_eq!(list[0].as_str().unwrap(), "p|1.2.3.4|80");
}

#[test]
fn clock_reads_after_epoch() {
    // The wrapped system clock: nothing is proved of it, but in this
    // process it must read a plausible time.
    let t = accesslm::edge::now_ts();
    assert!(t > 1_600_000_000);
}
