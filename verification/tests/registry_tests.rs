use accesslm::json::snapshot_string;
use accesslm::registry::PeerRegistry;

#[test]
fn discovery_then_snapshot() {
    // Empty registry, one discovery at t=100, snapshot holds exactly it.
    let mut reg = PeerRegistry::new();
    reg.upsert("P1", "10.0.0.5", 100);
    let snap = snapshot_string(&reg, 123);
    assert_eq!(
        snap,
        "{\"updated_at\":123,\"peers\":[{\"peer_id\":\"P1\",\"ip\":\"10.0.0.5\",\"last_seen\":100}]}"
    );
}

#[test]
fn touch_unknown_never_creates_entry() {
    let mut reg = PeerRegistry::new();
    reg.touch("ghost-peer", 55);
    assert_eq!(reg.len(), 0);
    assert!(!reg.contains("ghost-peer"));
    assert_eq!(snapshot_string(&reg, 1), "{\"updated_at\":1,\"peers\":[]}");
}

#[test]
fn touch_known_updates_last_seen_only() {
    let mut reg = PeerRegistry::new();
    reg.upsert("P1", "10.0.0.5", 100);
    reg.touch("P1", 200);
    let snap = snapshot_string(&reg, 201);
    assert_eq!(
        snap,
        "{\"updated_at\":201,\"peers\":[{\"peer_id\":\"P1\",\"ip\":\"10.0.0.5\",\"last_seen\":200}]}"
    );
}

#[test]
fn upsert_overwrites_address() {
    let mut reg = PeerRegistry::new();
    reg.upsert("P1", "10.0.0.5", 100);
    reg.upsert("P1", "10.0.0.7", 150);
    assert_eq!(reg.len(), 1);
    let snap = snapshot_string(&reg, 150);
    assert_eq!(
        snap,
        "{\"updated_at\":150,\"peers\":[{\"peer_id\":\"P1\",\"ip\":\"10.0.0.7\",\"last_seen\":150}]}"
    );
}

#[test]
fn expiry_removes_record() {
    let mut reg = PeerRegistry::new();
    reg.upsert("P1", "10.0.0.5", 100);
    reg.remove("P1");
    assert!(!reg.contains("P1"));
    assert_eq!(snapshot_string(&reg, 101), "{\"updated_at\":101,\"peers\":[]}");
}

#[test]
fn remove_unknown_is_no_error() {
    let mut reg = PeerRegistry::new();
    reg.upsert("P1", "10.0.0.5", 100);
    reg.remove("P2");
    assert_eq!(reg.len(), 1);
    assert!(reg.contains("P1"));
}

#[test]
fn records_are_ordered_by_identity() {
    let mut reg = PeerRegistry::new();
    reg.upsert("bbb", "2.2.2.2", 2);
    reg.upsert("aaa", "1.1.1.1", 1);
    reg.upsert("ccc", "3.3.3.3", 3);
    let snap = snapshot_string(&reg, 9);
    let a = snap.find("aaa").unwrap();
    let b = snap.find("bbb").unwrap();
    let c = snap.find("ccc").unwrap();
    assert!(a < b && b < c);
}

#[test]
fn snapshot_depends_only_on_contents_and_timestamp() {
    // Two snapshots with no intervening mutation differ only in the
    // timestamp digits.
    let mut reg = PeerRegistry::new();
    reg.upsert("P1", "10.0.0.5", 100);
    let s1 = snapshot_string(&reg, 111);
    let s2 = snapshot_string(&reg, 222);
    let p1 = s1.strip_prefix("{\"updated_at\":111").unwrap();
    let p2 = s2.strip_prefix("{\"updated_at\":222").unwrap();
    assert_eq!(p1, p2);
    // And with the same timestamp they are identical.
    assert_eq!(snapshot_string(&reg, 111), s1);
}
