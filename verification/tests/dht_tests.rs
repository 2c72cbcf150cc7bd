use accesslm::dht::{announce_from_text, announce_publications, dht_key_for, encode_descriptor,
    lookup_keys_from_text};

#[test]
fn key_gets_model_prefix() {
    assert_eq!(dht_key_for("org/model-a"), "model:org/model-a");
}

#[test]
fn descriptor_is_pipe_separated() {
    assert_eq!(encode_descriptor("Qm...1", "10.0.0.9", 7331), "Qm...1|10.0.0.9|7331");
}

#[test]
fn announce_builds_one_publication_per_model() {
    // Announce-request list ["org/model-a"], local address 10.0.0.9:7331.
    let recs = announce_from_text("[\"org/model-a\"]", "Qm...1", "10.0.0.9", 7331).unwrap();
    assert_eq!(recs.len(), 1);
    assert_eq!(recs[0].key, "model:org/model-a");
    assert_eq!(recs[0].value, "Qm...1|10.0.0.9|7331");
}

#[test]
fn announce_is_idempotent_across_ticks() {
    let models = vec!["org/m1".to_string(), "org/m2".to_string()];
    let r1 = announce_publications(&models, "QmSelf", "192.168.1.4", 8000);
    let r2 = announce_publications(&models, "QmSelf", "192.168.1.4", 8000);
    assert_eq!(r1.len(), r2.len());
    for (a, b) in r1.iter().zip(r2.iter()) {
        assert_eq!(a.key, b.key);
        assert_eq!(a.value, b.value);
    }
}

#[test]
fn announce_skips_tick_on_malformed_file() {
    assert!(announce_from_text("not json at all", "Qm", "1.2.3.4", 1).is_none());
    assert!(announce_from_text("{\"a\": 1}", "Qm", "1.2.3.4", 1).is_none());
    assert!(announce_from_text("[1, 2]", "Qm", "1.2.3.4", 1).is_none());
}

#[test]
fn lookup_builds_prefixed_keys_in_order() {
    let keys = lookup_keys_from_text("[\"org/a\", \"org/b\"]").unwrap();
    assert_eq!(keys, vec!["model:org/a".to_string(), "model:org/b".to_string()]);
}

#[test]
fn lookup_skips_tick_on_malformed_file() {
    assert!(lookup_keys_from_text("[\"unterminated").is_none());
}

#[test]
fn empty_request_list_publishes_nothing() {
    let recs = announce_from_text("[]", "Qm", "1.2.3.4", 7331).unwrap();
    assert_eq!(recs.len(), 0);
    let keys = lookup_keys_from_text("[]").unwrap();
    assert_eq!(keys.len(), 0);
}
