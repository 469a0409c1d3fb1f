use bridge_client::registry::Registry;
use bridge_client::topic::{Topic, TopicInfo};

fn topic(name: &str, msg_type: &str, last_seen: u64) -> Topic {
    Topic::new(name.to_string(), msg_type.to_string(), last_seen)
}

fn records(registry: &Registry) -> Vec<(String, String)> {
    registry
        .list_topics()
        .into_iter()
        .map(|r: TopicInfo| (r.name, r.msg_type))
        .collect()
}

fn entries(registry: &Registry) -> Vec<(String, String, u64)> {
    registry
        .snapshot()
        .into_iter()
        .map(|t| (t.name, t.msg_type, t.last_seen))
        .collect()
}

fn owned(name: &str, msg_type: &str) -> (String, String) {
    (name.to_string(), msg_type.to_string())
}

#[test]
fn new_registry_is_empty() {
    let registry = Registry::new();
    assert_eq!(registry.len(), 0);
    assert!(registry.list_topics().is_empty());
    assert!(registry.snapshot().is_empty());
}

#[test]
fn dummy_topic_is_listed() {
    let mut registry = Registry::new();
    registry.upsert(topic("/dummy", "std_msgs/String", 0));
    assert_eq!(records(&registry), vec![owned("/dummy", "std_msgs/String")]);
}

#[test]
fn second_upsert_replaces_type() {
    let mut registry = Registry::new();
    registry.upsert(topic("/a", "t1", 1));
    registry.upsert(topic("/a", "t2", 2));
    assert_eq!(records(&registry), vec![owned("/a", "t2")]);
}

#[test]
fn unobserved_topic_is_evicted_after_grace_period() {
    let mut registry = Registry::new();
    registry.upsert(topic("/x", "t", 10));
    registry.evict_stale(10 + 30 + 1, 30);
    assert!(records(&registry).is_empty());
}

#[test]
fn topic_within_grace_period_is_kept() {
    let mut registry = Registry::new();
    registry.upsert(topic("/x", "t", 10));
    registry.evict_stale(40, 30);
    assert_eq!(records(&registry), vec![owned("/x", "t")]);
}

#[test]
fn eviction_before_grace_period_has_elapsed_since_time_zero() {
    let mut registry = Registry::new();
    registry.upsert(topic("/x", "t", 0));
    registry.evict_stale(5, 10);
    assert_eq!(registry.len(), 1);
}

#[test]
fn eviction_with_largest_values_does_not_overflow() {
    let mut registry = Registry::new();
    registry.upsert(topic("/old", "t", 0));
    registry.upsert(topic("/new", "t", u64::MAX));
    registry.evict_stale(u64::MAX, u64::MAX - 1);
    assert_eq!(records(&registry), vec![owned("/new", "t")]);
}

#[test]
fn upserts_keep_one_entry_per_name_with_latest_values() {
    let mut registry = Registry::new();
    registry.upsert(topic("/a", "t1", 1));
    registry.upsert(topic("/b", "u1", 2));
    registry.upsert(topic("/a", "t2", 3));
    registry.upsert(topic("/c", "v1", 4));
    registry.upsert(topic("/b", "u2", 5));
    assert_eq!(
        entries(&registry),
        vec![
            ("/a".to_string(), "t2".to_string(), 3),
            ("/b".to_string(), "u2".to_string(), 5),
            ("/c".to_string(), "v1".to_string(), 4),
        ]
    );
}

#[test]
fn eviction_keeps_order_of_the_rest() {
    let mut registry = Registry::new();
    registry.upsert(topic("/a", "t", 100));
    registry.upsert(topic("/b", "t", 1));
    registry.upsert(topic("/c", "t", 90));
    registry.evict_stale(100, 20);
    assert_eq!(records(&registry), vec![owned("/a", "t"), owned("/c", "t")]);
}

#[test]
fn evicted_topic_stays_out_until_observed_again() {
    let mut registry = Registry::new();
    registry.upsert(topic("/x", "t", 0));
    registry.evict_stale(100, 10);
    registry.upsert(topic("/y", "t", 100));
    registry.evict_stale(105, 10);
    assert_eq!(records(&registry), vec![owned("/y", "t")]);
    registry.upsert(topic("/x", "t", 106));
    assert_eq!(records(&registry), vec![owned("/y", "t"), owned("/x", "t")]);
}

#[test]
fn snapshot_is_independent_of_later_changes() {
    let mut registry = Registry::new();
    registry.upsert(topic("/a", "t", 1));
    let before = registry.snapshot();
    registry.upsert(topic("/a", "u", 2));
    registry.evict_stale(100, 1);
    assert_eq!(before.len(), 1);
    assert_eq!(before[0].msg_type, "t");
    assert_eq!(registry.len(), 0);
}

#[test]
fn position_finds_known_names_only() {
    let mut registry = Registry::new();
    registry.upsert(topic("/a", "t", 1));
    registry.upsert(topic("/b", "t", 1));
    assert_eq!(registry.position(&"/b".to_string()), Some(1));
    assert_eq!(registry.position(&"/z".to_string()), None);
}

#[test]
fn topic_info_and_stamp_carry_fields() {
    let info = TopicInfo::new("/a".to_string(), "t".to_string());
    let stamped = info.stamp(42);
    assert_eq!(stamped.name, "/a");
    assert_eq!(stamped.msg_type, "t");
    assert_eq!(stamped.last_seen, 42);
    let back = stamped.info();
    assert_eq!((back.name, back.msg_type), owned("/a", "t"));
    let copy = stamped.duplicate();
    assert_eq!(copy.last_seen, 42);
}
