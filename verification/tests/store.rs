use miniredis::compute_expiry;
use miniredis::Storage;

#[test]
fn set_then_get_without_ttl_round_trips() {
    let mut store = Storage::new();
    store.set("k".to_string(), "v".to_string(), None);
    assert_eq!(store.get(&"k".to_string()), Some("v".to_string()));
}

#[test]
fn overwrite_returns_the_second_value() {
    let mut store = Storage::new();
    store.set("k".to_string(), "a".to_string(), None);
    store.set("k".to_string(), "b".to_string(), None);
    assert_eq!(store.get(&"k".to_string()), Some("b".to_string()));
}

#[test]
fn get_on_a_key_never_written_is_none() {
    let mut store = Storage::new();
    assert_eq!(store.get(&"missing".to_string()), None);
    store.set("other".to_string(), "v".to_string(), None);
    assert_eq!(store.get(&"missing".to_string()), None);
}

#[test]
fn ttl_expiry_at_explicit_instants() {
    let mut store = Storage::new();
    store.set_at("k".to_string(), "v".to_string(), Some(50), 1000);
    assert_eq!(store.get_at(&"k".to_string(), 1000), Some("v".to_string()));
    assert_eq!(store.get_at(&"k".to_string(), 1049), Some("v".to_string()));
    assert_eq!(store.get_at(&"k".to_string(), 1050), None);
    assert_eq!(store.get_at(&"k".to_string(), 1000), None);
}

#[test]
fn set_clears_a_previous_ttl() {
    let mut store = Storage::new();
    store.set_at("k".to_string(), "old".to_string(), Some(10), 1000);
    store.set_at("k".to_string(), "new".to_string(), None, 2000);
    assert_eq!(store.get_at(&"k".to_string(), 9000), Some("new".to_string()));
}

#[test]
fn set_replaces_value_and_ttl_outright() {
    let mut store = Storage::new();
    store.set_at("k".to_string(), "a".to_string(), None, 1000);
    store.set_at("k".to_string(), "b".to_string(), Some(5), 1000);
    assert_eq!(store.get_at(&"k".to_string(), 1004), Some("b".to_string()));
    assert_eq!(store.get_at(&"k".to_string(), 1005), None);
}

#[test]
fn writes_to_distinct_keys_both_survive() {
    let mut store = Storage::new();
    store.set("k1".to_string(), "v1".to_string(), None);
    store.set("k2".to_string(), "v2".to_string(), None);
    assert_eq!(store.get(&"k1".to_string()), Some("v1".to_string()));
    assert_eq!(store.get(&"k2".to_string()), Some("v2".to_string()));
}

#[test]
fn many_distinct_keys_keep_their_last_write() {
    let mut store = Storage::new();
    for i in 0..50 {
        store.set(format!("key{}", i), format!("first{}", i), None);
    }
    for i in 0..50 {
        store.set(format!("key{}", i), format!("second{}", i), None);
    }
    for i in 0..50 {
        assert_eq!(store.get(&format!("key{}", i)), Some(format!("second{}", i)));
    }
}

#[test]
fn wall_clock_ttl_eventually_expires() {
    let mut store = Storage::new();
    store.set("fresh".to_string(), "v".to_string(), Some(60_000));
    assert_eq!(store.get(&"fresh".to_string()), Some("v".to_string()));
    store.set("brief".to_string(), "v".to_string(), Some(10));
    loop {
        if store.get(&"brief".to_string()).is_none() {
            break;
        }
    }
    assert_eq!(store.get(&"brief".to_string()), None);
    assert_eq!(store.get(&"fresh".to_string()), Some("v".to_string()));
}

#[test]
fn compute_expiry_adds_and_saturates() {
    assert_eq!(compute_expiry(1000, 50), 1050);
    assert_eq!(compute_expiry(-10, 10), 0);
    assert_eq!(compute_expiry(i64::MAX, 1), i64::MAX);
    assert_eq!(compute_expiry(i64::MAX - 5, 4), i64::MAX - 1);
}

#[test]
fn empty_value_can_be_stored() {
    let mut store = Storage::new();
    store.set("k".to_string(), String::new(), None);
    assert_eq!(store.get(&"k".to_string()), Some(String::new()));
}
