use noil::config::types::AttributeType;
use noil::fiber::session::{normalize_ip, normalize_mac, AttributeValue, OpenFiber};

fn ts(s: &str) -> i128 {
    chrono::DateTime::parse_from_rfc3339(s).unwrap().timestamp_nanos_opt().unwrap() as i128
}

#[test]
fn test_normalize_ip() {
    assert_eq!(normalize_ip("192.168.001.001"), Some("192.168.1.1".to_string()));
    assert_eq!(normalize_ip("10.0.0.1"), Some("10.0.0.1".to_string()));
    assert_eq!(normalize_ip("255.255.255.255"), Some("255.255.255.255".to_string()));
}

#[test]
fn test_normalize_mac() {
    assert_eq!(normalize_mac("AA-BB-CC-11-22-33"), Some("aa:bb:cc:11:22:33".to_string()));
    assert_eq!(normalize_mac("AA:BB:CC:11:22:33"), Some("aa:bb:cc:11:22:33".to_string()));
    assert_eq!(normalize_mac("aabbcc112233"), Some("aa:bb:cc:11:22:33".to_string()));
    assert_eq!(normalize_mac("invalid"), None);
}

#[test]
fn test_attribute_value_from_str() {
    let val = AttributeValue::from_str("hello", AttributeType::String);
    assert_eq!(val, Some(AttributeValue::String("hello".to_string())));

    let val = AttributeValue::from_str("42", AttributeType::Int);
    assert_eq!(val, Some(AttributeValue::Int(42)));

    // a float is kept as the text it was read from
    let val = AttributeValue::from_str("3.14", AttributeType::Float);
    assert_eq!(val, Some(AttributeValue::Float("3.14".to_string())));
    assert_eq!("3.14".parse::<f64>().unwrap(), 3.14);

    let val = AttributeValue::from_str("192.168.001.001", AttributeType::Ip);
    assert_eq!(val, Some(AttributeValue::String("192.168.1.1".to_string())));

    let val = AttributeValue::from_str("AA-BB-CC-11-22-33", AttributeType::Mac);
    assert_eq!(val, Some(AttributeValue::String("aa:bb:cc:11:22:33".to_string())));
}

#[test]
fn test_open_fiber_creation() {
    let t = ts("2025-12-04T10:00:00Z");
    let fiber = OpenFiber::new("test_type".to_string(), t);

    assert_eq!(fiber.fiber_type, "test_type");
    assert_eq!(fiber.first_activity, t);
    assert_eq!(fiber.last_activity, t);
    assert_eq!(fiber.keys.len(), 0);
    assert_eq!(fiber.attributes.len(), 0);
    assert!(fiber.log_ids.is_empty());
}

#[test]
fn test_open_fiber_add_log() {
    let ts1 = ts("2025-12-04T10:00:00Z");
    let ts2 = ts("2025-12-04T10:00:05Z");

    let mut fiber = OpenFiber::new("test_type".to_string(), ts1);
    let log_id = uuid::Uuid::new_v4().as_u128();
    fiber.add_log(log_id, ts2);

    assert_eq!(fiber.log_ids.len(), 1);
    assert_eq!(fiber.log_ids[0], log_id);
    assert_eq!(fiber.last_activity, ts2);
}

#[test]
fn test_open_fiber_keys() {
    let mut fiber = OpenFiber::new("test_type".to_string(), ts("2025-12-04T10:00:00Z"));

    fiber.set_key("thread_id".to_string(), "5".to_string());
    assert_eq!(fiber.keys.get(&"thread_id".to_string()), Some(&"5".to_string()));

    fiber.set_key("mac".to_string(), "aa:bb:cc:11:22:33".to_string());
    assert_eq!(fiber.keys.len(), 2);

    let removed = fiber.remove_key(&"thread_id".to_string());
    assert_eq!(removed, Some("5".to_string()));
    assert_eq!(fiber.keys.len(), 1);
}

#[test]
fn test_open_fiber_attribute_conflict() {
    let mut fiber = OpenFiber::new("test_type".to_string(), ts("2025-12-04T10:00:00Z"));

    let old = fiber.set_attribute("ip".to_string(), AttributeValue::String("10.0.0.1".to_string()));
    assert!(old.is_none());

    let old = fiber.set_attribute("ip".to_string(), AttributeValue::String("10.0.0.1".to_string()));
    assert!(old.is_none());

    let old = fiber.set_attribute("ip".to_string(), AttributeValue::String("10.0.0.2".to_string()));
    assert_eq!(old, Some(AttributeValue::String("10.0.0.1".to_string())));
}

#[test]
fn session_test_fiber_merge() {
    let ts1 = ts("2025-12-04T10:00:00Z");
    let ts2 = ts("2025-12-04T10:00:05Z");

    let mut fiber1 = OpenFiber::new("test_type".to_string(), ts1);
    fiber1.set_key("key1".to_string(), "value1".to_string());
    fiber1.set_attribute("attr1".to_string(), AttributeValue::String("a".to_string()));
    fiber1.add_log(uuid::Uuid::new_v4().as_u128(), ts1);

    let mut fiber2 = OpenFiber::new("test_type".to_string(), ts2);
    fiber2.set_key("key2".to_string(), "value2".to_string());
    fiber2.set_attribute("attr2".to_string(), AttributeValue::String("b".to_string()));
    fiber2.add_log(uuid::Uuid::new_v4().as_u128(), ts2);

    let conflicts = fiber1.merge(fiber2);

    assert!(conflicts.is_empty());
    assert_eq!(fiber1.keys.len(), 2);
    assert_eq!(fiber1.attributes.len(), 2);
    assert_eq!(fiber1.log_ids.len(), 2);
    assert_eq!(fiber1.first_activity, ts1);
    assert_eq!(fiber1.last_activity, ts2);
}

#[test]
fn test_fiber_merge_with_conflicts() {
    let ts1 = ts("2025-12-04T10:00:00Z");
    let ts2 = ts("2025-12-04T10:00:05Z");

    let mut fiber1 = OpenFiber::new("test_type".to_string(), ts1);
    fiber1.set_attribute("shared".to_string(), AttributeValue::String("old".to_string()));

    let mut fiber2 = OpenFiber::new("test_type".to_string(), ts2);
    fiber2.set_attribute("shared".to_string(), AttributeValue::String("new".to_string()));

    let conflicts = fiber1.merge(fiber2);

    assert_eq!(conflicts.len(), 1);
    assert_eq!(fiber1.attributes.get(&"shared".to_string()), Some(&AttributeValue::String("new".to_string())));
}

#[test]
fn malformed_addresses_are_refused() {
    assert_eq!(normalize_ip("256.1.1.1"), None);
    assert_eq!(normalize_ip("1.2.3"), Some("1.2.3".to_string()));
    assert_eq!(normalize_ip("1.2.3.x"), None);
    assert_eq!(normalize_mac("aa:bb:cc:dd:ee"), None);
    assert_eq!(AttributeValue::from_str("x", AttributeType::Int), None);
}
