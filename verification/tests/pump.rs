use raspi_collector::pump::{sorted_order, timestamp_label, uptime_label};

#[test]
fn uptime_label_formats_hours_minutes_seconds() {
    assert_eq!(uptime_label(12345), "up 0h 00m 12s");
    assert_eq!(uptime_label(0), "up 0h 00m 00s");
    assert_eq!(uptime_label(3_723_999), "up 1h 02m 03s");
    assert_eq!(uptime_label(360_000_000), "up 100h 00m 00s");
}

#[test]
fn timestamp_label_prefers_number_then_text() {
    assert_eq!(timestamp_label(Some(61_000), Some("x".to_string())), "up 0h 01m 01s");
    assert_eq!(timestamp_label(None, Some("2024-01-01".to_string())), "2024-01-01");
    assert_eq!(timestamp_label(None, None), "unknown");
}

#[test]
fn pumps_are_ordered_by_key() {
    let keys: Vec<String> = ["2", "1", "pump10", "pump2", "10"].iter().map(|s| s.to_string()).collect();
    let order = sorted_order(&keys);
    let sorted: Vec<&str> = order.iter().map(|&i| keys[i].as_str()).collect();
    assert_eq!(sorted, vec!["1", "10", "2", "pump10", "pump2"]);
    assert!(sorted_order(&[]).is_empty());
}
