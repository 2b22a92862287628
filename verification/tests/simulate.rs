use raspi_collector::calendar::days_to_ymd;
use raspi_collector::mqtt::Qos;
use raspi_collector::simulate::{
    advance_flow, interval_secs, latest_reading, meter_reading_label, resume_flow, simulator_env, unix_to_file_tag,
    unix_to_iso8601, Rng,
};

#[test]
fn rng_is_the_seeded_lcg() {
    let mut r = Rng::new(0);
    let s0: u64 = 0xdeadbeef_cafebabe;
    let expect = s0.wrapping_mul(6_364_136_223_846_793_005).wrapping_add(1_442_695_040_888_963_407);
    assert_eq!(r.next_u64(), expect);
    let expect2 = expect.wrapping_mul(6_364_136_223_846_793_005).wrapping_add(1_442_695_040_888_963_407);
    assert_eq!(r.next_fraction_bits(), expect2 >> 11);
}

#[test]
fn rng_same_seed_same_sequence() {
    let mut a = Rng::new(42);
    let mut b = Rng::new(42);
    for _ in 0..10 {
        assert_eq!(a.next_u64(), b.next_u64());
    }
    assert!(a.next_fraction_bits() < (1u64 << 53));
}

#[test]
fn days_to_ymd_known_dates() {
    assert_eq!(days_to_ymd(0), (1970, 1, 1));
    assert_eq!(days_to_ymd(59), (1970, 3, 1));
    assert_eq!(days_to_ymd(10957), (2000, 1, 1));
    assert_eq!(days_to_ymd(11016), (2000, 2, 29));
    assert_eq!(days_to_ymd(11017), (2000, 3, 1));
    assert_eq!(days_to_ymd(19782), (2024, 2, 29));
    assert_eq!(days_to_ymd(20563), (2026, 4, 20));
    assert_eq!(days_to_ymd(47541), (2100, 3, 1));
}

#[test]
fn iso8601_timestamps() {
    assert_eq!(unix_to_iso8601(0), "1970-01-01T00:00:00Z");
    assert_eq!(unix_to_iso8601(1_776_685_176), "2026-04-20T11:39:36Z");
    assert_eq!(unix_to_iso8601(951_782_399), "2000-02-28T23:59:59Z");
    assert_eq!(unix_to_file_tag(1_776_685_176), "20260420_113936");
}

#[test]
fn meter_counter() {
    assert_eq!(resume_flow("000331"), 331);
    assert_eq!(resume_flow("abc"), 0);
    assert_eq!(advance_flow(331), 333);
    assert_eq!(meter_reading_label(333), "000333");
    assert_eq!(meter_reading_label(1_234_567), "1234567");
}

#[test]
fn interval_settings() {
    let s = |v: &str| Some(v.to_string());
    assert_eq!(interval_secs(None, None), Some(1800));
    assert_eq!(interval_secs(s("5"), None), Some(300));
    assert_eq!(interval_secs(s("5"), s("10")), Some(10));
    assert_eq!(interval_secs(s("x"), s("y")), Some(1800));
    assert_eq!(interval_secs(s("18446744073709551615"), None), None);
}

#[test]
fn latest_reading_skips_sample_and_other_files() {
    let names: Vec<String> = ["sample.json", "20260420_113936.json", "notes.txt", "20260421_000000.json", ".json", "zzz.jsonx"]
        .iter()
        .map(|s| s.to_string())
        .collect();
    assert_eq!(latest_reading(&names), Some(3));
    let none: Vec<String> = ["sample.json", "a.txt"].iter().map(|s| s.to_string()).collect();
    assert_eq!(latest_reading(&none), None);
    assert_eq!(latest_reading(&[]), None);
}

#[test]
fn simulator_env_defaults_when_unset() {
    let env = simulator_env(None, None, None, None, None, None, None);
    assert_eq!(env.device_id, "rpi-001");
    assert_eq!(env.host, "localhost");
    assert_eq!(env.port, 1883);
    assert_eq!(env.username, "");
    assert_eq!(env.password, "");
    assert_eq!(env.keep_alive, 60);
    assert_eq!(env.qos, Qos::AtLeastOnce);
}

#[test]
fn simulator_env_falls_back_on_bad_numbers() {
    let s = |v: &str| Some(v.to_string());
    let env = simulator_env(s("dev-9"), s("broker"), s("70000"), s("u"), s("p"), s("soon"), s("2"));
    assert_eq!(env.device_id, "dev-9");
    assert_eq!(env.host, "broker");
    assert_eq!(env.port, 1883);
    assert_eq!(env.username, "u");
    assert_eq!(env.password, "p");
    assert_eq!(env.keep_alive, 60);
    assert_eq!(env.qos, Qos::ExactlyOnce);
    let env = simulator_env(None, None, s("8883"), None, None, s("+15"), s("0"));
    assert_eq!(env.port, 8883);
    assert_eq!(env.keep_alive, 15);
    assert_eq!(env.qos, Qos::AtMostOnce);
}

#[test]
fn days_to_ymd_next_day() {
    assert_eq!(days_to_ymd(11016), (2000, 2, 29));
    assert_eq!(days_to_ymd(11017), (2000, 3, 1));
    assert_eq!(days_to_ymd(10956), (1999, 12, 31));
    assert_eq!(days_to_ymd(10957), (2000, 1, 1));
    let dim = |y: u64, m: u64| match m {
        2 if y % 4 == 0 && (y % 100 != 0 || y % 400 == 0) => 29,
        2 => 28,
        4 | 6 | 9 | 11 => 30,
        _ => 31,
    };
    let mut prev = days_to_ymd(0);
    for n in 1..3000u64 {
        let (y, m, d) = prev;
        let next = if d < dim(y, m) { (y, m, d + 1) } else if m < 12 { (y, m + 1, 1) } else { (y + 1, 1, 1) };
        let cur = days_to_ymd(n);
        assert_eq!(cur, next);
        prev = cur;
    }
}
