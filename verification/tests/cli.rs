use raspi_collector::cli::{Cli, Mode, DEFAULT_ENV_FILE};

#[test]
fn modes() {
    assert!(!Mode::ReadOnly.uses_mqtt());
    assert!(Mode::Mqtt.uses_mqtt());
    assert!(Mode::Subscriber.uses_mqtt());
    assert!(Mode::Subscriber.subscribes());
    assert!(!Mode::Mqtt.subscribes());
    let c = Cli { mode: Mode::Mqtt, env_file: DEFAULT_ENV_FILE.to_string() };
    assert_eq!(c.env_file, ".env");
}
