use raspi_collector::mqtt::{control_topic, meter_topic, sensor_topic, MqttEnv, Qos};

fn s(v: &str) -> Option<String> {
    Some(v.to_string())
}

#[test]
fn topics() {
    assert_eq!(sensor_topic("rpi-001", "chamber_effluent"), "rpi-001/sensors/chamber_effluent");
    assert_eq!(control_topic("rpi-001"), "rpi-001/control/#");
    assert_eq!(meter_topic("rpi-001", "flowmeter"), "rpi-001/meters/flowmeter");
}

#[test]
fn qos_setting() {
    assert_eq!(Qos::from_setting(s("0")), Qos::AtMostOnce);
    assert_eq!(Qos::from_setting(s("1")), Qos::AtLeastOnce);
    assert_eq!(Qos::from_setting(s("2")), Qos::ExactlyOnce);
    assert_eq!(Qos::from_setting(s("7")), Qos::AtLeastOnce);
    assert_eq!(Qos::from_setting(None), Qos::AtLeastOnce);
}

#[test]
fn env_defaults() {
    let env = match MqttEnv::from_settings(s("dev"), s("broker"), None, None, None, None, None) {
        Ok(e) => e,
        Err(e) => panic!("{e}"),
    };
    assert_eq!(env.device_id, "dev");
    assert_eq!(env.host, "broker");
    assert_eq!(env.port, 1883);
    assert_eq!(env.username, "");
    assert_eq!(env.password, "");
    assert_eq!(env.keep_alive, 60);
    assert_eq!(env.qos, Qos::AtLeastOnce);
}

#[test]
fn env_all_unset_uses_documented_defaults() {
    let env = match MqttEnv::from_settings(None, None, None, None, None, None, None) {
        Ok(e) => e,
        Err(e) => panic!("{e}"),
    };
    assert_eq!(env.device_id, "rpi-001");
    assert_eq!(env.host, "localhost");
    assert_eq!(env.port, 1883);
    assert_eq!(env.username, "");
    assert_eq!(env.password, "");
    assert_eq!(env.keep_alive, 60);
    assert_eq!(env.qos, Qos::AtLeastOnce);
}

#[test]
fn env_port_edges() {
    let port = |p: &str| match MqttEnv::from_settings(s("d"), s("h"), s(p), None, None, s("007"), None) {
        Ok(e) => (e.port, e.keep_alive),
        Err(e) => panic!("{e}"),
    };
    assert_eq!(port("+0"), (0, 7));
    assert_eq!(port("65535"), (65535, 7));
}

#[test]
fn env_given() {
    let env = match MqttEnv::from_settings(s("d"), s("h"), s("+8883"), s("u"), s("p"), s("30"), s("2")) {
        Ok(e) => e,
        Err(e) => panic!("{e}"),
    };
    assert_eq!(env.port, 8883);
    assert_eq!(env.username, "u");
    assert_eq!(env.password, "p");
    assert_eq!(env.keep_alive, 30);
    assert_eq!(env.qos, Qos::ExactlyOnce);
}

#[test]
fn env_errors_in_order() {
    let err = |r: Result<MqttEnv, String>| match r {
        Err(e) => e,
        Ok(_) => panic!("accepted"),
    };
    assert_eq!(
        err(MqttEnv::from_settings(None, None, s("x"), None, None, s("y"), None)),
        "MQTT_PORT must be a valid port number (0–65535)"
    );
    assert_eq!(
        err(MqttEnv::from_settings(s("d"), s("h"), s("65536"), None, None, s("y"), None)),
        "MQTT_PORT must be a valid port number (0–65535)"
    );
    assert_eq!(
        err(MqttEnv::from_settings(s("d"), s("h"), s(" 1883"), None, None, None, None)),
        "MQTT_PORT must be a valid port number (0–65535)"
    );
    assert_eq!(
        err(MqttEnv::from_settings(s("d"), s("h"), s("1883"), None, None, s("-1"), None)),
        "MQTT_KEEP_ALIVE must be a number (seconds)"
    );
    assert_eq!(
        err(MqttEnv::from_settings(s("d"), s("h"), s(""), None, None, None, None)),
        "MQTT_PORT must be a valid port number (0–65535)"
    );
    assert_eq!(
        err(MqttEnv::from_settings(s("d"), s("h"), s("+"), None, None, None, None)),
        "MQTT_PORT must be a valid port number (0–65535)"
    );
    assert_eq!(
        err(MqttEnv::from_settings(s("d"), s("h"), None, None, None, s("1e3"), None)),
        "MQTT_KEEP_ALIVE must be a number (seconds)"
    );
}
