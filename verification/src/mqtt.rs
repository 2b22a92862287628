//! Broker settings and topic names of the MQTT publisher.

use vstd::prelude::*;
use crate::text::{parse_u16, parse_u64, parse_unsigned};

verus! {

/// MQTT delivery guarantee.
#[derive(Clone, Copy, Debug, PartialEq, Eq)]
pub enum Qos {
    AtMostOnce,
    AtLeastOnce,
    ExactlyOnce,
}

/// The level a `MQTT_QOS` setting selects: "0" and "2" select those levels,
/// anything else (and no setting) selects level 1.
pub open spec fn qos_for(setting: Option<String>) -> Qos {
    match setting {
        Some(s) => if s@ == "0"@ {
            Qos::AtMostOnce
        } else if s@ == "2"@ {
            Qos::ExactlyOnce
        } else {
            Qos::AtLeastOnce
        },
        None => Qos::AtLeastOnce,
    }
}

impl Qos {
    /// The level a `MQTT_QOS` setting selects.
    pub fn from_setting(setting: Option<String>) -> (q: Qos)
        ensures
            q == qos_for(setting),
    {
        match setting {
            Some(s) => {
                if s == String::from_str("0") {
                    Qos::AtMostOnce
                } else if s == String::from_str("2") {
                    Qos::ExactlyOnce
                } else {
                    Qos::AtLeastOnce
                }
            },
            None => Qos::AtLeastOnce,
        }
    }
}

/// Broker port when none is set.
pub const DEFAULT_PORT: u16 = 1883;
/// Keep-alive interval in seconds when none is set.
pub const DEFAULT_KEEP_ALIVE: u64 = 60;

/// Device id (client id and topic prefix) when none is set.
pub const DEFAULT_DEVICE_ID: &'static str = "rpi-001";
/// Broker host when none is set.
pub const DEFAULT_HOST: &'static str = "localhost";

pub const BAD_PORT: &'static str = "MQTT_PORT must be a valid port number (0–65535)";
pub const BAD_KEEP_ALIVE: &'static str = "MQTT_KEEP_ALIVE must be a number (seconds)";

/// Connection settings of the MQTT publisher.
pub struct MqttEnv {
    pub device_id: String,
    pub host: String,
    pub port: u16,
    pub username: String,
    pub password: String,
    pub qos: Qos,
    pub keep_alive: u64,
}

/// A number setting: its value when set, `default` when unset; `None` when
/// it is set but is not a number that fits `max`.
pub open spec fn number_setting(setting: Option<String>, default: nat, max: nat) -> Option<nat> {
    match setting {
        Some(s) => match parse_unsigned(s@) {
            Some(v) => if v <= max {
                Some(v)
            } else {
                None
            },
            None => None,
        },
        None => Some(default),
    }
}

/// `setting` where it is set, the empty string otherwise.
pub open spec fn or_empty(setting: Option<String>) -> Seq<char> {
    match setting {
        Some(s) => s@,
        None => Seq::empty(),
    }
}

/// `setting` where it is set, `default` otherwise.
pub open spec fn or_else(setting: Option<String>, default: Seq<char>) -> Seq<char> {
    match setting {
        Some(s) => s@,
        None => default,
    }
}

/// The first problem with the settings, in the order they are checked: a
/// port or keep-alive that is set but is not a number in range.
pub open spec fn settings_error(port: &Option<String>, keep_alive: &Option<String>) -> Option<Seq<char>> {
    if number_setting(*port, DEFAULT_PORT as nat, u16::MAX as nat) is None {
        Some(BAD_PORT@)
    } else if number_setting(*keep_alive, DEFAULT_KEEP_ALIVE as nat, u64::MAX as nat) is None {
        Some(BAD_KEEP_ALIVE@)
    } else {
        None
    }
}

impl MqttEnv {
    /// Builds the settings from `DEVICE_ID`, `MQTT_HOST`, `MQTT_PORT`,
    /// `MQTT_USERNAME`, `MQTT_PASSWORD`, `MQTT_KEEP_ALIVE` and `MQTT_QOS`.
    /// Every setting has a default ("rpi-001", "localhost", 1883, blank,
    /// blank, 60, level 1); port and keep-alive must be numbers when set,
    /// the port being checked first.
    pub fn from_settings(
        device_id: Option<String>,
        host: Option<String>,
        port: Option<String>,
        username: Option<String>,
        password: Option<String>,
        keep_alive: Option<String>,
        qos: Option<String>,
    ) -> (res: Result<MqttEnv, String>)
        ensures
            res is Err <==> settings_error(&port, &keep_alive) is Some,
            res matches Err(e) ==> Some(e@) == settings_error(&port, &keep_alive),
            res matches Ok(env) ==> {
                &&& env.device_id@ == or_else(device_id, DEFAULT_DEVICE_ID@)
                &&& env.host@ == or_else(host, DEFAULT_HOST@)
                &&& Some(env.port as nat) == number_setting(port, DEFAULT_PORT as nat, u16::MAX as nat)
                &&& env.username@ == or_empty(username)
                &&& env.password@ == or_empty(password)
                &&& Some(env.keep_alive as nat) == number_setting(keep_alive, DEFAULT_KEEP_ALIVE as nat, u64::MAX as nat)
                &&& env.qos == qos_for(qos)
            },
    {
        let device_id = match device_id {
            Some(d) => d,
            None => String::from_str(DEFAULT_DEVICE_ID),
        };
        let host = match host {
            Some(h) => h,
            None => String::from_str(DEFAULT_HOST),
        };
        let port = match port {
            Some(p) => match parse_u16(p.as_str()) {
                Some(v) => v,
                None => return Err(String::from_str(BAD_PORT)),
            },
            None => DEFAULT_PORT,
        };
        let username = match username {
            Some(u) => u,
            None => String::new(),
        };
        let password = match password {
            Some(p) => p,
            None => String::new(),
        };
        let keep_alive = match keep_alive {
            Some(k) => match parse_u64(k.as_str()) {
                Some(v) => v,
                None => return Err(String::from_str(BAD_KEEP_ALIVE)),
            },
            None => DEFAULT_KEEP_ALIVE,
        };
        let qos = Qos::from_setting(qos);
        Ok(MqttEnv { device_id, host, port, username, password, qos, keep_alive })
    }
}

/// "{device_id}/sensors/{subtopic}": where a sensor's readings are published.
pub fn sensor_topic(device_id: &str, subtopic: &str) -> (t: String)
    ensures
        t@ == device_id@ + "/sensors/"@ + subtopic@,
{
    String::from_str(device_id).concat("/sensors/").concat(subtopic)
}

/// "{device_id}/control/#": the control commands a subscriber listens to.
pub fn control_topic(device_id: &str) -> (t: String)
    ensures
        t@ == device_id@ + "/control/#"@,
{
    String::from_str(device_id).concat("/control/#")
}

/// "{device_id}/meters/{meter}": where a meter's readings are published.
pub fn meter_topic(device_id: &str, meter: &str) -> (t: String)
    ensures
        t@ == device_id@ + "/meters/"@ + meter@,
{
    String::from_str(device_id).concat("/meters/").concat(meter)
}

} // verus!
