//! Operating modes and command-line settings of the collector.

use vstd::prelude::*;

verus! {

/// Operating mode.
#[derive(Clone, Copy, Debug, PartialEq, Eq)]
pub enum Mode {
    /// Read sensors and log them only — no MQTT connection.
    ReadOnly,
    /// Read sensors and publish the data to the MQTT broker (default).
    Mqtt,
    /// Publish sensor data and subscribe to incoming control commands.
    Subscriber,
}

impl Mode {
    /// Whether this mode connects to the broker.
    pub fn uses_mqtt(&self) -> (b: bool)
        ensures
            b == !(*self is ReadOnly),
    {
        match self {
            Mode::ReadOnly => false,
            _ => true,
        }
    }

    /// Whether this mode subscribes to the control topic.
    pub fn subscribes(&self) -> (b: bool)
        ensures
            b == (*self is Subscriber),
    {
        match self {
            Mode::Subscriber => true,
            _ => false,
        }
    }
}

/// Default path of the settings file.
pub const DEFAULT_ENV_FILE: &'static str = ".env";

/// Command-line settings.
pub struct Cli {
    /// Operating mode.
    pub mode: Mode,
    /// Path of the `.env` settings file.
    pub env_file: String,
}

} // verus!
