//! Verified core of the Raspberry Pi sensor collector: Modbus RTU framing,
//! register decoding, pH calibration, reader link state, and the small text
//! and calendar helpers used by the collector and its simulator.

pub mod modbus;
pub mod text;
pub mod sensor;
pub mod calibration;
pub mod calibration_file;
pub mod flowmeter;
pub mod groq;
pub mod config;
pub mod link;
pub mod aht10;
pub mod pump;
pub mod mqtt;
pub mod cli;
pub mod simulate;
pub mod calendar;
pub mod uart;
