//! Hardware and timing settings of the collector.

use vstd::prelude::*;

verus! {

/// RS485 hardware serial port (Pi GPIO UART through an RS485 transceiver).
pub const RS485_PORT: &'static str = "/dev/ttyS0";
pub const RS485_BAUD: u32 = 9600;
/// Modbus address of the effluent node.
pub const RS485_SLAVE: u8 = 10;

/// USB serial port of the pump monitor (send "READ\n", receive one JSON line).
pub const USB_PORT: &'static str = "/dev/ttyUSB0";
pub const USB_BAUD: u32 = 9600;

/// Seconds between poll cycles.
pub const READ_INTERVAL_SECS: u64 = 5;
/// Overall deadline for one response, in milliseconds.
pub const TIMEOUT_MS: u64 = 2000;
/// Timeout of a single read call on a serial port, in milliseconds.
pub const SERIAL_TIMEOUT_MS: u64 = 100;
/// Pause before each retry, in milliseconds.
pub const RETRY_DELAY_MS: u64 = 500;

/// I2C bus of the AHT10 ambient sensor.
pub const I2C_BUS: &'static str = "/dev/i2c-1";
pub const AHT10_ADDR: u16 = 0x38;
/// Wait after the init command (datasheet: at least 10 ms).
pub const AHT10_INIT_DELAY_MS: u64 = 20;
/// Wait after the measurement trigger (datasheet: at least 75 ms).
pub const AHT10_MEAS_DELAY_MS: u64 = 80;

/// Attempts per poll before a device is reported offline.
pub const MAX_RETRIES: u32 = 3;
/// Registers read from the effluent node.
pub const NUM_REGISTERS: usize = 10;
/// First register read from the effluent node.
pub const START_REGISTER: u16 = 0x0000;

} // verus!
