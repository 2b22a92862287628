//! AHT10 ambient temperature and humidity sensor: command frames and the
//! decoding of its six-byte measurement frame.
//!
//! Protocol:
//!   Init    : write [0xE1, 0x08, 0x00], wait 20 ms
//!   Trigger : write [0xAC, 0x33, 0x00], wait 80 ms
//!   Read    : 6 bytes; byte 0 is the status (bit 7 = busy), then 20 bits of
//!             humidity and 20 bits of temperature.

use vstd::prelude::*;

verus! {

/// Initialisation command.
pub const INIT_CMD: [u8; 3] = [0xE1, 0x08, 0x00];
/// Measurement trigger command.
pub const TRIG_CMD: [u8; 3] = [0xAC, 0x33, 0x00];
/// Status bit set while a measurement is in progress.
pub const BUSY_FLAG: u8 = 0x80;
/// Length of a measurement frame.
pub const FRAME_LEN: usize = 6;
/// Full scale of the 20-bit raw values (2^20).
pub const FULL_SCALE: u32 = 1_048_576;

/// The raw humidity: byte 1, byte 2 and the high nibble of byte 3 (bits 19..0).
pub open spec fn humidity_bits(f: Seq<u8>) -> int {
    f[1] as int * 4096 + f[2] as int * 16 + f[3] as int / 16
}

/// The raw temperature: the low nibble of byte 3, byte 4 and byte 5 (bits 19..0).
pub open spec fn temperature_bits(f: Seq<u8>) -> int {
    (f[3] as int % 16) * 65536 + f[4] as int * 256 + f[5] as int
}

/// A completed measurement in raw sensor units. Relative humidity in % is
/// `humidity_raw / 2^20 * 100`; temperature in °C is
/// `temperature_raw / 2^20 * 200 - 50`.
#[derive(Clone, Copy, Debug, PartialEq, Eq)]
pub struct Aht10Measurement {
    pub humidity_raw: u32,
    pub temperature_raw: u32,
}

impl Aht10Measurement {
    /// Decodes a measurement frame; `None` while the sensor reports busy.
    pub fn from_frame(frame: &[u8]) -> (m: Option<Self>)
        requires
            frame@.len() >= FRAME_LEN,
        ensures
            m is None <==> frame@[0] >= 0x80,
            m matches Some(v) ==> v.humidity_raw == humidity_bits(frame@) && v.temperature_raw
                == temperature_bits(frame@),
            m matches Some(v) ==> v.humidity_raw < FULL_SCALE && v.temperature_raw < FULL_SCALE,
    {
        let status = frame[0];
        let busy = status & BUSY_FLAG != 0;
        proof {
            assert((status & 0x80u8 != 0) == (status >= 0x80)) by (bit_vector);
        }
        if busy {
            return None;
        }
        let b1 = frame[1] as u32;
        let b2 = frame[2] as u32;
        let b3 = frame[3] as u32;
        let b4 = frame[4] as u32;
        let b5 = frame[5] as u32;
        let hum: u32 = (b1 << 12u32) | (b2 << 4u32) | (b3 >> 4u32);
        let temp: u32 = ((b3 & 0x0Fu32) << 16u32) | (b4 << 8u32) | b5;
        proof {
            assert(hum == b1 * 4096 + b2 * 16 + b3 / 16 && hum < 1048576) by (bit_vector)
                requires
                    b1 < 256 && b2 < 256 && b3 < 256,
                    hum == (b1 << 12u32) | (b2 << 4u32) | (b3 >> 4u32),
            ;
            assert(temp == (b3 % 16) * 65536 + b4 * 256 + b5 && temp < 1048576) by (bit_vector)
                requires
                    b3 < 256 && b4 < 256 && b5 < 256,
                    temp == ((b3 & 0x0Fu32) << 16u32) | (b4 << 8u32) | b5,
            ;
        }
        Some(Aht10Measurement { humidity_raw: hum, temperature_raw: temp })
    }
}

} // verus!
