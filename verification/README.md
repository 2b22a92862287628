# raspi-collector

Data collector for a wastewater-treatment monitoring box built around a
Raspberry Pi. It polls three nodes — an STM32 water-quality node over RS485
(Modbus RTU), an Arduino pump monitor over USB serial (one JSON line per
`READ\n`), and an AHT10 ambient sensor over I2C — logs the readings and
publishes them to an MQTT broker. A simulator publishes the same topics
without hardware.

## Layout

- `src/` — the verified library (Verus):
  - `modbus` — CRC-16/Modbus, request frames, response decoding, read progress
  - `sensor` — decoding of the ten registers of the water-quality node
  - `calibration` — piecewise-linear pH calibration in micro-pH
  - `calibration_file` — the line grammar of calibration files
  - `link` — retry, reconnect and online/offline bookkeeping shared by all readers
  - `uart` — line assembly of the pump monitor's replies
  - `aht10` — AHT10 commands and measurement frames
  - `pump` — uptime labels and the ordering of pumps in the payload
  - `mqtt` — broker settings and topic names
  - `flowmeter` — webcam meter-reader settings, base64, reply digits
  - `groq` — the model's answer in the vision service's reply
  - `simulate`, `calendar` — simulator generator, broker settings, counter and UTC timestamps
  - `text`, `config`, `cli` — ASCII helpers, hardware settings, modes
- `app/` — the daemon itself: serial, I2C, MQTT, HTTP and file I/O, logging,
  floating-point conversion of readings, and the JSON payloads. Started under
  the name `simulate` it runs the simulator.
- `tests/` — tests of the library.
