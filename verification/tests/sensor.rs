use raspi_collector::sensor::{ok_str, SensorData};

fn sample(status: u16) -> SensorData {
    let regs = [725u16, 812, 255, 1240, 600, 620, 2530, 72, 254, status];
    SensorData::from_registers(&regs, "RS485".to_string())
}

#[test]
fn from_registers_maps_fields() {
    let d = sample(0b111);
    assert_eq!(d.source, "RS485");
    assert_eq!(d.do_saturation, 725);
    assert_eq!(d.do_concentration, 812);
    assert_eq!(d.do_temperature, 255);
    assert_eq!(d.ec, 1240);
    assert_eq!(d.salinity, 600);
    assert_eq!(d.tds, 620);
    assert_eq!(d.ec_temperature, 2530);
    assert_eq!(d.ph, 72);
    assert_eq!(d.raw_ph, None);
    assert_eq!(d.ph_temperature, 254);
    assert!(d.do_ok && d.ec_ok && d.ph_ok);
}

#[test]
fn status_bits_select_probes() {
    let d = sample(0b010);
    assert!(!d.do_ok && d.ec_ok && !d.ph_ok);
    let d = sample(0xFFF8);
    assert!(!d.do_ok && !d.ec_ok && !d.ph_ok);
    let d = sample(0b101);
    assert!(d.do_ok && !d.ec_ok && d.ph_ok);
}

#[test]
fn avg_temperature_over_healthy_probes() {
    // 25.5 + 25.30 + 25.4 = 76.2 °C over 3 probes
    assert_eq!(sample(0b111).avg_temperature(), Some((7620, 3)));
    // only EC: 25.30 °C
    assert_eq!(sample(0b010).avg_temperature(), Some((2530, 1)));
    // DO and pH
    assert_eq!(sample(0b101).avg_temperature(), Some((5090, 2)));
    assert_eq!(sample(0).avg_temperature(), None);
}

#[test]
fn ok_labels() {
    assert_eq!(ok_str(true), "OK");
    assert_eq!(ok_str(false), "STALE");
}

#[test]
fn extra_registers_are_ignored() {
    let regs = [1u16, 2, 3, 4, 5, 6, 7, 8, 9, 1, 99, 98];
    let d = SensorData::from_registers(&regs, String::new());
    assert_eq!(d.do_saturation, 1);
    assert!(d.do_ok && !d.ec_ok);
}
