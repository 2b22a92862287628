use raspi_collector::aht10::{Aht10Measurement, FULL_SCALE};

#[test]
fn busy_frame_gives_nothing() {
    assert_eq!(Aht10Measurement::from_frame(&[0x80, 1, 2, 3, 4, 5]), None);
    assert_eq!(Aht10Measurement::from_frame(&[0x98, 0, 0, 0, 0, 0]), None);
}

#[test]
fn frame_fields_are_twenty_bits_each() {
    let m = Aht10Measurement::from_frame(&[0x1C, 0x12, 0x34, 0x56, 0x78, 0x9A]);
    assert_eq!(m, Some(Aht10Measurement { humidity_raw: 0x12345, temperature_raw: 0x6789A }));
    let m = Aht10Measurement::from_frame(&[0x00, 0xFF, 0xFF, 0xFF, 0xFF, 0xFF]);
    assert_eq!(m, Some(Aht10Measurement { humidity_raw: FULL_SCALE - 1, temperature_raw: FULL_SCALE - 1 }));
}

#[test]
fn physical_values() {
    // half scale: 50 % humidity and 50 °C
    let m = match Aht10Measurement::from_frame(&[0x08, 0x80, 0x00, 0x08, 0x00, 0x00]) {
        Some(m) => m,
        None => panic!("not busy"),
    };
    let hum = m.humidity_raw as f32 / FULL_SCALE as f32 * 100.0;
    let temp = m.temperature_raw as f32 / FULL_SCALE as f32 * 200.0 - 50.0;
    assert!((hum - 50.0).abs() < 1e-4);
    assert!((temp - 50.0).abs() < 1e-4);
}
