use raspi_collector::calibration::{
    CalibrationError, CalibrationRow, PhCalibration, MICRO_PER_PH, PH_MAX_MICRO,
};

fn micro(ph: f32) -> i64 {
    (ph as f64 * MICRO_PER_PH as f64).round() as i64
}

fn apply(c: &PhCalibration, raw: f32) -> f32 {
    (c.apply(micro(raw)) as f64 / MICRO_PER_PH as f64) as f32
}

fn cal(pts: &[(f32, f32)]) -> PhCalibration {
    let rows: Vec<CalibrationRow> = pts
        .iter()
        .enumerate()
        .map(|(i, &(r, a))| CalibrationRow::Point { line: i + 1, raw: micro(r), actual: micro(a) })
        .collect();
    match PhCalibration::from_rows(&rows) {
        Ok(c) => c,
        Err(_) => panic!("calibration points refused"),
    }
}

#[test]
fn identity_passthrough() {
    assert_eq!(apply(&PhCalibration::identity(), 7.0), 7.0);
}

#[test]
fn single_point_offset() {
    let c = cal(&[(6.8, 7.0)]);
    // offset = +0.2
    assert!((apply(&c, 6.8) - 7.0).abs() < 1e-5);
    assert!((apply(&c, 4.0) - 4.2).abs() < 1e-5);
}

#[test]
fn two_point_linear() {
    // raw 4→4, raw 7→7.2 (slope ≠ 1)
    let c = cal(&[(4.0, 4.0), (7.0, 7.2)]);
    assert!((apply(&c, 4.0) - 4.0).abs() < 1e-4);
    assert!((apply(&c, 7.0) - 7.2).abs() < 1e-4);
    // midpoint
    let mid = apply(&c, 5.5);
    assert!((mid - 5.6).abs() < 1e-4);
}

#[test]
fn extrapolation_below() {
    let c = cal(&[(4.0, 4.0), (7.0, 7.2)]);
    // slope = (7.2-4.0)/(7.0-4.0) = 3.2/3.0
    let expected = 4.0 + (3.0 - 4.0) * (7.2 - 4.0) / (7.0 - 4.0);
    assert!((apply(&c, 3.0) - expected).abs() < 1e-4);
}

#[test]
fn extrapolation_above_uses_last_segment() {
    let c = cal(&[(4.0, 4.0), (7.0, 7.0), (10.0, 11.0)]);
    // last segment slope 4/3
    assert_eq!(c.apply(13_000_000), 15_000_000);
    assert_eq!(c.apply(8_500_000), 9_000_000);
}

#[test]
fn points_are_sorted_and_first_duplicate_kept() {
    let rows = vec![
        CalibrationRow::Point { line: 2, raw: 7_000_000, actual: 7_100_000 },
        CalibrationRow::Point { line: 3, raw: 4_000_000, actual: 4_050_000 },
        CalibrationRow::Point { line: 4, raw: 7_000_000, actual: 6_900_000 },
    ];
    let c = match PhCalibration::from_rows(&rows) {
        Ok(c) => c,
        Err(_) => panic!("refused"),
    };
    assert_eq!(c.points(), &[(4_000_000, 4_050_000), (7_000_000, 7_100_000)]);
    assert!(c.is_active());
    assert!(!PhCalibration::identity().is_active());
}

#[test]
fn calibration_points_map_to_their_actual_values() {
    let c = cal(&[(4.0, 4.1), (6.86, 7.01), (9.18, 9.0)]);
    for &(raw, actual) in c.points() {
        assert_eq!(c.apply(raw), actual as i128);
    }
}

#[test]
fn interpolation_rounds_down_to_micro_ph() {
    let c = cal(&[(0.0, 0.0), (3.0, 1.0)]);
    // 1/3 of a micro-pH step: floor
    assert_eq!(c.apply(1), 0);
    assert_eq!(c.apply(-1), -1);
    assert_eq!(c.apply(1_500_000), 500_000);
}

#[test]
fn out_of_range_row_is_refused() {
    let rows = vec![
        CalibrationRow::Point { line: 2, raw: 4_000_000, actual: 4_000_000 },
        CalibrationRow::Point { line: 3, raw: PH_MAX_MICRO + 1, actual: 7_000_000 },
        CalibrationRow::BadActual { line: 4, text: "x".to_string() },
    ];
    match PhCalibration::from_rows(&rows) {
        Err(CalibrationError::OutOfRange { line, raw, actual }) => {
            assert_eq!(line, 3);
            assert_eq!(raw, PH_MAX_MICRO + 1);
            assert_eq!(actual, 7_000_000);
        }
        _ => panic!("expected an out-of-range error"),
    }
}

#[test]
fn unparsable_actual_is_refused_in_file_order() {
    let rows = vec![
        CalibrationRow::BadActual { line: 5, text: "abc".to_string() },
        CalibrationRow::Point { line: 6, raw: -1, actual: 7_000_000 },
    ];
    match PhCalibration::from_rows(&rows) {
        Err(CalibrationError::BadActual { line, text }) => {
            assert_eq!(line, 5);
            assert_eq!(text, "abc");
        }
        _ => panic!("expected a parse error"),
    }
}

#[test]
fn range_bounds_are_inclusive() {
    let rows = vec![CalibrationRow::Point { line: 1, raw: 0, actual: PH_MAX_MICRO }];
    assert!(PhCalibration::from_rows(&rows).is_ok());
}

#[test]
fn interpolated_values_stay_between_neighbouring_points() {
    let c = cal(&[(4.0, 4.2), (7.0, 6.9), (10.0, 10.4)]);
    for raw in [4_000_000i64, 4_123_457, 5_500_000, 6_999_999, 7_000_000] {
        let y = c.apply(raw);
        assert!(y >= 4_200_000 && y <= 6_900_000);
    }
    for raw in [7_000_000i64, 8_000_001, 10_000_000] {
        let y = c.apply(raw);
        assert!(y >= 6_900_000 && y <= 10_400_000);
    }
    let d = cal(&[(4.0, 5.0), (7.0, 4.5)]);
    for raw in [4_000_000i64, 5_000_000, 6_999_999, 7_000_000] {
        let y = d.apply(raw);
        assert!(y >= 4_500_000 && y <= 5_000_000);
    }
}

#[test]
fn error_messages() {
    let e = CalibrationError::BadActual { line: 5, text: "abc".to_string() };
    assert_eq!(e.message(), "line 5: cannot parse actual_ph 'abc'");
    let e = CalibrationError::OutOfRange { line: 3, raw: 15_500_000, actual: 7_000_000 };
    assert_eq!(e.message(), "line 3: pH values must be 0–14 (got raw=15.5, actual=7)");
    let e = CalibrationError::OutOfRange { line: 12, raw: -250_000, actual: 4_010_000 };
    assert_eq!(e.message(), "line 12: pH values must be 0–14 (got raw=-0.25, actual=4.01)");
    let e = CalibrationError::OutOfRange { line: 1, raw: i64::MIN, actual: 1 };
    assert_eq!(e.message(), "line 1: pH values must be 0–14 (got raw=-9223372036854.775808, actual=0.000001)");
}
