use raspi_collector::calibration_file::calibration_rows;

fn rows(content: &str) -> Vec<(usize, String, String)> {
    calibration_rows(content).into_iter().map(|r| (r.line, r.raw, r.actual)).collect()
}

fn by_lines(content: &str) -> Vec<(usize, String, String)> {
    let mut out = Vec::new();
    for (idx, line) in content.lines().enumerate() {
        let line = line.trim();
        if line.is_empty() || line.starts_with('#') {
            continue;
        }
        let mut cols = line.split(',');
        let raw = cols.next().unwrap_or("").trim().to_string();
        let actual = cols.next().unwrap_or("").trim().to_string();
        out.push((idx + 1, raw, actual));
    }
    out
}

#[test]
fn csv_rows_of_a_calibration_file() {
    let content = "raw_ph,actual_ph\n# buffers\n\n 4.10 , 4.00 \n6.86,7.01,extra\n9.18\n";
    assert_eq!(
        rows(content),
        vec![
            (1, "raw_ph".to_string(), "actual_ph".to_string()),
            (4, "4.10".to_string(), "4.00".to_string()),
            (5, "6.86".to_string(), "7.01".to_string()),
            (6, "9.18".to_string(), "".to_string()),
        ]
    );
}

#[test]
fn csv_rows_match_the_line_grammar() {
    for content in [
        "",
        "\n",
        "\n\n",
        "4,4",
        "4,4\r\n7,7\r\n",
        "  # c,1\n,\n ,5\n7,\n",
        "\r\n\t4.1,\u{a0}4.0\u{3000}\n#x\n\n10,10,11,12",
        "a,b\nc,d\n\n",
    ] {
        assert_eq!(rows(content), by_lines(content), "{content:?}");
    }
}
