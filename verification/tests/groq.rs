use raspi_collector::groq::{groq_reading, groq_reply};
use raspi_collector::text::trim_white;

#[test]
fn trim_white_matches_str_trim() {
    for s in ["", "   ", " 000331\n", "\t12 34\r\n", "\u{3000}7\u{a0}", "x", "\u{85}a b\u{2029}"] {
        assert_eq!(trim_white(s), s.trim());
    }
}

#[test]
fn groq_reading_takes_trimmed_content() {
    let text = r#"{"id":"x","choices":[{"index":0,"message":{"role":"assistant","content":"  000331\n"}}]}"#;
    assert_eq!(groq_reading(text), Ok("000331".to_string()));
}

#[test]
fn groq_reading_wrong_shape() {
    let text = r#"{"error":{"message":"bad key"}}"#;
    assert_eq!(
        groq_reading(text),
        Err(format!("[flowmeter] unexpected Groq response shape: {text}"))
    );
    let text = r#"{"choices":[{"message":{"content":42}}]}"#;
    assert_eq!(
        groq_reading(text),
        Err(format!("[flowmeter] unexpected Groq response shape: {text}"))
    );
}

#[test]
fn groq_reading_not_json() {
    let err = groq_reading("<html>502</html>").unwrap_err();
    assert!(err.starts_with("[flowmeter] Groq JSON parse error: "));
    assert!(err.len() > "[flowmeter] Groq JSON parse error: ".len());
}

#[test]
fn groq_reply_each_case() {
    assert_eq!(groq_reply("t", Ok(Some(" 12 ".to_string()))), Ok("12".to_string()));
    assert_eq!(groq_reply("t", Ok(None)), Err("[flowmeter] unexpected Groq response shape: t".to_string()));
    assert_eq!(groq_reply("t", Err("eof".to_string())), Err("[flowmeter] Groq JSON parse error: eof".to_string()));
}
