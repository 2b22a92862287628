use raspi_collector::flowmeter::{base64_encode, reading_digits, CamBackend, FlowmeterReader};

#[test]
fn base64_rfc4648_vectors() {
    assert_eq!(base64_encode(b""), "");
    assert_eq!(base64_encode(b"f"), "Zg==");
    assert_eq!(base64_encode(b"fo"), "Zm8=");
    assert_eq!(base64_encode(b"foo"), "Zm9v");
    assert_eq!(base64_encode(b"foob"), "Zm9vYg==");
    assert_eq!(base64_encode(b"fooba"), "Zm9vYmE=");
    assert_eq!(base64_encode(b"foobar"), "Zm9vYmFy");
}

#[test]
fn base64_uses_plus_and_slash() {
    assert_eq!(base64_encode(&[0xFB, 0xFF, 0xBF]), "+/+/");
    assert_eq!(base64_encode(&[0xFF, 0xD8, 0xFF, 0xE0]), "/9j/4A==");
    let data: Vec<u8> = (0..=255u8).collect();
    assert_eq!(base64_encode(&data).len(), (256 + 2) / 3 * 4);
}

#[test]
fn reading_digits_keeps_only_digits() {
    assert_eq!(reading_digits("000331").as_deref(), Some("000331"));
    assert_eq!(reading_digits(" 00 03 31 m³\n").as_deref(), Some("000331"));
    assert_eq!(reading_digits("٣12a"), Some("12".to_string()));
    assert_eq!(reading_digits("no digits"), None);
    assert_eq!(reading_digits(""), None);
}

#[test]
fn backend_setting_is_case_insensitive() {
    assert_eq!(CamBackend::from_setting(Some("LibCamera".to_string())), CamBackend::Libcamera);
    assert_eq!(CamBackend::from_setting(Some("libcamera".to_string())), CamBackend::Libcamera);
    assert_eq!(CamBackend::from_setting(Some("fswebcam".to_string())), CamBackend::Fswebcam);
    assert_eq!(CamBackend::from_setting(Some("other".to_string())), CamBackend::Fswebcam);
    assert_eq!(CamBackend::from_setting(None), CamBackend::Fswebcam);
}

#[test]
fn reader_settings_defaults() {
    let r = match FlowmeterReader::from_settings(Some("k".to_string()), None, None, None, None, None) {
        Ok(r) => r,
        Err(_) => panic!("key given"),
    };
    assert_eq!(r.api_key(), "k");
    assert_eq!(r.model(), "meta-llama/llama-4-scout-17b-16e-instruct");
    assert_eq!(r.backend(), CamBackend::Fswebcam);
    assert_eq!(r.device(), "/dev/video0");
    assert_eq!(r.brand(), "generic");
    assert_eq!(r.tmp_path(), "/tmp/flowmeter_cap.jpg");
}

#[test]
fn reader_settings_given() {
    let s = |v: &str| Some(v.to_string());
    let r = match FlowmeterReader::from_settings(s("key"), s("m"), s("LIBCAMERA"), s("/dev/video2"), s("IPM"), s("/tmp/x.jpg")) {
        Ok(r) => r,
        Err(_) => panic!("key given"),
    };
    assert_eq!(r.model(), "m");
    assert_eq!(r.backend(), CamBackend::Libcamera);
    assert_eq!(r.device(), "/dev/video2");
    assert_eq!(r.brand(), "IPM");
    assert_eq!(r.tmp_path(), "/tmp/x.jpg");
}

#[test]
fn reader_requires_api_key() {
    match FlowmeterReader::from_settings(None, None, None, None, None, None) {
        Err(e) => assert_eq!(e, "GROQ_API_KEY is not set — check your .env file"),
        Ok(_) => panic!("missing key accepted"),
    }
}

#[test]
fn base64_padding_and_alphabet() {
    for n in 0..10usize {
        let data: Vec<u8> = (0..n).map(|i| (i * 37 + 200) as u8).collect();
        let s = base64_encode(&data);
        assert_eq!(s.len(), (n + 2) / 3 * 4);
        let pad = (3 - n % 3) % 3;
        let (body, tail) = s.split_at(s.len() - pad);
        assert!(tail.chars().all(|c| c == '='));
        assert!(body.chars().all(|c| c.is_ascii_alphanumeric() || c == '+' || c == '/'));
    }
}
