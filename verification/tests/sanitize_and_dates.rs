use milliblog::sanitize::sanitize_filename;
use milliblog::parse::{date_display, date_key, validate_dateline};

#[test]
fn sanitize_basic() {
    assert_eq!(sanitize_filename(&"Hello World!".to_string()), "hello_world");
    assert_eq!(sanitize_filename(&"hello-world".to_string()), "hello-world");
    assert_eq!(sanitize_filename(&"A.B/C".to_string()), "a_b_c");
}

#[test]
fn sanitize_degenerate_inputs() {
    assert_eq!(sanitize_filename(&"".to_string()), "");
    assert_eq!(sanitize_filename(&"___".to_string()), "");
    assert_eq!(sanitize_filename(&"!!! ???".to_string()), "");
    assert_eq!(sanitize_filename(&"__keep_me__".to_string()), "keep_me");
}

#[test]
fn sanitize_idempotent_on_samples() {
    let samples = ["Hello World!", "", "___", "A.B/C", "x", "--a--", "MiXeD CaSe 42"];
    for s in samples {
        let once = sanitize_filename(&s.to_string());
        let twice = sanitize_filename(&once);
        assert_eq!(once, twice);
    }
}

#[test]
fn sanitize_output_shape() {
    let out = sanitize_filename(&" Some Title (draft) ".to_string());
    assert!(!out.starts_with('_'));
    assert!(!out.ends_with('_'));
    for c in out.chars() {
        assert!(c.is_ascii_lowercase() || c.is_ascii_digit() || c == '-' || c == '_');
    }
}

#[test]
fn dateline_valid() {
    assert!(validate_dateline("01.02.2024"));
    assert!(validate_dateline("31.12.1999"));
}

#[test]
fn dateline_invalid() {
    assert!(!validate_dateline("2024-02-01"));
    assert!(!validate_dateline("1.2.2024"));
    assert!(!validate_dateline(""));
    assert!(!validate_dateline("01.02.20245"));
    assert!(!validate_dateline("01x02.2024"));
}

#[test]
fn date_key_and_display() {
    assert_eq!(date_key("01.02.2024"), "20240201");
    assert_eq!(date_display("01.02.2024"), "02/01");
    assert_eq!(date_key("25.12.1999"), "19991225");
    assert_eq!(date_display("25.12.1999"), "12/25");
}
