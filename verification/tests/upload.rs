use ghostscribe_client::config::defaults;
use ghostscribe_client::upload::{
    boundary_from_digits, build_multipart, content_type_for, extract_number_text, extract_string,
    http_error_message, parse_response, prepare_upload, random_boundary, BOUNDARY_PREFIX,
};

#[test]
fn multipart_body_is_exact() {
    let body = build_multipart("B", "recording.flac", "audio/flac", b"PAYLOAD");
    let expected = "--B\r\n\
Content-Disposition: form-data; name=\"audio\"; filename=\"recording.flac\"\r\n\
Content-Type: audio/flac\r\n\r\n\
PAYLOAD\r\n--B--\r\n";
    assert_eq!(body, expected.as_bytes());
}

#[test]
fn multipart_body_carries_binary_payload_and_utf8_names() {
    let payload = [0u8, 255, 13, 10, 45, 45];
    let body = build_multipart("xyz", "año.wav", "audio/wav", &payload);
    let text_head = "--xyz\r\nContent-Disposition: form-data; name=\"audio\"; filename=\"año.wav\"\r\nContent-Type: audio/wav\r\n\r\n";
    assert!(body.starts_with(text_head.as_bytes()));
    let tail = b"\r\n--xyz--\r\n";
    assert!(body.ends_with(tail));
    assert_eq!(&body[text_head.len()..body.len() - tail.len()], &payload);
}

#[test]
fn boundary_from_digits_maps_0_to_9_then_a_to_z() {
    let b = boundary_from_digits(&[0, 9, 10, 35]);
    assert_eq!(b, "----ghostscribe-09az");
}

#[test]
fn random_boundary_shape() {
    for _ in 0..20 {
        let b = random_boundary();
        assert_eq!(b.len(), 32);
        assert!(b.starts_with(BOUNDARY_PREFIX));
        assert!(b[16..].chars().all(|c| c.is_ascii_digit() || c.is_ascii_lowercase()));
    }
    // Two boundaries are all but certain to differ.
    assert_ne!(random_boundary(), random_boundary());
}

#[test]
fn content_type_header() {
    assert_eq!(content_type_for("abc"), "multipart/form-data; boundary=abc");
}

#[test]
fn request_follows_the_configuration() {
    let mut cfg = defaults();
    cfg.server_url = "http://h:5005/".into();
    cfg.endpoint = "/v1/en".into();
    cfg.request_timeout_s = 12;
    let r = prepare_upload(&cfg, "B", b"x", "recording.wav", "audio/wav");
    assert_eq!(r.url, "http://h:5005/v1/en");
    assert_eq!(r.content_type, "multipart/form-data; boundary=B");
    assert_eq!(r.timeout_s, 12);
    assert!(r.auth_token.is_none());
    assert_eq!(r.body, build_multipart("B", "recording.wav", "audio/wav", b"x"));
    assert!(r.body.len() > 1);

    cfg.auth_token = "s3cret".into();
    let r = prepare_upload(&cfg, "B", b"x", "recording.wav", "audio/wav");
    assert_eq!(r.auth_token.as_deref(), Some("s3cret"));
}

#[test]
fn http_error_carries_status_and_trimmed_body() {
    assert_eq!(http_error_message(500, "  boom\n"), "HTTP 500: boom");
    assert_eq!(http_error_message(401, "unauthorized"), "HTTP 401: unauthorized");
    assert_eq!(http_error_message(0, ""), "HTTP 0: ");
}

#[test]
fn parses_transcript_json() {
    let r = parse_response(r#"{"text":"hello world","language":"en","language_probability":0.97}"#);
    assert_eq!(r.text, "hello world");
    assert_eq!(r.language, "en");
    assert_eq!(r.probability.as_deref(), Some("0.97"));
    let p: f64 = r.probability.unwrap().parse().unwrap();
    assert!((p - 0.97).abs() < 1e-9);
}

#[test]
fn missing_keys_take_defaults() {
    let r = parse_response("{}");
    assert_eq!(r.text, "");
    assert_eq!(r.language, "?");
    assert!(r.probability.is_none());
}

#[test]
fn empty_transcript_parses_to_empty_text() {
    let r = parse_response(r#"{"text":"","language":"en","language_probability":0.05}"#);
    assert_eq!(r.text, "");
    assert_eq!(r.language, "en");
}

#[test]
fn escapes_are_decoded() {
    let json = r#"{"text": "a\"b\\c\/d\ne\tf\rg\u00e9h\x"}"#;
    assert_eq!(extract_string(json, "text").as_deref(), Some("a\"b\\c/d\ne\tf\rgéhx"));
}

#[test]
fn unicode_escape_edge_cases() {
    // A surrogate code is skipped.
    assert_eq!(extract_string(r#"{"k":"a\ud800b"}"#, "k").as_deref(), Some("ab"));
    // Not hexadecimal: nothing added, decoding goes on.
    assert_eq!(extract_string(r#"{"k":"a\uzzzzb"}"#, "k").as_deref(), Some("ab"));
    // A leading plus is read as from_str_radix reads it.
    assert_eq!(extract_string(r#"{"k":"\u+041"}"#, "k").as_deref(), Some("A"));
    // Cut short at the end of the text: the string ends there.
    assert_eq!(extract_string("{\"k\":\"ab\\u00", "k").as_deref(), Some("ab"));
}

#[test]
fn unterminated_and_malformed_values() {
    // No closing quote: everything to the end.
    assert_eq!(extract_string(r#"{"k":"abc"#, "k").as_deref(), Some("abc"));
    // A lone backslash at the end: nothing.
    assert_eq!(extract_string("{\"k\":\"abc\\", "k"), None);
    // Not a string.
    assert_eq!(extract_string(r#"{"k": 12}"#, "k"), None);
    // No such key, or no colon.
    assert_eq!(extract_string(r#"{"x":"1"}"#, "k"), None);
    assert_eq!(extract_string(r#"{"k""#, "k"), None);
}

#[test]
fn first_occurrence_of_the_key_wins() {
    let json = r#"{"text":"one","text":"two"}"#;
    assert_eq!(extract_string(json, "text").as_deref(), Some("one"));
}

#[test]
fn number_text_stops_at_delimiters() {
    assert_eq!(extract_number_text(r#"{"p": 0.5, "q":1}"#, "p").as_deref(), Some("0.5"));
    assert_eq!(extract_number_text(r#"{"p":12}"#, "p").as_deref(), Some("12"));
    assert_eq!(extract_number_text(r#"{"p":7 }"#, "p").as_deref(), Some("7"));
    assert_eq!(extract_number_text(r#"{"q":7}"#, "p"), None);
}
