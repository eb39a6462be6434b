use ghostscribe_client::config::{
    apply_raw, candidate_paths, candidate_paths_windows, config_file_target, defaults, diff,
    first_existing, join_path, load, load_error_message, load_from_raw, ClientConfig, RawConfig,
    DEFAULT_CONFIG_TOML,
};

/// Parse TOML text into the optional keys, as the program's edge does.
fn raw_from_toml(text: &str) -> RawConfig {
    let table: toml::Table = toml::from_str(text).unwrap();
    let s = |k: &str| table.get(k).and_then(|v| v.as_str()).map(|v| v.to_string());
    let b = |k: &str| table.get(k).and_then(|v| v.as_bool());
    let i = |k: &str| table.get(k).and_then(|v| v.as_integer());
    RawConfig {
        server_url: s("server_url"),
        endpoint: s("endpoint"),
        auth_token: s("auth_token"),
        input_device: s("input_device"),
        trigger: s("trigger"),
        one_key_trigger: s("one_key_trigger"),
        audio_format: s("audio_format"),
        auto_paste: b("auto_paste"),
        paste_delay_ms: i("paste_delay_ms").map(|v| v as u32),
        request_timeout_s: i("request_timeout_s").map(|v| v as u64),
        smart_space: b("smart_space"),
        continuation_window_s: i("continuation_window_s").map(|v| v as u32),
        max_record_s: i("max_record_s").map(|v| v as u32),
    }
}

fn no_keys() -> RawConfig {
    raw_from_toml("")
}

// ── URL, auth and defaults ───────────────────────────────────────────────────

#[test]
fn url_adds_separator_when_endpoint_unslashed() {
    let cfg = ClientConfig {
        server_url: "http://h:5005".into(),
        endpoint: "v1/en".into(),
        ..defaults()
    };
    assert_eq!(cfg.url(), "http://h:5005/v1/en");
}

#[test]
fn has_auth_toggles_on_non_empty_token() {
    let mut cfg = defaults();
    assert!(!cfg.has_auth());
    cfg.auth_token = "s3cret".into();
    assert!(cfg.has_auth());
}

#[test]
fn url_trims_trailing_server_slash() {
    let cfg = ClientConfig {
        server_url: "http://h:5005/".into(),
        endpoint: "/v1/en".into(),
        ..defaults()
    };
    assert_eq!(cfg.url(), "http://h:5005/v1/en");
}

#[test]
fn defaults_match_documented_values() {
    let d = defaults();
    assert_eq!(d.server_url, "http://localhost:5005");
    assert_eq!(d.endpoint, "/v1/auto");
    assert_eq!(d.trigger, "key:ctrl+g");
    assert_eq!(d.audio_format, "flac");
    assert!(d.auto_paste);
    assert_eq!(d.paste_delay_ms, 50);
    assert_eq!(d.request_timeout_s, 30);
    assert!(d.smart_space);
    assert_eq!(d.continuation_window_s, 30);
    assert_eq!(d.max_record_s, 300);
    assert!(d.auth_token.is_empty());
    assert!(d.input_device.is_empty());
    assert!(d.one_key_trigger.is_empty());
    assert!(d.source_path.is_none());
}

#[test]
fn raw_toml_round_trips_into_clientconfig() {
    let toml_str = r#"
            server_url = "http://example.internal:5005"
            endpoint   = "/v1/en"
            trigger    = "key:ctrl+shift+g"
            one_key_trigger = "key:alt"
            auth_token = "s3cret"
            input_device = "USB Audio"
            audio_format = "wav"
            auto_paste   = false
            paste_delay_ms = 120
            request_timeout_s = 60
            smart_space = false
            continuation_window_s = 10
            max_record_s = 120
        "#;
    let raw = raw_from_toml(toml_str);
    let mut cfg = defaults();
    apply_raw(&mut cfg, raw);
    assert_eq!(cfg.server_url, "http://example.internal:5005");
    assert_eq!(cfg.endpoint, "/v1/en");
    assert_eq!(cfg.trigger, "key:ctrl+shift+g");
    assert_eq!(cfg.one_key_trigger, "key:alt");
    assert_eq!(cfg.auth_token, "s3cret");
    assert_eq!(cfg.input_device, "USB Audio");
    assert_eq!(cfg.audio_format, "wav");
    assert!(!cfg.auto_paste);
    assert_eq!(cfg.paste_delay_ms, 120);
    assert_eq!(cfg.request_timeout_s, 60);
    assert!(!cfg.smart_space);
    assert_eq!(cfg.continuation_window_s, 10);
    assert_eq!(cfg.max_record_s, 120);
}

#[test]
fn partial_toml_only_overrides_specified_fields() {
    let toml_str = r#"server_url = "http://alt:9000""#;
    let raw = raw_from_toml(toml_str);
    let mut cfg = defaults();
    apply_raw(&mut cfg, raw);
    assert_eq!(cfg.server_url, "http://alt:9000");
    assert_eq!(cfg.endpoint, "/v1/auto");
    assert_eq!(cfg.trigger, "key:ctrl+g");
    assert!(cfg.auto_paste);
}

// ── The same on a smaller set of keys ────────────────────────────────────────

#[test]
fn config_url_trims_trailing_server_slash() {
    let cfg = ClientConfig {
        server_url: "http://h:5005/".into(),
        endpoint: "/v1/en".into(),
        ..defaults()
    };
    assert_eq!(cfg.url(), "http://h:5005/v1/en");
}

#[test]
fn config_url_adds_separator_when_endpoint_unslashed() {
    let cfg = ClientConfig {
        server_url: "http://h:5005".into(),
        endpoint: "v1/en".into(),
        ..defaults()
    };
    assert_eq!(cfg.url(), "http://h:5005/v1/en");
}

#[test]
fn config_has_auth_toggles_on_non_empty_token() {
    let mut cfg = defaults();
    assert!(!cfg.has_auth());
    cfg.auth_token = "s3cret".into();
    assert!(cfg.has_auth());
}

#[test]
fn config_defaults_match_documented_values() {
    let d = defaults();
    assert_eq!(d.server_url, "http://localhost:5005");
    assert_eq!(d.endpoint, "/v1/auto");
    assert_eq!(d.trigger, "key:ctrl+g");
    assert_eq!(d.audio_format, "flac");
    assert!(d.auto_paste);
    assert_eq!(d.paste_delay_ms, 50);
    assert!(d.auth_token.is_empty());
    assert!(d.input_device.is_empty());
    assert!(d.one_key_trigger.is_empty());
    assert!(d.source_path.is_none());
}

#[test]
fn config_raw_toml_round_trips_into_clientconfig() {
    let toml_str = r#"
            server_url = "http://example.internal:5005"
            endpoint   = "/v1/en"
            trigger    = "key:ctrl+shift+g"
            one_key_trigger = "key:alt"
            auth_token = "s3cret"
            input_device = "USB Audio"
            audio_format = "wav"
            auto_paste   = false
            paste_delay_ms = 120
        "#;
    let raw = raw_from_toml(toml_str);
    let mut cfg = defaults();
    apply_raw(&mut cfg, raw);
    assert_eq!(cfg.server_url, "http://example.internal:5005");
    assert_eq!(cfg.endpoint, "/v1/en");
    assert_eq!(cfg.trigger, "key:ctrl+shift+g");
    assert_eq!(cfg.one_key_trigger, "key:alt");
    assert_eq!(cfg.auth_token, "s3cret");
    assert_eq!(cfg.input_device, "USB Audio");
    assert_eq!(cfg.audio_format, "wav");
    assert!(!cfg.auto_paste);
    assert_eq!(cfg.paste_delay_ms, 120);
}

#[test]
fn config_partial_toml_only_overrides_specified_fields() {
    let toml_str = r#"server_url = "http://alt:9000""#;
    let raw = raw_from_toml(toml_str);
    let mut cfg = defaults();
    apply_raw(&mut cfg, raw);
    assert_eq!(cfg.server_url, "http://alt:9000");
    assert_eq!(cfg.endpoint, "/v1/auto");
    assert_eq!(cfg.trigger, "key:ctrl+g");
    assert!(cfg.auto_paste);
}

// ── Hot/cold classification ──────────────────────────────────────────────────

fn base() -> ClientConfig {
    load(None)
}

fn loaded(text: &str) -> ClientConfig {
    load_from_raw("/tmp/gs/config.toml".to_string(), raw_from_toml(text))
}

#[test]
fn hot_keys_report_as_hot_only() {
    let new_cfg = loaded(
        r#"
server_url = "http://elsewhere:5005"
endpoint   = "/v1/en"
auth_token = "s3cret"
auto_paste = false
paste_delay_ms = 120
"#,
    );
    let d = diff(&base(), &new_cfg);
    for k in ["server_url", "endpoint", "auth_token", "auto_paste", "paste_delay_ms"] {
        assert!(d.hot_changed.contains(&k), "expected {k} in hot_changed");
    }
    assert!(d.cold_changed.is_empty(), "unexpected cold drift: {:?}", d.cold_changed);
    assert!(!d.requires_restart());
}

#[test]
fn cold_keys_report_as_cold_and_trigger_restart_flag() {
    let new_cfg = loaded(
        r#"
trigger          = "key:ctrl+shift+g"
one_key_trigger  = "key:alt"
input_device     = "USB Audio"
audio_format     = "wav"
"#,
    );
    let d = diff(&base(), &new_cfg);
    for k in ["trigger", "one_key_trigger", "input_device", "audio_format"] {
        assert!(d.cold_changed.contains(&k), "expected {k} in cold_changed");
    }
    assert!(d.hot_changed.is_empty(), "unexpected hot drift: {:?}", d.hot_changed);
    assert!(d.requires_restart());
}

#[test]
fn identical_content_is_a_no_op_diff() {
    let text = r#"
server_url = "http://same:5005"
trigger    = "key:ctrl+g"
"#;
    let a = loaded(text);
    let b = loaded(text);
    let d = diff(&a, &b);
    assert!(d.is_empty());
    assert!(!d.requires_restart());
}

#[test]
fn source_path_change_alone_is_not_a_diff() {
    let text = r#"server_url = "http://x:1""#;
    let a = load_from_raw("/tmp/gs-a/config.toml".to_string(), raw_from_toml(text));
    let b = load_from_raw("/tmp/gs-b/config.toml".to_string(), raw_from_toml(text));
    assert_ne!(a.source_path, b.source_path);
    assert!(diff(&a, &b).is_empty());
}

// ── More of the configuration ────────────────────────────────────────────────

#[test]
fn diff_lists_keys_in_declaration_order() {
    let mut other = defaults();
    other.max_record_s = 10;
    other.server_url = "http://x".into();
    other.audio_format = "wav".into();
    other.trigger = "key:f9".into();
    let d = diff(&defaults(), &other);
    assert_eq!(d.hot_changed, vec!["server_url", "max_record_s"]);
    assert_eq!(d.cold_changed, vec!["trigger", "audio_format"]);
}

#[test]
fn diff_is_symmetric_on_concrete_values() {
    let mut other = defaults();
    other.smart_space = false;
    other.input_device = "mic".into();
    let a = diff(&defaults(), &other);
    let b = diff(&other, &defaults());
    assert_eq!(a, b);
}

#[test]
fn empty_file_leaves_defaults() {
    let mut cfg = defaults();
    apply_raw(&mut cfg, no_keys());
    assert!(diff(&defaults(), &cfg).is_empty());
}

#[test]
fn load_from_raw_remembers_the_path() {
    let cfg = load_from_raw("/etc/gs.toml".to_string(), raw_from_toml("endpoint = \"v1/en\""));
    assert_eq!(cfg.source_path.as_deref(), Some("/etc/gs.toml"));
    assert_eq!(cfg.endpoint, "v1/en");
    assert_eq!(cfg.server_url, "http://localhost:5005");
}

#[test]
fn load_without_a_file_gives_defaults() {
    let cfg = load(None);
    assert!(cfg.source_path.is_none());
    assert!(diff(&defaults(), &cfg).is_empty());
}

#[test]
fn join_path_inserts_one_separator() {
    assert_eq!(join_path("/home/u", "ghostscribe", '/'), "/home/u/ghostscribe");
    assert_eq!(join_path("/home/u/", "ghostscribe", '/'), "/home/u/ghostscribe");
    assert_eq!(join_path("", "config.toml", '/'), "config.toml");
    assert_eq!(join_path("C:\\Users\\u", "config.toml", '\\'), "C:\\Users\\u\\config.toml");
}

#[test]
fn explicit_path_is_the_only_candidate() {
    let v = candidate_paths(
        Some("/x/c.toml".into()),
        Some("/opt/gs".into()),
        None,
        Some("/home/u".into()),
        Some("/work".into()),
        '/',
    );
    assert_eq!(v, vec!["/x/c.toml".to_string()]);
}

#[test]
fn linux_search_order() {
    let v = candidate_paths(
        None,
        Some("/opt/gs".into()),
        None,
        Some("/home/u".into()),
        Some("/work".into()),
        '/',
    );
    assert_eq!(
        v,
        vec![
            "/opt/gs/config.toml".to_string(),
            "/home/u/.config/ghostscribe/config.toml".to_string(),
            "/work/config.toml".to_string(),
        ]
    );
    let w = candidate_paths(None, None, Some("/xdg".into()), Some("/home/u".into()), None, '/');
    assert_eq!(w, vec!["/xdg/ghostscribe/config.toml".to_string()]);
}

#[test]
fn windows_search_order() {
    let v = candidate_paths_windows(
        None,
        Some("C:\\gs".into()),
        Some("C:\\Users\\u\\AppData\\Roaming".into()),
        Some("C:\\work".into()),
        '\\',
    );
    assert_eq!(
        v,
        vec![
            "C:\\gs\\config.toml".to_string(),
            "C:\\Users\\u\\AppData\\Roaming\\ghostscribe\\config.toml".to_string(),
            "C:\\work\\config.toml".to_string(),
        ]
    );
}

#[test]
fn first_existing_picks_the_first_file() {
    assert_eq!(first_existing(&vec![false, true, true]), Some(1));
    assert_eq!(first_existing(&vec![false, false]), None);
    assert_eq!(first_existing(&vec![]), None);
}

#[test]
fn load_error_names_the_stage_and_path() {
    assert_eq!(load_error_message(true, "/c.toml", "bad"), "parsing /c.toml: bad");
    assert_eq!(load_error_message(false, "/c.toml", "gone"), "reading /c.toml: gone");
}

#[test]
fn edit_config_target() {
    assert_eq!(config_file_target(Some("/a/c.toml"), Some("/ad"), '/'), Some("/a/c.toml".into()));
    assert_eq!(
        config_file_target(None, Some("C:\\AD"), '\\'),
        Some("C:\\AD\\ghostscribe\\config.toml".into())
    );
    assert_eq!(config_file_target(None, None, '/'), None);
}

#[test]
fn default_config_text_parses_to_no_keys() {
    let raw = raw_from_toml(DEFAULT_CONFIG_TOML);
    let mut cfg = defaults();
    apply_raw(&mut cfg, raw);
    assert!(diff(&defaults(), &cfg).is_empty());
    assert!(DEFAULT_CONFIG_TOML.contains("# max_record_s"));
}
