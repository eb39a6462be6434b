use ghostscribe_client::config::{
    apply_raw, defaults, load, load_error_message, load_from_raw, ClientConfig, RawConfig,
};
use ghostscribe_client::watcher::{
    initial_state, observe, reload_outcome, Mtime, PollStep, WatcherEvent, WatcherState,
};

fn raw_from_toml(text: &str) -> Result<RawConfig, String> {
    let table: toml::Table = toml::from_str(text).map_err(|e| e.to_string())?;
    let s = |k: &str| table.get(k).and_then(|v| v.as_str()).map(|v| v.to_string());
    let b = |k: &str| table.get(k).and_then(|v| v.as_bool());
    let i = |k: &str| table.get(k).and_then(|v| v.as_integer());
    Ok(RawConfig {
        server_url: s("server_url"),
        endpoint: s("endpoint"),
        auth_token: s("auth_token"),
        input_device: s("input_device"),
        trigger: s("trigger"),
        one_key_trigger: s("one_key_trigger"),
        audio_format: s("audio_format"),
        auto_paste: b("auto_paste"),
        paste_delay_ms: i("paste_delay_ms").map(|v| v as u32),
        request_timeout_s: i("request_timeout_s").map(|v| v as u64),
        smart_space: b("smart_space"),
        continuation_window_s: i("continuation_window_s").map(|v| v as u32),
        max_record_s: i("max_record_s").map(|v| v as u32),
    })
}

/// Read a config file's text as the watcher's edge does.
fn read_config(path: &str, text: &str) -> Result<ClientConfig, String> {
    match raw_from_toml(text) {
        Ok(raw) => Ok(load_from_raw(path.to_string(), raw)),
        Err(e) => Err(load_error_message(true, path, &e)),
    }
}

fn baseline() -> ClientConfig {
    let mut cfg = load(None);
    cfg.server_url = "http://baseline:5005".into();
    cfg
}

fn t(secs: u64) -> Mtime {
    Mtime { secs, nanos: 0 }
}

/// One poll against a file that is present with this mtime and text.
fn poll(state: &mut WatcherState, probe: Option<(Mtime, &str)>) -> Option<WatcherEvent> {
    match observe(state, probe.map(|p| p.0)) {
        PollStep::Quiet => None,
        PollStep::ReportMissing => Some(WatcherEvent::Missing),
        PollStep::Reload => {
            let text = probe.unwrap().1;
            reload_outcome(&baseline(), read_config("/tmp/gs/c.toml", text))
        },
    }
}

#[test]
fn parse_error_surfaces_with_message() {
    let mut s = WatcherState { last_mtime: None, last_was_missing: false };
    match poll(&mut s, Some((t(1), "not = valid = toml"))) {
        Some(WatcherEvent::ParseError { message }) => assert!(message.contains("parsing")),
        other => panic!("expected ParseError, got {other:?}"),
    }
}

#[test]
fn reload_event_reports_only_changed_keys() {
    let mut s = WatcherState { last_mtime: None, last_was_missing: false };
    let text = "server_url = \"http://alt:1234\"\nauto_paste = false\n";
    match poll(&mut s, Some((t(1), text))) {
        Some(WatcherEvent::Reloaded { diff, new_config }) => {
            assert!(diff.hot_changed.contains(&"server_url"));
            assert!(diff.hot_changed.contains(&"auto_paste"));
            assert!(diff.cold_changed.is_empty());
            assert_eq!(new_config.server_url, "http://alt:1234");
        },
        other => panic!("expected Reloaded, got {other:?}"),
    }
}

#[test]
fn unchanged_mtime_emits_nothing() {
    let mut s = initial_state(Some(t(7)));
    assert!(poll(&mut s, Some((t(7), "server_url = \"http://alt:1\""))).is_none());
}

#[test]
fn missing_file_fires_once_then_goes_quiet() {
    let mut s = WatcherState { last_mtime: None, last_was_missing: false };
    assert!(matches!(poll(&mut s, None), Some(WatcherEvent::Missing)));
    assert!(poll(&mut s, None).is_none());
}

#[test]
fn no_semantic_change_is_silent() {
    let mut s = WatcherState { last_mtime: None, last_was_missing: false };
    assert!(poll(&mut s, Some((t(1), "server_url = \"http://baseline:5005\""))).is_none());
}

#[test]
fn reappearing_file_is_read_again() {
    let mut s = initial_state(Some(t(1)));
    assert!(matches!(poll(&mut s, None), Some(WatcherEvent::Missing)));
    let ev = poll(&mut s, Some((t(1), "trigger = \"key:f9\"")));
    match ev {
        Some(WatcherEvent::Reloaded { diff, .. }) => {
            assert_eq!(diff.cold_changed, vec!["trigger"]);
            assert!(diff.hot_changed.contains(&"server_url"));
        },
        other => panic!("expected Reloaded, got {other:?}"),
    }
    // The same mtime again: nothing.
    assert!(poll(&mut s, Some((t(1), "trigger = \"key:f9\""))).is_none());
}

#[test]
fn initial_state_remembers_missing_file() {
    let s = initial_state(None);
    assert!(s.last_was_missing);
    let mut s2 = s;
    assert_eq!(observe(&mut s2, None), PollStep::Quiet);
}

#[test]
fn reload_of_equal_config_is_none_and_error_is_kept() {
    let mut same = defaults();
    apply_raw(&mut same, raw_from_toml("").unwrap());
    assert!(reload_outcome(&defaults(), Ok(same)).is_none());
    match reload_outcome(&defaults(), Err("parsing x: bad".to_string())) {
        Some(WatcherEvent::ParseError { message }) => assert_eq!(message, "parsing x: bad"),
        other => panic!("expected ParseError, got {other:?}"),
    }
}
