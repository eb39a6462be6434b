use ghostscribe_client::client::{
    about_text, banner_lines, chars_note_for, forwarded_args, is_do_it_now, join_names,
    launch_mode, menu_exits, menu_step, merge_pending, parse_args, plan_paste, restart_args,
    send_log_line, stopped_log_line, truncate, Args, Launch, MenuStep, PastePlan, TrayLoop,
};
use ghostscribe_client::config::{defaults, diff, ConfigDiff};
use ghostscribe_client::tray::{MenuAction, TrayState};
use ghostscribe_client::watcher::WatcherEvent;

fn strings(v: &[&str]) -> Vec<String> {
    v.iter().map(|s| s.to_string()).collect()
}

#[test]
fn do_it_now_variants() {
    assert!(is_do_it_now("do it now"));
    assert!(is_do_it_now("  Do it now!  "));
    assert!(is_do_it_now("DO   IT\tNOW..."));
    assert!(!is_do_it_now("do it now please"));
    assert!(!is_do_it_now("do it"));
    assert!(!is_do_it_now(""));
    assert!(!is_do_it_now("don't do it now"));
}

#[test]
fn truncate_marks_the_cut() {
    assert_eq!(truncate("hello", 10), "hello");
    assert_eq!(truncate("hello", 5), "hello");
    assert_eq!(truncate("hello world", 5), "hell…");
    assert_eq!(truncate("héllo wörld", 3), "hé…");
    assert_eq!(truncate("abc", 0), "…");
}

#[test]
fn notes_and_log_lines() {
    assert_eq!(chars_note_for("last: ", "héllo"), "last: 5 chars");
    assert_eq!(stopped_log_line(16000), "[rec] stopped, 31 kB raw");
    assert_eq!(send_log_line(2048, "flac"), "[send] 2 kB flac");
}

#[test]
fn banner_for_defaults() {
    let lines = banner_lines(&defaults(), "tray");
    assert_eq!(
        lines,
        strings(&[
            "GhostScribe client (tray) -> http://localhost:5005/v1/auto",
            "config:   (defaults, no config file found)",
            "trigger:  key:ctrl+g",
            "one_key:  off",
            "format:   flac",
            "auth:     off",
            "paste:    on (delay 50 ms)",
        ])
    );
}

#[test]
fn banner_for_a_loaded_config() {
    let mut cfg = defaults();
    cfg.source_path = Some("/etc/gs.toml".into());
    cfg.one_key_trigger = "key:f9".into();
    cfg.auth_token = "t".into();
    cfg.auto_paste = false;
    let lines = banner_lines(&cfg, "headless");
    assert_eq!(lines[0], "GhostScribe client (headless) -> http://localhost:5005/v1/auto");
    assert_eq!(lines[1], "config:   /etc/gs.toml");
    assert_eq!(lines[3], "one_key:  key:f9");
    assert_eq!(lines[5], "auth:     on");
    assert_eq!(lines[6], "paste:    off (delay 50 ms)");
}

#[test]
fn paste_plan_cases() {
    let cfg = defaults();
    assert_eq!(plan_paste(&cfg, "", None), PastePlan::Skip);
    assert_eq!(plan_paste(&cfg, "Do it now.", None), PastePlan::PressEnter);
    assert_eq!(
        plan_paste(&cfg, "hello", None),
        PastePlan::Paste { text: "hello ".into(), delay_ms: 50, restore_ms: 150 }
    );
    // Within the continuation window: a leading space.
    assert_eq!(
        plan_paste(&cfg, "again", Some(29_999)),
        PastePlan::Paste { text: " again ".into(), delay_ms: 50, restore_ms: 150 }
    );
    // Window over.
    assert_eq!(
        plan_paste(&cfg, "again", Some(30_000)),
        PastePlan::Paste { text: "again ".into(), delay_ms: 50, restore_ms: 150 }
    );
    // Already starts with whitespace.
    assert_eq!(
        plan_paste(&cfg, " x", Some(1)),
        PastePlan::Paste { text: " x ".into(), delay_ms: 50, restore_ms: 150 }
    );
    let mut slow = defaults();
    slow.paste_delay_ms = 400;
    slow.smart_space = false;
    assert_eq!(
        plan_paste(&slow, "x", Some(1)),
        PastePlan::Paste { text: "x ".into(), delay_ms: 400, restore_ms: 400 }
    );
    let mut off = defaults();
    off.auto_paste = false;
    assert_eq!(plan_paste(&off, "hello", None), PastePlan::Skip);
}

#[test]
fn args_are_read_left_to_right() {
    let a = parse_args(&strings(&["--config", "c.toml", "--no-tray", "--tray", "--bogus"]));
    assert_eq!(a, Args { config: Some("c.toml".into()), detach: false, no_tray: true, help: false });
    let a = parse_args(&strings(&["--detach", "-h", "--no-tray"]));
    assert_eq!(a, Args { config: None, detach: true, no_tray: false, help: true });
    let a = parse_args(&strings(&["--config"]));
    assert_eq!(a.config, None);
}

#[test]
fn launch_modes() {
    let tray = Args { config: None, detach: false, no_tray: false, help: false };
    assert_eq!(launch_mode(&tray, false), Launch::Detach { extra: vec![] });
    assert_eq!(launch_mode(&tray, true), Launch::Tray);
    let headless = Args { no_tray: true, ..tray.clone() };
    assert_eq!(launch_mode(&headless, false), Launch::Headless);
    let detached = Args { detach: true, ..headless.clone() };
    assert_eq!(launch_mode(&detached, false), Launch::Detach { extra: vec!["--no-tray"] });
    assert_eq!(launch_mode(&detached, true), Launch::Headless);
    let help = Args { help: true, ..tray };
    assert_eq!(launch_mode(&help, false), Launch::Help);
}

#[test]
fn forwarded_args_drop_detach_and_tray() {
    let v = forwarded_args(&strings(&["--detach", "--config", "a", "--tray", "--no-tray"]), &vec!["--x"]);
    assert_eq!(v, strings(&["--config", "a", "--no-tray", "--x"]));
    assert_eq!(restart_args(true), vec!["--no-tray"]);
    assert!(restart_args(false).is_empty());
}

#[test]
fn about_box_text() {
    assert_eq!(
        about_text("1.2.3", None, "http://h/v1"),
        "GhostScribe Windows client v1.2.3\n\nconfig: (defaults, no file)\nserver: http://h/v1\n"
    );
    assert!(about_text("1", Some("C:\\c.toml"), "u").contains("config: C:\\c.toml\n"));
}

#[test]
fn names_join_and_merge_without_duplicates() {
    let mut pending = vec!["trigger"];
    merge_pending(&mut pending, &vec!["audio_format", "trigger", "audio_format", "input_device"]);
    assert_eq!(pending, vec!["trigger", "audio_format", "input_device"]);
    assert_eq!(join_names(&pending), "trigger, audio_format, input_device");
    assert_eq!(join_names(&vec![]), "");
}

#[test]
fn tray_loop_recording_cycle() {
    let mut t = TrayLoop::new();
    assert_eq!(t.on_press(300), Some(300));
    assert!(t.recording);
    assert_eq!(t.display.state, TrayState::Recording);
    t.on_chunk_upload_ok("partial text");
    assert_eq!(t.display.state, TrayState::Recording);
    assert_eq!(t.display.tooltip, "GhostScribe — recording… — chunk: 12 chars");
    t.on_stop(true);
    assert_eq!(t.display.state, TrayState::Uploading);
    t.on_upload_ok("hello");
    assert_eq!(t.display.state, TrayState::Idle);
    assert_eq!(t.display.tooltip, "GhostScribe — idle — last: 5 chars");
    assert_eq!(t.on_press(0), None);
    t.on_cancel();
    assert_eq!(t.display.state, TrayState::Idle);
    t.on_press(0);
    t.on_stop(false);
    assert_eq!(t.display.state, TrayState::Idle);
}

#[test]
fn tray_loop_upload_error() {
    let mut t = TrayLoop::new();
    let long = "x".repeat(100);
    t.on_upload_err(&long);
    assert_eq!(t.display.state, TrayState::Error);
    let expected = format!("GhostScribe — error (see log) — {}…", "x".repeat(79));
    assert_eq!(t.display.tooltip, expected);
}

#[test]
fn watcher_reload_with_hot_and_cold_keys() {
    let mut t = TrayLoop::new();
    let mut new_cfg = defaults();
    new_cfg.server_url = "http://x".into();
    new_cfg.trigger = "key:f9".into();
    let d = diff(&defaults(), &new_cfg);
    let r = t.on_watcher_event(WatcherEvent::Reloaded { new_config: Box::new(new_cfg), diff: d });
    assert_eq!(r.new_config.unwrap().server_url, "http://x");
    assert!(r.error_box.is_none());
    assert_eq!(t.display.state, TrayState::Error);
    assert_eq!(t.display.tooltip, "GhostScribe — error (see log) — restart required: trigger");
    assert_eq!(
        r.log,
        strings(&["[config] reloaded: server_url", "[config] restart required: trigger"])
    );
    // The same cold key again is not listed twice.
    let d2 = ConfigDiff { hot_changed: vec![], cold_changed: vec!["trigger", "audio_format"] };
    t.on_manual_reload(&d2);
    assert_eq!(t.pending_restart, vec!["trigger", "audio_format"]);
    assert_eq!(
        t.display.tooltip,
        "GhostScribe — error (see log) — restart required: trigger, audio_format"
    );
}

#[test]
fn watcher_parse_error_and_missing() {
    let mut t = TrayLoop::new();
    let r = t.on_watcher_event(WatcherEvent::Missing);
    assert!(r.new_config.is_none());
    assert_eq!(t.display.tooltip, "GhostScribe — idle — config file missing");
    let r = t.on_watcher_event(WatcherEvent::ParseError { message: "parsing c: bad".into() });
    assert_eq!(r.error_box.as_deref(), Some("parsing c: bad"));
    assert_eq!(t.display.state, TrayState::Error);
    assert_eq!(t.display.tooltip, "GhostScribe — error (see log) — config parse error — see dialog");
}

#[test]
fn manual_reload_messages() {
    let mut t = TrayLoop::new();
    t.on_manual_reload(&ConfigDiff { hot_changed: vec![], cold_changed: vec![] });
    assert_eq!(t.display.tooltip, "GhostScribe — idle — reload: no changes");
    t.on_manual_reload(&ConfigDiff { hot_changed: vec!["endpoint", "auth_token"], cold_changed: vec![] });
    assert_eq!(t.display.tooltip, "GhostScribe — idle — reloaded: endpoint, auth_token");
    assert_eq!(t.display.state, TrayState::Idle);
}

#[test]
fn menu_steps() {
    assert_eq!(menu_step(MenuAction::RevealConfig, None, false), MenuStep::Nothing);
    assert_eq!(
        menu_step(MenuAction::ReloadConfig, Some("/c.toml"), false),
        MenuStep::ReloadConfig("/c.toml".into())
    );
    assert_eq!(menu_step(MenuAction::Restart, None, true), MenuStep::Restart(vec!["--no-tray"]));
    assert_eq!(menu_step(MenuAction::ToggleLog, None, false), MenuStep::SyncLogging);
    assert!(menu_exits(&MenuStep::Quit, false));
    assert!(menu_exits(&MenuStep::Restart(vec![]), true));
    assert!(!menu_exits(&MenuStep::Restart(vec![]), false));
    assert!(!menu_exits(&MenuStep::About, true));
}
