use ghostscribe_client::linux_hotkey::{
    digit_key, function_key, handle_event, handle_mouse, key_mod_bit, key_name_to_rdev,
    letter_key, parse_one_key_trigger, parse_trigger, HookState, Key, MouseButton, OneKeyTrigger,
    TriggerConfig, TriggerKeys, MOD_ALT, MOD_CTRL, MOD_SHIFT, MOD_SUPER,
};
use ghostscribe_client::ptt::{HookMode, HotkeyEvent};

fn chord(s: &str) -> TriggerKeys {
    match parse_trigger(s).unwrap() {
        TriggerConfig::Key(k) => k,
        TriggerConfig::Mouse(b) => panic!("expected a key chord, got mouse {b:?}"),
    }
}

#[test]
fn hotkey_parse_ctrl_g() {
    let t = chord("key:ctrl+g");
    assert_eq!(t.modifiers, MOD_CTRL);
    assert_eq!(t.key, Key::KeyG);
}

#[test]
fn parse_f11_no_modifier() {
    let t = chord("key:f11");
    assert_eq!(t.modifiers, 0);
    assert_eq!(t.key, Key::F11);
}

#[test]
fn hotkey_parse_bare_letter() {
    let t = chord("key:a");
    assert_eq!(t.modifiers, 0);
    assert_eq!(t.key, Key::KeyA);
}

#[test]
fn hotkey_parse_missing_prefix_errors() {
    assert!(parse_trigger("ctrl+g").is_err());
}

#[test]
fn hotkey_parse_unknown_modifier_errors() {
    assert!(parse_trigger("key:hyper+g").is_err());
}

#[test]
fn parse_one_key_empty_is_disabled() {
    assert!(parse_one_key_trigger("").unwrap().is_none());
}

#[test]
fn parse_one_key_ctrl_alt() {
    assert!(matches!(parse_one_key_trigger("key:ctrl").unwrap(), Some(OneKeyTrigger::Ctrl)));
    assert!(matches!(parse_one_key_trigger("key:alt").unwrap(), Some(OneKeyTrigger::Alt)));
}

#[test]
fn parse_one_key_f1_to_f12() {
    for n in 1u32..=12 {
        let s = format!("key:f{n}");
        let t = parse_one_key_trigger(&s).unwrap().unwrap();
        assert!(matches!(t, OneKeyTrigger::Function(_)), "f{n}");
    }
}

#[test]
fn parse_one_key_rejects_chord() {
    assert!(parse_one_key_trigger("key:ctrl+g").is_err());
}

#[test]
fn letter_keys_cover_a_to_z() {
    for c in 'a'..='z' {
        assert!(letter_key(c).is_some(), "missing letter {c}");
    }
}

#[test]
fn digit_keys_cover_0_to_9() {
    for c in '0'..='9' {
        assert!(digit_key(c).is_some(), "missing digit {c}");
    }
}

#[test]
fn function_keys_cover_f1_to_f12() {
    for n in 1u32..=12 {
        assert!(function_key(n).is_some(), "missing f{n}");
    }
    assert!(function_key(0).is_none());
    assert!(function_key(13).is_none());
}

#[test]
fn key_names_are_case_insensitive() {
    assert_eq!(key_name_to_rdev("Space"), key_name_to_rdev("space"));
    assert_eq!(key_name_to_rdev("F7"), Some(Key::F7));
    assert_eq!(key_name_to_rdev("nonsense"), None);
}

#[test]
fn linux_error_messages() {
    let e = parse_trigger("ctrl+g").unwrap_err();
    assert!(e.message().contains("key:"), "{}", e.message());
}

#[test]
fn linux_chord_press_and_release() {
    let trig = parse_trigger("key:ctrl+g").unwrap();
    let s = HookState::new();
    let (s, ev) = handle_event(s, trig, None, Key::ControlLeft, true);
    assert_eq!(ev, None);
    let (s, ev) = handle_event(s, trig, None, Key::KeyG, true);
    assert_eq!(ev, Some(HotkeyEvent::Press));
    let (_s, ev) = handle_event(s, trig, None, Key::KeyG, false);
    assert_eq!(ev, Some(HotkeyEvent::Release));
}

#[test]
fn linux_one_key_cancelled_by_typing() {
    let trig = parse_trigger("key:ctrl+g").unwrap();
    let one = parse_one_key_trigger("key:f9").unwrap();
    let s = HookState::new();
    let (s, ev) = handle_event(s, trig, one, Key::F9, true);
    assert_eq!(ev, Some(HotkeyEvent::Press));
    let (s, ev) = handle_event(s, trig, one, Key::KeyA, true);
    assert_eq!(ev, Some(HotkeyEvent::Cancel));
    let (_s, ev) = handle_event(s, trig, one, Key::F9, false);
    assert_eq!(ev, None);
}

#[test]
fn linux_parse_several_modifiers() {
    let t = chord("key:ctrl+shift+g");
    assert_eq!(t.modifiers, MOD_CTRL | MOD_SHIFT);
    assert_eq!(t.key, Key::KeyG);
    let t = chord("key:ctrl+alt+shift+f12");
    assert_eq!(t.modifiers, MOD_CTRL | MOD_ALT | MOD_SHIFT);
    assert_eq!(t.key, Key::F12);
}

#[test]
fn linux_parse_modifier_order_and_repeats_do_not_matter() {
    assert_eq!(chord("key:shift+ctrl+g"), chord("key:ctrl+shift+g"));
    assert_eq!(chord("key:ctrl+ctrl+g").modifiers, MOD_CTRL);
}

#[test]
fn linux_parse_super_and_meta() {
    assert_eq!(chord("key:super+g").modifiers, MOD_SUPER);
    assert_eq!(chord("key:meta+g").modifiers, MOD_SUPER);
    assert_eq!(chord("key:super+meta+space").modifiers, MOD_SUPER);
    assert_eq!(chord("key:super+meta+space").key, Key::Space);
}

#[test]
fn linux_parse_mouse_buttons() {
    assert_eq!(parse_trigger("mouse:x2").unwrap(), TriggerConfig::Mouse(MouseButton::X2));
    assert_eq!(parse_trigger(" mouse:X1 ").unwrap(), TriggerConfig::Mouse(MouseButton::X1));
    assert_eq!(parse_trigger("mouse:left").unwrap(), TriggerConfig::Mouse(MouseButton::Left));
    assert_eq!(parse_trigger("mouse:right").unwrap(), TriggerConfig::Mouse(MouseButton::Right));
    assert_eq!(parse_trigger("mouse:middle").unwrap(), TriggerConfig::Mouse(MouseButton::Middle));
}

#[test]
fn linux_parse_error_texts() {
    assert_eq!(
        parse_trigger("mouse:x3").unwrap_err().message(),
        "unknown mouse button \"x3\"; use left, right, middle, x1, x2"
    );
    assert_eq!(
        parse_trigger("key:ctrl+hyper+g").unwrap_err().message(),
        "unknown modifier \"hyper\"; use ctrl, shift, alt, super (or meta)"
    );
    assert_eq!(
        parse_trigger("key:Ctrl+g").unwrap_err().message(),
        "unknown modifier \"Ctrl\"; use ctrl, shift, alt, super (or meta)"
    );
    assert_eq!(
        parse_trigger("  ctrl+g ").unwrap_err().message(),
        "trigger must start with 'key:' or 'mouse:' (got \"ctrl+g\")"
    );
    assert_eq!(parse_trigger("key:ctrl+").unwrap_err().message(), "unknown key name \"\"");
    assert_eq!(parse_trigger("key:ctrl+blah").unwrap_err().message(), "unknown key name \"blah\"");
}

#[test]
fn linux_modifier_keys_map_to_bits() {
    assert_eq!(key_mod_bit(&Key::ControlRight), MOD_CTRL);
    assert_eq!(key_mod_bit(&Key::ShiftLeft), MOD_SHIFT);
    assert_eq!(key_mod_bit(&Key::AltGr), MOD_ALT);
    assert_eq!(key_mod_bit(&Key::MetaLeft), MOD_SUPER);
    assert_eq!(key_mod_bit(&Key::KeyG), 0);
}

#[test]
fn linux_multi_modifier_chord_needs_every_modifier() {
    let trig = parse_trigger("key:ctrl+shift+g").unwrap();
    let s = HookState::new();
    let (s, ev) = handle_event(s, trig, None, Key::ControlLeft, true);
    assert_eq!(ev, None);
    let (s, ev) = handle_event(s, trig, None, Key::KeyG, true);
    assert_eq!(ev, None, "shift not held yet");
    let (s, _) = handle_event(s, trig, None, Key::KeyG, false);
    let (s, ev) = handle_event(s, trig, None, Key::ShiftRight, true);
    assert_eq!(ev, None);
    let (s, ev) = handle_event(s, trig, None, Key::KeyG, true);
    assert_eq!(ev, Some(HotkeyEvent::Press));
    assert_eq!(s.mode, HookMode::Chord);
    let (s, ev) = handle_event(s, trig, None, Key::ShiftRight, false);
    assert_eq!(ev, Some(HotkeyEvent::Release));
    assert_eq!(s.mode, HookMode::Idle);
}

#[test]
fn linux_mouse_trigger_press_and_release() {
    let trig = parse_trigger("mouse:x2").unwrap();
    let s = HookState::new();
    let (s, ev) = handle_mouse(s, trig, MouseButton::X1, true);
    assert_eq!(ev, None);
    let (s, ev) = handle_mouse(s, trig, MouseButton::X2, true);
    assert_eq!(ev, Some(HotkeyEvent::Press));
    let (s, ev) = handle_event(s, trig, None, Key::KeyG, true);
    assert_eq!(ev, None, "keys do not end a mouse take");
    let (s, ev) = handle_mouse(s, trig, MouseButton::X2, false);
    assert_eq!(ev, Some(HotkeyEvent::Release));
    assert_eq!(s.mode, HookMode::Idle);
    let key_trig = parse_trigger("key:ctrl+g").unwrap();
    let (_s, ev) = handle_mouse(s, key_trig, MouseButton::Left, true);
    assert_eq!(ev, None);
}
