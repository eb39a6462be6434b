use ghostscribe_client::hotkey::{
    is_modifier_vk, key_name_to_vk, keyboard_step, matches_one_key, mouse_btn_down, mouse_btn_up,
    mouse_step, parse_modifier_bit, parse_mouse_button, parse_one_key_trigger, parse_trigger,
    vk_to_mod_bit, HotkeyError, KeyboardState, Modifier, MouseButton, OneKeyTrigger, TriggerConfig,
    TriggerKeys, MOD_ALT, MOD_CTRL, MOD_SHIFT, MOD_SUPER, VK_LCONTROL, VK_LMENU, VK_LSHIFT,
    VK_LWIN, VK_RCONTROL, VK_RMENU, VK_RSHIFT, VK_RWIN, WM_LBUTTONDOWN, WM_LBUTTONUP,
    WM_KEYDOWN, WM_KEYUP, WM_XBUTTONDOWN, WM_XBUTTONUP,
};
use ghostscribe_client::ptt::{HookMode, HotkeyEvent};

fn key(r: Result<TriggerConfig, HotkeyError>) -> TriggerKeys {
    match r.unwrap() {
        TriggerConfig::Key(tk) => tk,
        other => panic!("expected TriggerConfig::Key, got {other:?}"),
    }
}

// ── Single-modifier (backward compat) ────────────────────────────────────────

#[test]
fn parse_ctrl_g() {
    let t = key(parse_trigger("key:ctrl+g"));
    assert_eq!(t.modifiers, MOD_CTRL);
    assert_eq!(t.key, b'G' as u32);
}

#[test]
fn parse_f12_no_modifier() {
    let t = key(parse_trigger("key:f12"));
    assert_eq!(t.modifiers, 0);
    assert_eq!(t.key, 0x7B);
}

#[test]
fn parse_bare_letter() {
    let t = key(parse_trigger("key:a"));
    assert_eq!(t.modifiers, 0);
    assert_eq!(t.key, b'A' as u32);
}

#[test]
fn parse_shift_f5() {
    let t = key(parse_trigger("key:shift+f5"));
    assert_eq!(t.modifiers, MOD_SHIFT);
    assert_eq!(t.key, 0x6F + 5);
}

// ── Multi-modifier chords ────────────────────────────────────────────────────

#[test]
fn parse_ctrl_shift_g() {
    let t = key(parse_trigger("key:ctrl+shift+g"));
    assert_eq!(t.modifiers, MOD_CTRL | MOD_SHIFT);
    assert_eq!(t.key, b'G' as u32);
}

#[test]
fn parse_ctrl_alt_delete() {
    let t = key(parse_trigger("key:ctrl+alt+delete"));
    assert_eq!(t.modifiers, MOD_CTRL | MOD_ALT);
    assert_eq!(t.key, 0x2E);
}

#[test]
fn parse_ctrl_alt_del_short_name() {
    let t = key(parse_trigger("key:ctrl+alt+del"));
    assert_eq!(t.modifiers, MOD_CTRL | MOD_ALT);
    assert_eq!(t.key, 0x2E);
    assert_eq!(key_name_to_vk("DEL"), Some(0x2E));
}

#[test]
fn parse_ctrl_shift_alt_f12() {
    let t = key(parse_trigger("key:ctrl+shift+alt+f12"));
    assert_eq!(t.modifiers, MOD_CTRL | MOD_SHIFT | MOD_ALT);
    assert_eq!(t.key, 0x7B);
}

#[test]
fn parse_duplicate_modifier_is_idempotent() {
    let t = key(parse_trigger("key:ctrl+ctrl+g"));
    assert_eq!(t.modifiers, MOD_CTRL);
    assert_eq!(t.key, b'G' as u32);
}

#[test]
fn parse_modifier_order_and_case_do_not_matter() {
    let a = parse_trigger("key:alt+SHIFT+ctrl+alt+f12").unwrap();
    let b = parse_trigger("key:ctrl+shift+alt+f12").unwrap();
    assert_eq!(a, b);
    assert_eq!(key(Ok(a)).modifiers, MOD_CTRL | MOD_SHIFT | MOD_ALT);
}

// ── Super / Win key ──────────────────────────────────────────────────────────

#[test]
fn parse_super_space() {
    let t = key(parse_trigger("key:super+space"));
    assert_eq!(t.modifiers, MOD_SUPER);
    assert_eq!(t.key, 0x20);
}

#[test]
fn parse_win_alias() {
    let t = key(parse_trigger("key:win+space"));
    assert_eq!(t.modifiers, MOD_SUPER);
}

#[test]
fn parse_super_shift_g() {
    let t = key(parse_trigger("key:super+shift+g"));
    assert_eq!(t.modifiers, MOD_SUPER | MOD_SHIFT);
}

// ── Mouse triggers ───────────────────────────────────────────────────────────

#[test]
fn parse_mouse_x2() {
    assert!(matches!(parse_trigger("mouse:x2").unwrap(), TriggerConfig::Mouse(MouseButton::X2)));
}

#[test]
fn parse_mouse_x1() {
    assert!(matches!(parse_trigger("mouse:x1").unwrap(), TriggerConfig::Mouse(MouseButton::X1)));
}

#[test]
fn parse_mouse_buttons() {
    let cases = [("left", MouseButton::Left), ("right", MouseButton::Right), ("middle", MouseButton::Middle)];
    for (s, expected) in cases {
        let r = parse_trigger(&format!("mouse:{s}")).unwrap();
        assert!(
            matches!(
                (r, expected),
                (TriggerConfig::Mouse(MouseButton::Left), MouseButton::Left)
                    | (TriggerConfig::Mouse(MouseButton::Right), MouseButton::Right)
                    | (TriggerConfig::Mouse(MouseButton::Middle), MouseButton::Middle)
            ),
            "{s}"
        );
    }
}

#[test]
fn parse_mouse_case_insensitive() {
    assert!(matches!(parse_trigger("mouse:X2").unwrap(), TriggerConfig::Mouse(MouseButton::X2)));
}

#[test]
fn parse_mouse_unknown_errors() {
    assert!(parse_trigger("mouse:side").unwrap_err().message().contains("unknown mouse button"));
}

// ── Error cases ──────────────────────────────────────────────────────────────

#[test]
fn parse_missing_prefix_errors() {
    let err = parse_trigger("ctrl+g").unwrap_err();
    assert!(err.message().contains("must start with 'key:'"));
}

#[test]
fn parse_unknown_modifier_errors() {
    let err = parse_trigger("key:hyper+g").unwrap_err();
    assert!(err.message().contains("unknown modifier"));
}

#[test]
fn parse_unknown_key_errors() {
    let err = parse_trigger("key:ctrl+nonsense").unwrap_err();
    assert!(err.message().contains("unknown key name"));
}

// ── VK map ───────────────────────────────────────────────────────────────────

#[test]
fn vk_map_covers_a_through_z() {
    for (i, c) in ('a'..='z').enumerate() {
        assert_eq!(key_name_to_vk(&c.to_string()), Some(0x41 + i as u32), "{c}");
    }
}

#[test]
fn vk_map_covers_f1_through_f24() {
    for n in 1u32..=24 {
        assert_eq!(key_name_to_vk(&format!("f{n}")), Some(0x6F + n), "f{n}");
    }
    assert!(key_name_to_vk("f0").is_none());
    assert!(key_name_to_vk("f25").is_none());
}

#[test]
fn vk_map_is_case_insensitive() {
    assert_eq!(key_name_to_vk("A"), key_name_to_vk("a"));
    assert_eq!(key_name_to_vk("F12"), key_name_to_vk("f12"));
}

// ── one_key_trigger ──────────────────────────────────────────────────────────

#[test]
fn one_key_empty_is_disabled() {
    assert!(parse_one_key_trigger("").unwrap().is_none());
    assert!(parse_one_key_trigger("   ").unwrap().is_none());
}

#[test]
fn one_key_ctrl_alt() {
    assert!(matches!(parse_one_key_trigger("key:ctrl").unwrap(), Some(OneKeyTrigger::Ctrl)));
    assert!(matches!(parse_one_key_trigger("key:alt").unwrap(), Some(OneKeyTrigger::Alt)));
}

#[test]
fn one_key_function_keys() {
    for n in 1u32..=24 {
        let t = parse_one_key_trigger(&format!("key:f{n}")).unwrap().unwrap();
        match t {
            OneKeyTrigger::Function(vk) => assert_eq!(vk, 0x6F + n, "f{n}"),
            other => panic!("expected Function for f{n}, got {other:?}"),
        }
    }
}

#[test]
fn one_key_rejects_chord() {
    assert!(parse_one_key_trigger("key:ctrl+g").unwrap_err().message().contains("cannot be a chord"));
}

#[test]
fn one_key_rejects_bad_inputs() {
    for bad in ["key:a", "key:shift", "key:f0", "key:f25"] {
        assert!(parse_one_key_trigger(bad).is_err(), "{bad} should be rejected");
    }
}

// ── vk_to_mod_bit ────────────────────────────────────────────────────────────

#[test]
fn mod_bit_recognises_all_modifier_vks() {
    assert_eq!(vk_to_mod_bit(VK_LCONTROL), MOD_CTRL);
    assert_eq!(vk_to_mod_bit(VK_RCONTROL), MOD_CTRL);
    assert_eq!(vk_to_mod_bit(VK_LSHIFT), MOD_SHIFT);
    assert_eq!(vk_to_mod_bit(VK_RSHIFT), MOD_SHIFT);
    assert_eq!(vk_to_mod_bit(VK_LMENU), MOD_ALT);
    assert_eq!(vk_to_mod_bit(VK_RMENU), MOD_ALT);
    assert_eq!(vk_to_mod_bit(VK_LWIN), MOD_SUPER);
    assert_eq!(vk_to_mod_bit(VK_RWIN), MOD_SUPER);
    assert_eq!(vk_to_mod_bit(b'G' as u32), 0);
}

// ── More of the trigger parsing and the hooks ────────────────────────────────

#[test]
fn modifier_and_button_names() {
    assert_eq!(parse_modifier_bit("ctrl"), Some(MOD_CTRL));
    assert_eq!(parse_modifier_bit("win"), Some(MOD_SUPER));
    assert_eq!(parse_modifier_bit("hyper"), None);
    assert_eq!(parse_mouse_button("x1"), Some(MouseButton::X1));
    assert_eq!(parse_mouse_button("side"), None);
}

#[test]
fn error_messages_quote_the_input() {
    let e = parse_trigger("ctrl+g").unwrap_err();
    assert_eq!(e.message(), "trigger must start with 'key:' or 'mouse:' (got \"ctrl+g\")");
    let e = parse_trigger("mouse:side").unwrap_err();
    assert_eq!(e.message(), "unknown mouse button \"side\"; use left, right, middle, x1, x2");
}

#[test]
fn modifier_vks_and_one_key_matching() {
    assert!(is_modifier_vk(VK_LCONTROL, Modifier::Ctrl));
    assert!(is_modifier_vk(VK_RMENU, Modifier::Alt));
    assert!(!is_modifier_vk(VK_LMENU, Modifier::Ctrl));
    assert!(matches_one_key(VK_RCONTROL, OneKeyTrigger::Ctrl));
    assert!(matches_one_key(0x7A, OneKeyTrigger::Function(0x7A)));
    assert!(!matches_one_key(0x7A, OneKeyTrigger::Alt));
}

#[test]
fn mouse_messages() {
    assert!(mouse_btn_down(WM_LBUTTONDOWN, MouseButton::Left, 0));
    assert!(mouse_btn_up(WM_LBUTTONUP, MouseButton::Left, 0));
    assert!(mouse_btn_down(WM_XBUTTONDOWN, MouseButton::X2, 2 << 16));
    assert!(!mouse_btn_down(WM_XBUTTONDOWN, MouseButton::X1, 2 << 16));
    assert!(mouse_btn_up(WM_XBUTTONUP, MouseButton::X1, 1 << 16));
}

fn feed(
    state: &mut KeyboardState,
    trigger: TriggerConfig,
    one_key: Option<OneKeyTrigger>,
    vk: u32,
    msg: u32,
) -> Option<HotkeyEvent> {
    let (next, ev) = keyboard_step(*state, trigger, one_key, vk, msg);
    *state = next;
    ev
}

#[test]
fn chord_press_then_release_on_either_key() {
    let trig = parse_trigger("key:ctrl+g").unwrap();
    let mut s = KeyboardState::new();
    assert_eq!(feed(&mut s, trig, None, VK_LCONTROL, WM_KEYDOWN), None);
    assert_eq!(feed(&mut s, trig, None, b'G' as u32, WM_KEYDOWN), Some(HotkeyEvent::Press));
    // Auto-repeat of the main key does not press again.
    assert_eq!(feed(&mut s, trig, None, b'G' as u32, WM_KEYDOWN), None);
    assert_eq!(feed(&mut s, trig, None, VK_LCONTROL, WM_KEYUP), Some(HotkeyEvent::Release));
    assert_eq!(feed(&mut s, trig, None, b'G' as u32, WM_KEYUP), None);
}

#[test]
fn one_key_foreign_key_cancels_then_locks_out() {
    let trig = parse_trigger("key:ctrl+g").unwrap();
    let one = Some(OneKeyTrigger::Function(0x7A));
    let mut s = KeyboardState::new();
    assert_eq!(feed(&mut s, trig, one, 0x7A, WM_KEYDOWN), Some(HotkeyEvent::Press));
    assert_eq!(feed(&mut s, trig, one, b'X' as u32, WM_KEYDOWN), Some(HotkeyEvent::Cancel));
    // Released after the cancel: no Release, back to idle.
    assert_eq!(feed(&mut s, trig, one, 0x7A, WM_KEYUP), None);
    assert_eq!(feed(&mut s, trig, one, 0x7A, WM_KEYDOWN), Some(HotkeyEvent::Press));
    assert_eq!(feed(&mut s, trig, one, 0x7A, WM_KEYUP), Some(HotkeyEvent::Release));
}

#[test]
fn mouse_trigger_press_and_release() {
    let trig = parse_trigger("mouse:left").unwrap();
    let (m, ev) = mouse_step(HookMode::Idle, trig, WM_LBUTTONDOWN, 0);
    assert_eq!(ev, Some(HotkeyEvent::Press));
    let (m, ev) = mouse_step(m, trig, WM_LBUTTONUP, 0);
    assert_eq!(ev, Some(HotkeyEvent::Release));
    assert_eq!(m, HookMode::Idle);
}

#[test]
fn mixed_run_of_messages_alternates_and_mouse_take_is_not_cancelled() {
    let trig = parse_trigger("mouse:left").unwrap();
    let one = Some(OneKeyTrigger::Function(0x7A));
    let mut s = KeyboardState::new();
    let mut events = Vec::new();
    let mouse = |s: &mut KeyboardState, msg: u32, events: &mut Vec<HotkeyEvent>| {
        let (m, ev) = mouse_step(s.mode, trig, msg, 0);
        s.mode = m;
        events.extend(ev);
    };
    mouse(&mut s, WM_LBUTTONDOWN, &mut events);
    events.extend(feed(&mut s, trig, one, 0x7A, WM_KEYDOWN));
    events.extend(feed(&mut s, trig, one, b'X' as u32, WM_KEYDOWN));
    mouse(&mut s, WM_LBUTTONDOWN, &mut events);
    mouse(&mut s, WM_LBUTTONUP, &mut events);
    events.extend(feed(&mut s, trig, one, 0x7A, WM_KEYUP));
    events.extend(feed(&mut s, trig, one, 0x7A, WM_KEYDOWN));
    events.extend(feed(&mut s, trig, one, b'X' as u32, WM_KEYDOWN));
    mouse(&mut s, WM_LBUTTONUP, &mut events);
    assert_eq!(
        events,
        vec![
            HotkeyEvent::Press,
            HotkeyEvent::Release,
            HotkeyEvent::Press,
            HotkeyEvent::Cancel,
        ]
    );
    assert_eq!(s.mode, HookMode::Lockout);
}
