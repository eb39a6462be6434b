use ghostscribe_client::linux_hotkey::Key;
use ghostscribe_client::paste::{
    classify_window, ctrl_v_inputs, enter_inputs, enter_keys, paste_combo, paste_keys,
    terminal_classes, window_id, KeyStroke, VkInput, VK_CONTROL, VK_RETURN, VK_V,
};

#[test]
fn terminals_are_recognised_by_wm_class() {
    let (t, cls) = classify_window("WM_CLASS(STRING) = \"gnome-terminal-server\", \"Gnome-terminal\"\n");
    assert!(t);
    assert_eq!(cls, "WM_CLASS(STRING) = \"gnome-terminal-server\", \"Gnome-terminal\"");
    let (t, _) = classify_window("WM_CLASS(STRING) = \"firefox\", \"Firefox\"");
    assert!(!t);
    assert_eq!(classify_window(""), (false, String::new()));
    assert_eq!(terminal_classes().len(), 30);
}

#[test]
fn window_id_is_trimmed_output() {
    assert_eq!(window_id("  12345\n"), Some("12345".to_string()));
    assert_eq!(window_id(" \n"), None);
}

#[test]
fn paste_chords() {
    assert_eq!(
        paste_keys(false),
        vec![
            KeyStroke::Press(Key::ControlLeft),
            KeyStroke::Press(Key::KeyV),
            KeyStroke::Release(Key::KeyV),
            KeyStroke::Release(Key::ControlLeft),
        ]
    );
    assert_eq!(paste_keys(true).len(), 6);
    assert_eq!(paste_keys(true)[1], KeyStroke::Press(Key::ShiftLeft));
    assert_eq!(paste_combo(true), "ctrl+shift+v");
    assert_eq!(paste_combo(false), "ctrl+v");
    assert_eq!(enter_keys(), vec![KeyStroke::Press(Key::Return), KeyStroke::Release(Key::Return)]);
}

#[test]
fn windows_inputs() {
    assert_eq!(
        ctrl_v_inputs(),
        vec![
            VkInput { vk: VK_CONTROL, key_up: false },
            VkInput { vk: VK_V, key_up: false },
            VkInput { vk: VK_V, key_up: true },
            VkInput { vk: VK_CONTROL, key_up: true },
        ]
    );
    assert_eq!(enter_inputs(), vec![VkInput { vk: VK_RETURN, key_up: false }, VkInput { vk: VK_RETURN, key_up: true }]);
}
