//! What pasting types: which windows are terminals (they paste with
//! Ctrl+Shift+V), and the key strokes for a paste and for Enter, on X11
//! (as [`Key`]s) and on Windows (as virtual-key codes).
//!
//! Querying the focused window, the clipboard and injecting the strokes
//! happen at the program's edge.
use vstd::prelude::*;

use crate::config::strs_view;
use crate::linux_hotkey::Key;
use crate::text::{chars_of, contains_seq, contains_sub, string_of, trim, trim_chars};

verus! {

broadcast use vstd::string::group_string_axioms;

/// `WM_CLASS` names of terminal emulators, which bind paste to Ctrl+Shift+V
/// (Ctrl+V is literal-next there).
pub open spec fn terminal_classes_spec() -> Seq<Seq<char>> {
    seq![
        "Xterm"@, "UXterm"@, "Rxvt"@, "URxvt"@, "Aterm"@, "Eterm"@,
        "gnome-terminal-server"@, "Gnome-terminal"@, "mate-terminal"@, "Mate-terminal"@,
        "Xfce4-terminal"@, "Xfce4Terminal"@, "lxterminal"@, "LXTerminal"@,
        "konsole"@, "Konsole"@,
        "tilix"@, "Tilix"@,
        "kitty"@, "Kitty"@, "alacritty"@, "Alacritty"@,
        "WezTerm"@, "wezterm-gui"@,
        "foot"@, "foot-server"@, "Foot"@,
        "st"@, "st-256color"@, "Terminology"@,
    ]
}

/// The terminal `WM_CLASS` names.
pub fn terminal_classes() -> (r: Vec<&'static str>)
    ensures
        strs_view(r@) == terminal_classes_spec(),
{
    let v: Vec<&'static str> = vec![
        "Xterm", "UXterm", "Rxvt", "URxvt", "Aterm", "Eterm",
        "gnome-terminal-server", "Gnome-terminal", "mate-terminal", "Mate-terminal",
        "Xfce4-terminal", "Xfce4Terminal", "lxterminal", "LXTerminal",
        "konsole", "Konsole",
        "tilix", "Tilix",
        "kitty", "Kitty", "alacritty", "Alacritty",
        "WezTerm", "wezterm-gui",
        "foot", "foot-server", "Foot",
        "st", "st-256color", "Terminology",
    ];
    assert(strs_view(v@) =~= terminal_classes_spec());
    v
}

/// The window's `WM_CLASS` line names a terminal: it contains one of the
/// terminal class names.
pub open spec fn is_terminal_spec(class_line: Seq<char>) -> bool {
    exists|i: int|
        0 <= i < terminal_classes_spec().len() && contains_seq(
            class_line,
            #[trigger] terminal_classes_spec()[i],
        )
}

/// Whether the focused window (by its `xprop WM_CLASS` output) is a
/// terminal, and the class line trimmed, for the log.
pub fn classify_window(class_line: &str) -> (r: (bool, String))
    ensures
        r.0 == is_terminal_spec(class_line@),
        r.1@ == trim(class_line@),
{
    let line = chars_of(class_line);
    let classes = terminal_classes();
    let trimmed = string_of(&trim_chars(&line));
    let mut i: usize = 0;
    while i < classes.len()
        invariant
            0 <= i <= classes@.len(),
            strs_view(classes@) == terminal_classes_spec(),
            line@ == class_line@,
            trimmed@ == trim(class_line@),
            forall|j: int| 0 <= j < i ==> !contains_seq(line@, #[trigger] terminal_classes_spec()[j]),
        decreases classes@.len() - i,
    {
        let name = chars_of(classes[i]);
        assert(terminal_classes_spec()[i as int] == classes@[i as int]@);
        if contains_sub(&line, &name) {
            return (true, trimmed);
        }
        i = i + 1;
    }
    assert(!is_terminal_spec(class_line@)) by {
        if is_terminal_spec(class_line@) {
            let j = choose|j: int|
                0 <= j < terminal_classes_spec().len() && contains_seq(
                    class_line@,
                    #[trigger] terminal_classes_spec()[j],
                );
            assert(j < i);
        }
    }
    (false, trimmed)
}

/// The focused window's id from `xdotool getactivewindow` output: the
/// trimmed text, when there is any.
pub fn window_id(output: &str) -> (r: Option<String>)
    ensures
        trim(output@).len() == 0 ==> r is None,
        trim(output@).len() > 0 ==> (r matches Some(id) && id@ == trim(output@)),
{
    let t = trim_chars(&chars_of(output));
    if t.len() == 0 {
        None
    } else {
        Some(string_of(&t))
    }
}

/// One synthetic key event.
#[derive(Debug, Clone, Copy, PartialEq, Eq, Structural)]
pub enum KeyStroke {
    Press(Key),
    Release(Key),
}

/// The paste chord: Ctrl+Shift+V in a terminal, Ctrl+V elsewhere, keys
/// pressed in order and released in reverse.
pub open spec fn paste_keys_spec(is_terminal: bool) -> Seq<KeyStroke> {
    if is_terminal {
        seq![
            KeyStroke::Press(Key::ControlLeft),
            KeyStroke::Press(Key::ShiftLeft),
            KeyStroke::Press(Key::KeyV),
            KeyStroke::Release(Key::KeyV),
            KeyStroke::Release(Key::ShiftLeft),
            KeyStroke::Release(Key::ControlLeft),
        ]
    } else {
        seq![
            KeyStroke::Press(Key::ControlLeft),
            KeyStroke::Press(Key::KeyV),
            KeyStroke::Release(Key::KeyV),
            KeyStroke::Release(Key::ControlLeft),
        ]
    }
}

/// The key strokes that paste.
pub fn paste_keys(is_terminal: bool) -> (r: Vec<KeyStroke>)
    ensures
        r@ == paste_keys_spec(is_terminal),
{
    let v = if is_terminal {
        vec![
            KeyStroke::Press(Key::ControlLeft),
            KeyStroke::Press(Key::ShiftLeft),
            KeyStroke::Press(Key::KeyV),
            KeyStroke::Release(Key::KeyV),
            KeyStroke::Release(Key::ShiftLeft),
            KeyStroke::Release(Key::ControlLeft),
        ]
    } else {
        vec![
            KeyStroke::Press(Key::ControlLeft),
            KeyStroke::Press(Key::KeyV),
            KeyStroke::Release(Key::KeyV),
            KeyStroke::Release(Key::ControlLeft),
        ]
    };
    assert(v@ =~= paste_keys_spec(is_terminal));
    v
}

/// The name of the chord used, for the log.
pub fn paste_combo(is_terminal: bool) -> (r: &'static str)
    ensures
        r@ == (if is_terminal {
            "ctrl+shift+v"@
        } else {
            "ctrl+v"@
        }),
{
    if is_terminal {
        "ctrl+shift+v"
    } else {
        "ctrl+v"
    }
}

/// The key strokes of Enter.
pub fn enter_keys() -> (r: Vec<KeyStroke>)
    ensures
        r@ == seq![KeyStroke::Press(Key::Return), KeyStroke::Release(Key::Return)],
{
    let v = vec![KeyStroke::Press(Key::Return), KeyStroke::Release(Key::Return)];
    assert(v@ =~= seq![KeyStroke::Press(Key::Return), KeyStroke::Release(Key::Return)]);
    v
}

/// Virtual-key code of Ctrl.
pub const VK_CONTROL: u16 = 0x11;

/// Virtual-key code of V.
pub const VK_V: u16 = 0x56;

/// Virtual-key code of Enter.
pub const VK_RETURN: u16 = 0x0D;

/// One synthetic Windows key event: a virtual-key code, down or up.
#[derive(Debug, Clone, Copy, PartialEq, Eq, Structural)]
pub struct VkInput {
    pub vk: u16,
    pub key_up: bool,
}

/// Ctrl down, V down, V up, Ctrl up.
pub fn ctrl_v_inputs() -> (r: Vec<VkInput>)
    ensures
        r@ == seq![
            VkInput { vk: VK_CONTROL, key_up: false },
            VkInput { vk: VK_V, key_up: false },
            VkInput { vk: VK_V, key_up: true },
            VkInput { vk: VK_CONTROL, key_up: true },
        ],
{
    let v = vec![
        VkInput { vk: VK_CONTROL, key_up: false },
        VkInput { vk: VK_V, key_up: false },
        VkInput { vk: VK_V, key_up: true },
        VkInput { vk: VK_CONTROL, key_up: true },
    ];
    assert(v@ =~= seq![
        VkInput { vk: VK_CONTROL, key_up: false },
        VkInput { vk: VK_V, key_up: false },
        VkInput { vk: VK_V, key_up: true },
        VkInput { vk: VK_CONTROL, key_up: true },
    ]);
    v
}

/// Enter down, Enter up.
pub fn enter_inputs() -> (r: Vec<VkInput>)
    ensures
        r@ == seq![VkInput { vk: VK_RETURN, key_up: false }, VkInput { vk: VK_RETURN, key_up: true }],
{
    let v = vec![VkInput { vk: VK_RETURN, key_up: false }, VkInput { vk: VK_RETURN, key_up: true }];
    assert(v@ =~= seq![
        VkInput { vk: VK_RETURN, key_up: false },
        VkInput { vk: VK_RETURN, key_up: true },
    ]);
    v
}

/// Every key a paste chord presses is released again, last pressed first
/// released.
pub proof fn lemma_paste_chord_releases_in_reverse(is_terminal: bool)
    ensures
        ({
            let s = paste_keys_spec(is_terminal);
            let n = s.len() / 2;
            &&& s.len() % 2 == 0
            &&& forall|i: int|
                0 <= i < n ==> (#[trigger] s[i] matches KeyStroke::Press(k) && s[s.len() - 1 - i]
                    == KeyStroke::Release(k))
        }),
{
    let s = paste_keys_spec(is_terminal);
    if is_terminal {
        assert(s[0] == KeyStroke::Press(Key::ControlLeft) && s[5] == KeyStroke::Release(Key::ControlLeft));
        assert(s[1] == KeyStroke::Press(Key::ShiftLeft) && s[4] == KeyStroke::Release(Key::ShiftLeft));
        assert(s[2] == KeyStroke::Press(Key::KeyV) && s[3] == KeyStroke::Release(Key::KeyV));
    } else {
        assert(s[0] == KeyStroke::Press(Key::ControlLeft) && s[3] == KeyStroke::Release(Key::ControlLeft));
        assert(s[1] == KeyStroke::Press(Key::KeyV) && s[2] == KeyStroke::Release(Key::KeyV));
    }
}

} // verus!
