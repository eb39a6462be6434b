//! Push-to-talk trigger configuration on X11 (key names of the
//! X11 input hook): parsing of `trigger` (`key:[mod+…+]<key>` or
//! `mouse:<button>`) and
//! `one_key_trigger`, key classification, and the hook's decision for each
//! key press or release.
use vstd::prelude::*;

pub use crate::hotkey::{MouseButton, MOD_ALT, MOD_CTRL, MOD_SHIFT, MOD_SUPER};
pub use crate::ptt::HotkeyEvent;

use crate::ptt::{
    alternates, lemma_takes_alternate, lemma_takes_extend, open_take, recording, step_keeps_takes,
    step_spec, takes_well_formed, with_report, HookMode, StepInput,
};
use crate::hotkey::{mouse_button_spec, parse_mouse_button};
use crate::text::{
    chars_eq_ignore_ascii_case, chars_eq_str, chars_of, contains_char, debug_quoted, debug_string,
    digits_value, each_followed_by, eq_ignore_ascii_case, free_of, is_ws, last_index, last_index_of,
    lemma_last_index_append, lemma_last_index_bounds, lemma_split_each_followed_by,
    lemma_split_on_nonempty, lemma_trim_unchanged, parse_u32, parse_u32_spec,
    short_or_boundary_at, split_on, starts_with_str, string_of, sub_chars, to_lowercase, trim,
    trim_chars, unicode_lower,
};

verus! {

broadcast use vstd::string::group_string_axioms;

/// A key as the X11 input hook reports it; keys the client never names are
/// `Other`.
#[derive(Debug, Clone, Copy, PartialEq, Eq, Structural)]
pub enum Key {
    KeyA,
    KeyB,
    KeyC,
    KeyD,
    KeyE,
    KeyF,
    KeyG,
    KeyH,
    KeyI,
    KeyJ,
    KeyK,
    KeyL,
    KeyM,
    KeyN,
    KeyO,
    KeyP,
    KeyQ,
    KeyR,
    KeyS,
    KeyT,
    KeyU,
    KeyV,
    KeyW,
    KeyX,
    KeyY,
    KeyZ,
    Num0,
    Num1,
    Num2,
    Num3,
    Num4,
    Num5,
    Num6,
    Num7,
    Num8,
    Num9,
    F1,
    F2,
    F3,
    F4,
    F5,
    F6,
    F7,
    F8,
    F9,
    F10,
    F11,
    F12,
    Space,
    Escape,
    Return,
    Tab,
    Backspace,
    Delete,
    Insert,
    Home,
    End,
    PageUp,
    PageDown,
    LeftArrow,
    UpArrow,
    RightArrow,
    DownArrow,
    CapsLock,
    NumLock,
    ScrollLock,
    Pause,
    PrintScreen,
    ControlLeft,
    ControlRight,
    ShiftLeft,
    ShiftRight,
    Alt,
    AltGr,
    MetaLeft,
    MetaRight,
    Other,
}

/// A modifier key: Ctrl, Shift, Alt or Super (the Meta key).
#[derive(Debug, Clone, Copy, PartialEq, Eq, Structural)]
pub enum Modifier {
    Ctrl,
    Shift,
    Alt,
    Super,
}

/// Parsed keyboard chord: the required modifiers as a set of `MOD_*` bits
/// (zero for a bare key) and the main key.
#[derive(Debug, Clone, Copy, PartialEq, Eq, Structural)]
pub struct TriggerKeys {
    pub modifiers: u8,
    pub key: Key,
}

/// Parsed form of the `trigger` setting: a keyboard chord or a mouse
/// button.
#[derive(Debug, Clone, Copy, PartialEq, Eq, Structural)]
pub enum TriggerConfig {
    Key(TriggerKeys),
    Mouse(MouseButton),
}

/// Single-key push-to-talk: a modifier or a function key.
#[derive(Debug, Clone, Copy, PartialEq, Eq, Structural)]
pub enum OneKeyTrigger {
    Ctrl,
    Alt,
    Function(Key),
}

/// Key of a lowercase letter.
pub open spec fn letter_key_spec(c: char) -> Option<Key> {
    if c == 'a' {
        Some(Key::KeyA)
    } else if c == 'b' {
        Some(Key::KeyB)
    } else if c == 'c' {
        Some(Key::KeyC)
    } else if c == 'd' {
        Some(Key::KeyD)
    } else if c == 'e' {
        Some(Key::KeyE)
    } else if c == 'f' {
        Some(Key::KeyF)
    } else if c == 'g' {
        Some(Key::KeyG)
    } else if c == 'h' {
        Some(Key::KeyH)
    } else if c == 'i' {
        Some(Key::KeyI)
    } else if c == 'j' {
        Some(Key::KeyJ)
    } else if c == 'k' {
        Some(Key::KeyK)
    } else if c == 'l' {
        Some(Key::KeyL)
    } else if c == 'm' {
        Some(Key::KeyM)
    } else if c == 'n' {
        Some(Key::KeyN)
    } else if c == 'o' {
        Some(Key::KeyO)
    } else if c == 'p' {
        Some(Key::KeyP)
    } else if c == 'q' {
        Some(Key::KeyQ)
    } else if c == 'r' {
        Some(Key::KeyR)
    } else if c == 's' {
        Some(Key::KeyS)
    } else if c == 't' {
        Some(Key::KeyT)
    } else if c == 'u' {
        Some(Key::KeyU)
    } else if c == 'v' {
        Some(Key::KeyV)
    } else if c == 'w' {
        Some(Key::KeyW)
    } else if c == 'x' {
        Some(Key::KeyX)
    } else if c == 'y' {
        Some(Key::KeyY)
    } else if c == 'z' {
        Some(Key::KeyZ)
    } else {
        None
    }
}

/// Key of a decimal digit.
pub open spec fn digit_key_spec(c: char) -> Option<Key> {
    if c == '0' {
        Some(Key::Num0)
    } else if c == '1' {
        Some(Key::Num1)
    } else if c == '2' {
        Some(Key::Num2)
    } else if c == '3' {
        Some(Key::Num3)
    } else if c == '4' {
        Some(Key::Num4)
    } else if c == '5' {
        Some(Key::Num5)
    } else if c == '6' {
        Some(Key::Num6)
    } else if c == '7' {
        Some(Key::Num7)
    } else if c == '8' {
        Some(Key::Num8)
    } else if c == '9' {
        Some(Key::Num9)
    } else {
        None
    }
}

/// Key of function key number `n` (F1..F12).
pub open spec fn function_key_spec(n: u32) -> Option<Key> {
    if n == 1 {
        Some(Key::F1)
    } else if n == 2 {
        Some(Key::F2)
    } else if n == 3 {
        Some(Key::F3)
    } else if n == 4 {
        Some(Key::F4)
    } else if n == 5 {
        Some(Key::F5)
    } else if n == 6 {
        Some(Key::F6)
    } else if n == 7 {
        Some(Key::F7)
    } else if n == 8 {
        Some(Key::F8)
    } else if n == 9 {
        Some(Key::F9)
    } else if n == 10 {
        Some(Key::F10)
    } else if n == 11 {
        Some(Key::F11)
    } else if n == 12 {
        Some(Key::F12)
    } else {
        None
    }
}

/// Key of a named (lowercased) key.
pub open spec fn named_key_spec(n: Seq<char>) -> Option<Key> {
    if n == "space"@ {
        Some(Key::Space)
    } else if n == "escape"@ {
        Some(Key::Escape)
    } else if n == "return"@ {
        Some(Key::Return)
    } else if n == "tab"@ {
        Some(Key::Tab)
    } else if n == "backspace"@ {
        Some(Key::Backspace)
    } else if n == "delete"@ {
        Some(Key::Delete)
    } else if n == "insert"@ {
        Some(Key::Insert)
    } else if n == "home"@ {
        Some(Key::Home)
    } else if n == "end"@ {
        Some(Key::End)
    } else if n == "pageup"@ {
        Some(Key::PageUp)
    } else if n == "pagedown"@ {
        Some(Key::PageDown)
    } else if n == "left"@ {
        Some(Key::LeftArrow)
    } else if n == "up"@ {
        Some(Key::UpArrow)
    } else if n == "right"@ {
        Some(Key::RightArrow)
    } else if n == "down"@ {
        Some(Key::DownArrow)
    } else if n == "capslock"@ {
        Some(Key::CapsLock)
    } else if n == "numlock"@ {
        Some(Key::NumLock)
    } else if n == "scrolllock"@ {
        Some(Key::ScrollLock)
    } else if n == "pause"@ {
        Some(Key::Pause)
    } else if n == "printscreen"@ {
        Some(Key::PrintScreen)
    } else {
        None
    }
}

/// The key for a lowercase letter (`None` for anything else).
pub fn letter_key(c: char) -> (r: Option<Key>)
    ensures
        r == letter_key_spec(c),
{
    match c {
        'a' => Some(Key::KeyA),
        'b' => Some(Key::KeyB),
        'c' => Some(Key::KeyC),
        'd' => Some(Key::KeyD),
        'e' => Some(Key::KeyE),
        'f' => Some(Key::KeyF),
        'g' => Some(Key::KeyG),
        'h' => Some(Key::KeyH),
        'i' => Some(Key::KeyI),
        'j' => Some(Key::KeyJ),
        'k' => Some(Key::KeyK),
        'l' => Some(Key::KeyL),
        'm' => Some(Key::KeyM),
        'n' => Some(Key::KeyN),
        'o' => Some(Key::KeyO),
        'p' => Some(Key::KeyP),
        'q' => Some(Key::KeyQ),
        'r' => Some(Key::KeyR),
        's' => Some(Key::KeyS),
        't' => Some(Key::KeyT),
        'u' => Some(Key::KeyU),
        'v' => Some(Key::KeyV),
        'w' => Some(Key::KeyW),
        'x' => Some(Key::KeyX),
        'y' => Some(Key::KeyY),
        'z' => Some(Key::KeyZ),
        _ => None,
    }
}

/// The key for a decimal digit (`None` for anything else).
pub fn digit_key(c: char) -> (r: Option<Key>)
    ensures
        r == digit_key_spec(c),
{
    match c {
        '0' => Some(Key::Num0),
        '1' => Some(Key::Num1),
        '2' => Some(Key::Num2),
        '3' => Some(Key::Num3),
        '4' => Some(Key::Num4),
        '5' => Some(Key::Num5),
        '6' => Some(Key::Num6),
        '7' => Some(Key::Num7),
        '8' => Some(Key::Num8),
        '9' => Some(Key::Num9),
        _ => None,
    }
}

/// The key for function key `n` (F1..F12; `None` otherwise).
pub fn function_key(n: u32) -> (r: Option<Key>)
    ensures
        r == function_key_spec(n),
{
    match n {
        1 => Some(Key::F1),
        2 => Some(Key::F2),
        3 => Some(Key::F3),
        4 => Some(Key::F4),
        5 => Some(Key::F5),
        6 => Some(Key::F6),
        7 => Some(Key::F7),
        8 => Some(Key::F8),
        9 => Some(Key::F9),
        10 => Some(Key::F10),
        11 => Some(Key::F11),
        12 => Some(Key::F12),
        _ => None,
    }
}

fn named_key(n: &[char]) -> (r: Option<Key>)
    ensures
        r == named_key_spec(n@),
{
    if chars_eq_str(n, "space") {
        Some(Key::Space)
    } else if chars_eq_str(n, "escape") {
        Some(Key::Escape)
    } else if chars_eq_str(n, "return") {
        Some(Key::Return)
    } else if chars_eq_str(n, "tab") {
        Some(Key::Tab)
    } else if chars_eq_str(n, "backspace") {
        Some(Key::Backspace)
    } else if chars_eq_str(n, "delete") {
        Some(Key::Delete)
    } else if chars_eq_str(n, "insert") {
        Some(Key::Insert)
    } else if chars_eq_str(n, "home") {
        Some(Key::Home)
    } else if chars_eq_str(n, "end") {
        Some(Key::End)
    } else if chars_eq_str(n, "pageup") {
        Some(Key::PageUp)
    } else if chars_eq_str(n, "pagedown") {
        Some(Key::PageDown)
    } else if chars_eq_str(n, "left") {
        Some(Key::LeftArrow)
    } else if chars_eq_str(n, "up") {
        Some(Key::UpArrow)
    } else if chars_eq_str(n, "right") {
        Some(Key::RightArrow)
    } else if chars_eq_str(n, "down") {
        Some(Key::DownArrow)
    } else if chars_eq_str(n, "capslock") {
        Some(Key::CapsLock)
    } else if chars_eq_str(n, "numlock") {
        Some(Key::NumLock)
    } else if chars_eq_str(n, "scrolllock") {
        Some(Key::ScrollLock)
    } else if chars_eq_str(n, "pause") {
        Some(Key::Pause)
    } else if chars_eq_str(n, "printscreen") {
        Some(Key::PrintScreen)
    } else {
        None
    }
}

} // verus!

verus! {

/// The key of a lowercased key name: a single letter or digit, `f<n>` (a
/// function key when `n` is 1..12, otherwise no key), or a named key.
pub open spec fn key_for_name(n: Seq<char>) -> Option<Key> {
    if n.len() == 1 && crate::hotkey::is_ascii_alpha(n[0]) {
        letter_key_spec(n[0])
    } else if n.len() == 1 && '0' <= n[0] && n[0] <= '9' {
        digit_key_spec(n[0])
    } else if n.len() > 0 && n[0] == 'f' && parse_u32_spec(n.drop_first()) is Some {
        function_key_spec(parse_u32_spec(n.drop_first())->0)
    } else {
        named_key_spec(n)
    }
}

/// The key of a key name (any case).
pub fn key_name_to_rdev(name: &str) -> (r: Option<Key>)
    ensures
        r == key_for_name(unicode_lower(name@)),
{
    let l = to_lowercase(name);
    let n = chars_of(l.as_str());
    if n.len() == 1 && (('a' <= n[0] && n[0] <= 'z') || ('A' <= n[0] && n[0] <= 'Z')) {
        return letter_key(n[0]);
    }
    if n.len() == 1 && '0' <= n[0] && n[0] <= '9' {
        return digit_key(n[0]);
    }
    if n.len() > 0 && n[0] == 'f' {
        let rest = sub_chars(&n, 1, n.len());
        assert(rest@ =~= n@.drop_first());
        if let Some(num) = parse_u32(&rest) {
            return function_key(num);
        }
    }
    named_key(&n)
}

/// Why a trigger setting was rejected; each variant keeps the offending text.
#[derive(Debug, Clone)]
pub enum TriggerError {
    /// `trigger` starts with neither `key:` nor `mouse:` (trimmed input).
    MissingPrefix(String),
    /// The button name after `mouse:` is not known.
    UnknownMouseButton(String),
    /// A segment before the last `+` is not ctrl, shift, alt, super or meta.
    UnknownModifier(String),
    /// The key name is not known.
    UnknownKeyName(String),
    /// `one_key_trigger` does not start with `key:` (trimmed input).
    OneKeyMissingPrefix(String),
    /// `one_key_trigger` names a chord (trimmed input).
    OneKeyChord(String),
    /// `one_key_trigger` names a key other than ctrl, alt, f1..f12.
    OneKeyUnsupported(String),
}

/// [`TriggerError`] with its text as characters.
pub enum TriggerErrorView {
    MissingPrefix(Seq<char>),
    UnknownMouseButton(Seq<char>),
    UnknownModifier(Seq<char>),
    UnknownKeyName(Seq<char>),
    OneKeyMissingPrefix(Seq<char>),
    OneKeyChord(Seq<char>),
    OneKeyUnsupported(Seq<char>),
}

impl View for TriggerError {
    type V = TriggerErrorView;

    open spec fn view(&self) -> TriggerErrorView {
        match self {
            TriggerError::MissingPrefix(s) => TriggerErrorView::MissingPrefix(s@),
            TriggerError::UnknownMouseButton(s) => TriggerErrorView::UnknownMouseButton(s@),
            TriggerError::UnknownModifier(s) => TriggerErrorView::UnknownModifier(s@),
            TriggerError::UnknownKeyName(s) => TriggerErrorView::UnknownKeyName(s@),
            TriggerError::OneKeyMissingPrefix(s) => TriggerErrorView::OneKeyMissingPrefix(s@),
            TriggerError::OneKeyChord(s) => TriggerErrorView::OneKeyChord(s@),
            TriggerError::OneKeyUnsupported(s) => TriggerErrorView::OneKeyUnsupported(s@),
        }
    }
}

/// The text of an error, as the client reports it.
pub open spec fn trigger_error_message(e: TriggerErrorView) -> Seq<char> {
    match e {
        TriggerErrorView::MissingPrefix(s) => "trigger must start with 'key:' or 'mouse:' (got "@
            + debug_quoted(s) + ")"@,
        TriggerErrorView::UnknownMouseButton(s) => "unknown mouse button "@ + debug_quoted(s)
            + "; use left, right, middle, x1, x2"@,
        TriggerErrorView::UnknownModifier(s) => "unknown modifier "@ + debug_quoted(s)
            + "; use ctrl, shift, alt, super (or meta)"@,
        TriggerErrorView::UnknownKeyName(s) => "unknown key name "@ + debug_quoted(s),
        TriggerErrorView::OneKeyMissingPrefix(s) => "one_key_trigger must start with 'key:' (got "@
            + debug_quoted(s) + ")"@,
        TriggerErrorView::OneKeyChord(s) => "one_key_trigger cannot be a chord (got "@
            + debug_quoted(s) + "); use trigger= for chords"@,
        TriggerErrorView::OneKeyUnsupported(s) =>
            "one_key_trigger must be one of: key:ctrl, key:alt, key:f1..key:f12 (got "@
            + debug_quoted(s) + ")"@,
    }
}

fn quoted_message(head: &str, s: &String, tail: &str) -> (r: String)
    ensures
        r@ == head@ + debug_quoted(s@) + tail@,
{
    let mut out = head.to_string();
    crate::text::append_str(&mut out, debug_string(s.as_str()).as_str());
    crate::text::append_str(&mut out, tail);
    out
}

impl TriggerError {
    /// The error's text (what `Display` would show).
    pub fn message(&self) -> (r: String)
        ensures
            r@ == trigger_error_message(self@),
    {
        match self {
            TriggerError::MissingPrefix(s) => quoted_message(
                "trigger must start with 'key:' or 'mouse:' (got ",
                s,
                ")",
            ),
            TriggerError::UnknownMouseButton(s) => quoted_message(
                "unknown mouse button ",
                s,
                "; use left, right, middle, x1, x2",
            ),
            TriggerError::UnknownModifier(s) => quoted_message(
                "unknown modifier ",
                s,
                "; use ctrl, shift, alt, super (or meta)",
            ),
            TriggerError::UnknownKeyName(s) => {
                let mut out = "unknown key name ".to_string();
                crate::text::append_str(&mut out, debug_string(s.as_str()).as_str());
                out
            },
            TriggerError::OneKeyMissingPrefix(s) => quoted_message(
                "one_key_trigger must start with 'key:' (got ",
                s,
                ")",
            ),
            TriggerError::OneKeyChord(s) => quoted_message(
                "one_key_trigger cannot be a chord (got ",
                s,
                "); use trigger= for chords",
            ),
            TriggerError::OneKeyUnsupported(s) => quoted_message(
                "one_key_trigger must be one of: key:ctrl, key:alt, key:f1..key:f12 (got ",
                s,
                ")",
            ),
        }
    }
}

/// View of a parse result.
pub open spec fn result_view<T>(r: Result<T, TriggerError>) -> Result<T, TriggerErrorView> {
    match r {
        Ok(v) => Ok(v),
        Err(e) => Err(e@),
    }
}

/// Modifier bit of a modifier name (exact spelling; `meta` names the Super
/// key too).
pub open spec fn modifier_bit_spec(n: Seq<char>) -> Option<u8> {
    if n == "ctrl"@ {
        Some(MOD_CTRL)
    } else if n == "shift"@ {
        Some(MOD_SHIFT)
    } else if n == "alt"@ {
        Some(MOD_ALT)
    } else if n == "super"@ || n == "meta"@ {
        Some(MOD_SUPER)
    } else {
        None
    }
}

/// Modifier bits of the modifier segments, in order; the first segment that
/// is not a modifier name is the error.
pub open spec fn fold_mods(parts: Seq<Seq<char>>) -> Result<u8, Seq<char>>
    decreases parts.len(),
{
    if parts.len() == 0 {
        Ok(0)
    } else {
        match fold_mods(parts.drop_last()) {
            Err(e) => Err(e),
            Ok(m) => match modifier_bit_spec(parts.last()) {
                Some(b) => Ok(m | b),
                None => Err(parts.last()),
            },
        }
    }
}

/// The `trigger` setting: after trimming, `mouse:<button>` (button name in
/// any case) or `key:[mod+…+]<key>`; everything before the last `+` is a
/// modifier.
pub open spec fn parse_trigger_spec(s: Seq<char>) -> Result<TriggerConfig, TriggerErrorView> {
    let t = trim(s);
    if t.len() >= 6 && t.take(6) == "mouse:"@ {
        let rest = t.skip(6);
        match mouse_button_spec(unicode_lower(rest)) {
            Some(b) => Ok(TriggerConfig::Mouse(b)),
            None => Err(TriggerErrorView::UnknownMouseButton(rest)),
        }
    } else if !(t.len() >= 4 && t.take(4) == "key:"@) {
        Err(TriggerErrorView::MissingPrefix(t))
    } else {
        let rest = t.skip(4);
        let lp = last_index(rest, '+');
        let key_name = rest.skip(lp + 1);
        let mods = if lp < 0 {
            Seq::empty()
        } else {
            split_on(rest.take(lp), '+')
        };
        match fold_mods(mods) {
            Err(m) => Err(TriggerErrorView::UnknownModifier(m)),
            Ok(bits) => match key_for_name(unicode_lower(key_name)) {
                Some(k) => Ok(TriggerConfig::Key(TriggerKeys { modifiers: bits, key: k })),
                None => Err(TriggerErrorView::UnknownKeyName(key_name)),
            },
        }
    }
}

/// Modifier bit of a modifier name (exact spelling).
fn modifier_bit(n: &[char]) -> (r: Option<u8>)
    ensures
        r == modifier_bit_spec(n@),
{
    if chars_eq_str(n, "ctrl") {
        Some(MOD_CTRL)
    } else if chars_eq_str(n, "shift") {
        Some(MOD_SHIFT)
    } else if chars_eq_str(n, "alt") {
        Some(MOD_ALT)
    } else if chars_eq_str(n, "super") || chars_eq_str(n, "meta") {
        Some(MOD_SUPER)
    } else {
        None
    }
}

/// The modifier bit of a name that is a modifier name.
pub open spec fn name_bit(n: Seq<char>) -> u8 {
    modifier_bit_spec(n)->0
}

/// Every name of the list is a modifier name.
pub open spec fn all_modifier_names(parts: Seq<Seq<char>>) -> bool {
    forall|i: int| 0 <= i < parts.len() ==> (#[trigger] modifier_bit_spec(parts[i])) is Some
}

/// A list of modifier names folds to a bit set that holds each name's bit
/// and lies within any bit set `bound` that holds them all.
pub proof fn lemma_fold_mods_bounds(parts: Seq<Seq<char>>, bound: u8)
    requires
        all_modifier_names(parts),
    ensures
        fold_mods(parts) is Ok,
        forall|i: int|
            0 <= i < parts.len() ==> #[trigger] name_bit(parts[i]) & fold_mods(parts)->Ok_0
                == name_bit(parts[i]),
        (forall|i: int| 0 <= i < parts.len() ==> #[trigger] name_bit(parts[i]) & bound == name_bit(parts[i]))
            ==> fold_mods(parts)->Ok_0 & bound == fold_mods(parts)->Ok_0,
    decreases parts.len(),
{
    if parts.len() > 0 {
        let init = parts.drop_last();
        assert forall|i: int| 0 <= i < init.len() implies (#[trigger] modifier_bit_spec(init[i])) is Some by {
            assert(init[i] == parts[i]);
        }
        lemma_fold_mods_bounds(init, bound);
        assert(modifier_bit_spec(parts[parts.len() - 1]) is Some);
        let m = fold_mods(init)->Ok_0;
        let b = name_bit(parts.last());
        assert(fold_mods(parts)->Ok_0 == m | b);
        assert forall|i: int|
            0 <= i < parts.len() implies #[trigger] name_bit(parts[i]) & fold_mods(parts)->Ok_0
            == name_bit(parts[i]) by {
            let x = name_bit(parts[i]);
            if i < parts.len() - 1 {
                assert(init[i] == parts[i]);
                assert(x & m == x);
                assert(x & (m | b) == x) by (bit_vector)
                    requires
                        x & m == x,
                ;
            } else {
                assert(b & (m | b) == b) by (bit_vector);
            }
        }
        if forall|i: int| 0 <= i < parts.len() ==> #[trigger] name_bit(parts[i]) & bound == name_bit(parts[i]) {
            assert forall|i: int| 0 <= i < init.len() implies #[trigger] name_bit(init[i]) & bound
                == name_bit(init[i]) by {
                assert(init[i] == parts[i]);
            }
            assert(name_bit(parts[parts.len() - 1]) & bound == b);
            assert((m | b) & bound == (m | b)) by (bit_vector)
                requires
                    m & bound == m,
                    b & bound == b,
            ;
        }
    } else {
        assert(0u8 & bound == 0u8) by (bit_vector);
    }
}

/// Reordering or repeating the modifiers of a chord changes nothing: two
/// lists of modifier names that hold the same names fold to the same bits.
pub proof fn lemma_linux_modifier_order_irrelevant(a: Seq<Seq<char>>, b: Seq<Seq<char>>)
    requires
        all_modifier_names(a),
        all_modifier_names(b),
        forall|i: int| 0 <= i < a.len() ==> exists|j: int| 0 <= j < b.len() && #[trigger] a[i] == #[trigger] b[j],
        forall|j: int| 0 <= j < b.len() ==> exists|i: int| 0 <= i < a.len() && #[trigger] a[i] == #[trigger] b[j],
    ensures
        fold_mods(a) is Ok,
        fold_mods(a) == fold_mods(b),
{
    lemma_fold_mods_bounds(b, 0);
    let rb = fold_mods(b)->Ok_0;
    lemma_fold_mods_bounds(a, rb);
    let ra = fold_mods(a)->Ok_0;
    lemma_fold_mods_bounds(b, ra);
    assert forall|i: int| 0 <= i < a.len() implies #[trigger] name_bit(a[i]) & rb == name_bit(a[i]) by {
        let j = choose|j: int| 0 <= j < b.len() && a[i] == b[j];
        assert(name_bit(b[j]) & rb == name_bit(b[j]));
    }
    assert forall|j: int| 0 <= j < b.len() implies #[trigger] name_bit(b[j]) & ra == name_bit(b[j]) by {
        let i = choose|i: int| 0 <= i < a.len() && a[i] == b[j];
        assert(name_bit(a[i]) & ra == name_bit(a[i]));
    }
    assert(ra & rb == ra);
    assert(rb & ra == rb);
    assert(ra == rb) by (bit_vector)
        requires
            ra & rb == ra,
            rb & ra == rb,
    ;
}

/// A chord written as modifier names each followed by `+`, then a key name
/// (none of them holding `+`, the key name not ending in whitespace), parses
/// to the modifiers' bits (or the first unknown modifier) and the key (or
/// the unknown key name).
pub proof fn lemma_linux_parse_chord_text(mods: Seq<Seq<char>>, key: Seq<char>)
    requires
        forall|i: int| 0 <= i < mods.len() ==> free_of(#[trigger] mods[i], '+'),
        free_of(key, '+'),
        key.len() > 0,
        !is_ws(key[key.len() - 1]),
    ensures
        parse_trigger_spec("key:"@ + each_followed_by(mods, '+') + key) == (match fold_mods(mods) {
            Err(m) => Err(TriggerErrorView::UnknownModifier(m)),
            Ok(bits) => match key_for_name(unicode_lower(key)) {
                Some(k) => Ok(TriggerConfig::Key(TriggerKeys { modifiers: bits, key: k })),
                None => Err(TriggerErrorView::UnknownKeyName(key)),
            },
        }),
{
    reveal_strlit("key:");
    reveal_strlit("mouse:");
    let pre = each_followed_by(mods, '+');
    let body = pre + key;
    let s = "key:"@ + pre + key;
    assert(s =~= "key:"@ + body);
    assert(s[0] == 'k');
    assert(s[s.len() - 1] == key[key.len() - 1]);
    lemma_trim_unchanged(s);
    assert(s.take(4) =~= "key:"@);
    assert(s.skip(4) =~= body);
    if s.len() >= 6 {
        assert(s.take(6)[0] == 'k');
        assert(s.take(6) != "mouse:"@);
    }
    lemma_last_index_append(pre, key, '+');
    if mods.len() == 0 {
        assert(pre =~= Seq::<char>::empty());
        assert(body =~= key);
        assert(last_index(pre, '+') == -1);
        assert(body.skip(0) =~= key);
    } else {
        lemma_split_each_followed_by(mods, '+');
        let lp = pre.len() - 1;
        assert(body.skip(lp + 1) =~= key);
        assert(body.take(lp) =~= pre.drop_last());
    }
}

/// Reordering or repeating the modifiers of a chord changes nothing: two
/// chord texts whose modifier names hold the same names, with
/// the same key name, parse to the same trigger; it is a keyboard chord
/// exactly when the key name is known.
pub proof fn lemma_linux_chord_modifier_order_irrelevant(
    a: Seq<Seq<char>>,
    b: Seq<Seq<char>>,
    key: Seq<char>,
)
    requires
        all_modifier_names(a),
        all_modifier_names(b),
        forall|i: int| 0 <= i < a.len() ==> exists|j: int| 0 <= j < b.len() && #[trigger] a[i] == #[trigger] b[j],
        forall|j: int| 0 <= j < b.len() ==> exists|i: int| 0 <= i < a.len() && #[trigger] a[i] == #[trigger] b[j],
        forall|i: int| 0 <= i < a.len() ==> free_of(#[trigger] a[i], '+'),
        forall|j: int| 0 <= j < b.len() ==> free_of(#[trigger] b[j], '+'),
        free_of(key, '+'),
        key.len() > 0,
        !is_ws(key[key.len() - 1]),
    ensures
        parse_trigger_spec("key:"@ + each_followed_by(a, '+') + key) == parse_trigger_spec(
            "key:"@ + each_followed_by(b, '+') + key,
        ),
        parse_trigger_spec("key:"@ + each_followed_by(a, '+') + key) is Ok <==> key_for_name(
            unicode_lower(key),
        ) is Some,
{
    lemma_linux_parse_chord_text(a, key);
    lemma_linux_parse_chord_text(b, key);
    lemma_linux_modifier_order_irrelevant(a, b);
}

/// Modifier bits of the `+`-separated segments of `m`.
fn parse_modifier_segments(m: &Vec<char>) -> (r: Result<u8, Vec<char>>)
    ensures
        match r {
            Ok(bits) => fold_mods(split_on(m@, '+')) == Ok::<u8, Seq<char>>(bits),
            Err(e) => fold_mods(split_on(m@, '+')) == Err::<u8, Seq<char>>(e@),
        },
{
    let mut bits: u8 = 0;
    let mut first_bad: Option<Vec<char>> = None;
    let mut seg: Vec<char> = Vec::new();
    let mut i: usize = 0;
    assert(m@.take(0) =~= Seq::<char>::empty());
    assert(split_on(Seq::<char>::empty(), '+').drop_last() =~= Seq::<Seq<char>>::empty());
    while i < m.len()
        invariant
            0 <= i <= m@.len(),
            split_on(m@.take(i as int), '+').len() >= 1,
            fold_mods(split_on(m@.take(i as int), '+').drop_last()) == (match first_bad {
                Some(e) => Err::<u8, Seq<char>>(e@),
                None => Ok::<u8, Seq<char>>(bits),
            }),
            seg@ == split_on(m@.take(i as int), '+').last(),
        decreases m@.len() - i,
    {
        let ghost p = split_on(m@.take(i as int), '+');
        assert(m@.take(i + 1).drop_last() =~= m@.take(i as int));
        assert(m@.take(i + 1).last() == m@[i as int]);
        proof {
            lemma_split_on_nonempty(m@.take(i + 1), '+');
        }
        if m[i] == '+' {
            assert(p.drop_last().push(p.last()) =~= p);
            if first_bad.is_none() {
                match modifier_bit(&seg) {
                    Some(b) => {
                        bits = bits | b;
                    },
                    None => {
                        first_bad = Some(seg);
                    },
                }
            }
            assert(split_on(m@.take(i + 1), '+').drop_last() =~= p);
            seg = Vec::new();
        } else {
            assert(split_on(m@.take(i + 1), '+').drop_last() =~= p.drop_last());
            seg.push(m[i]);
        }
        i = i + 1;
    }
    assert(m@.take(m@.len() as int) =~= m@);
    let ghost p = split_on(m@, '+');
    assert(p.drop_last().push(p.last()) =~= p);
    match first_bad {
        Some(e) => Err(e),
        None => match modifier_bit(&seg) {
            Some(b) => Ok(bits | b),
            None => Err(seg),
        },
    }
}

/// Parse the `trigger` setting.
pub fn parse_trigger(s: &str) -> (r: Result<TriggerConfig, TriggerError>)
    ensures
        result_view(r) == parse_trigger_spec(s@),
{
    proof {
        reveal_strlit("mouse:");
        reveal_strlit("key:");
    }
    let v = trim_chars(&chars_of(s));
    if starts_with_str(&v, "mouse:") {
        let rest = sub_chars(&v, 6, v.len());
        assert(rest@ =~= v@.skip(6));
        let name = string_of(&rest);
        return match parse_mouse_button(name.as_str()) {
            Some(b) => Ok(TriggerConfig::Mouse(b)),
            None => Err(TriggerError::UnknownMouseButton(name)),
        };
    }
    if !starts_with_str(&v, "key:") {
        return Err(TriggerError::MissingPrefix(string_of(&v)));
    }
    let rest = sub_chars(&v, 4, v.len());
    assert(rest@ =~= v@.skip(4));
    proof {
        lemma_last_index_bounds(rest@, '+');
    }
    let lp = last_index_of(&rest, '+');
    let key_start: usize = match lp {
        Some(i) => i + 1,
        None => 0,
    };
    let key_name = sub_chars(&rest, key_start, rest.len());
    assert(key_name@ =~= rest@.skip(last_index(rest@, '+') + 1));
    let bits: u8 = match lp {
        None => {
            assert(fold_mods(Seq::<Seq<char>>::empty()) == Ok::<u8, Seq<char>>(0));
            0
        },
        Some(i) => {
            let m = sub_chars(&rest, 0, i);
            assert(m@ =~= rest@.take(i as int));
            match parse_modifier_segments(&m) {
                Ok(b) => b,
                Err(e) => {
                    return Err(TriggerError::UnknownModifier(string_of(&e)));
                },
            }
        },
    };
    let kname = string_of(&key_name);
    match key_name_to_rdev(kname.as_str()) {
        Some(key) => Ok(TriggerConfig::Key(TriggerKeys { modifiers: bits, key })),
        None => Err(TriggerError::UnknownKeyName(kname)),
    }
}

/// The `one_key_trigger` setting: empty (after trimming) disables it;
/// otherwise `key:` (any case) and one of ctrl, alt, f1..f12 (any case), not
/// a chord.
pub open spec fn parse_one_key_spec(s: Seq<char>) -> Result<Option<OneKeyTrigger>, TriggerErrorView> {
    let t = trim(s);
    if t.len() == 0 {
        Ok(None)
    } else if !(t.len() >= 4 && eq_ignore_ascii_case(t.take(4), "key:"@)) {
        Err(TriggerErrorView::OneKeyMissingPrefix(t))
    } else {
        let rest = t.skip(4);
        if rest.contains('+') {
            Err(TriggerErrorView::OneKeyChord(t))
        } else {
            let lower = unicode_lower(rest);
            if lower == "ctrl"@ {
                Ok(Some(OneKeyTrigger::Ctrl))
            } else if lower == "alt"@ {
                Ok(Some(OneKeyTrigger::Alt))
            } else if lower.len() > 0 && lower[0] == 'f' && parse_u32_spec(lower.drop_first()) is Some
                && function_key_spec(parse_u32_spec(lower.drop_first())->0) is Some {
                Ok(
                    Some(
                        OneKeyTrigger::Function(
                            function_key_spec(parse_u32_spec(lower.drop_first())->0)->0,
                        ),
                    ),
                )
            } else {
                Err(TriggerErrorView::OneKeyUnsupported(t))
            }
        }
    }
}

/// Parse the `one_key_trigger` setting. The `key:` prefix is compared on the
/// first four bytes of the trimmed text, so text whose fourth byte ends
/// inside a multi-byte character is outside the domain (slicing there
/// panics).
pub fn parse_one_key_trigger(s: &str) -> (r: Result<Option<OneKeyTrigger>, TriggerError>)
    requires
        short_or_boundary_at(trim(s@), 4),
    ensures
        result_view(r) == parse_one_key_spec(s@),
{
    proof {
        reveal_strlit("key:");
    }
    let v = trim_chars(&chars_of(s));
    if v.len() == 0 {
        return Ok(None);
    }
    let prefix = chars_of("key:");
    let has_prefix = v.len() >= 4 && chars_eq_ignore_ascii_case(&sub_chars(&v, 0, 4), &prefix);
    if !has_prefix {
        return Err(TriggerError::OneKeyMissingPrefix(string_of(&v)));
    }
    let rest = sub_chars(&v, 4, v.len());
    assert(rest@ =~= v@.skip(4));
    if contains_char(&rest, '+') {
        return Err(TriggerError::OneKeyChord(string_of(&v)));
    }
    let l = to_lowercase(string_of(&rest).as_str());
    let lower = chars_of(l.as_str());
    if chars_eq_str(&lower, "ctrl") {
        return Ok(Some(OneKeyTrigger::Ctrl));
    }
    if chars_eq_str(&lower, "alt") {
        return Ok(Some(OneKeyTrigger::Alt));
    }
    if lower.len() > 0 && lower[0] == 'f' {
        let n = sub_chars(&lower, 1, lower.len());
        assert(n@ =~= lower@.drop_first());
        if let Some(num) = parse_u32(&n) {
            if let Some(key) = function_key(num) {
                return Ok(Some(OneKeyTrigger::Function(key)));
            }
        }
    }
    Err(TriggerError::OneKeyUnsupported(string_of(&v)))
}

// ── Key matching and the hook's decision ─────────────────────────────────────

/// Whether `key` is one of the keys of modifier `m` (left or right Ctrl,
/// left or right Shift, Alt or AltGr, left or right Meta).
pub open spec fn key_is_modifier_spec(key: Key, m: Modifier) -> bool {
    match m {
        Modifier::Ctrl => key == Key::ControlLeft || key == Key::ControlRight,
        Modifier::Shift => key == Key::ShiftLeft || key == Key::ShiftRight,
        Modifier::Alt => key == Key::Alt || key == Key::AltGr,
        Modifier::Super => key == Key::MetaLeft || key == Key::MetaRight,
    }
}

/// Whether `key` is one of the keys of modifier `m`.
pub fn key_is_modifier(key: &Key, m: Modifier) -> (r: bool)
    ensures
        r == key_is_modifier_spec(*key, m),
{
    match m {
        Modifier::Ctrl => *key == Key::ControlLeft || *key == Key::ControlRight,
        Modifier::Shift => *key == Key::ShiftLeft || *key == Key::ShiftRight,
        Modifier::Alt => *key == Key::Alt || *key == Key::AltGr,
        Modifier::Super => *key == Key::MetaLeft || *key == Key::MetaRight,
    }
}

/// The `MOD_*` bit a key stands for, or 0 for a key that is no modifier.
pub open spec fn key_mod_bit_spec(key: Key) -> u8 {
    if key_is_modifier_spec(key, Modifier::Ctrl) {
        MOD_CTRL
    } else if key_is_modifier_spec(key, Modifier::Shift) {
        MOD_SHIFT
    } else if key_is_modifier_spec(key, Modifier::Alt) {
        MOD_ALT
    } else if key_is_modifier_spec(key, Modifier::Super) {
        MOD_SUPER
    } else {
        0
    }
}

/// The `MOD_*` bit a key stands for, or 0.
pub fn key_mod_bit(key: &Key) -> (r: u8)
    ensures
        r == key_mod_bit_spec(*key),
{
    if key_is_modifier(key, Modifier::Ctrl) {
        MOD_CTRL
    } else if key_is_modifier(key, Modifier::Shift) {
        MOD_SHIFT
    } else if key_is_modifier(key, Modifier::Alt) {
        MOD_ALT
    } else if key_is_modifier(key, Modifier::Super) {
        MOD_SUPER
    } else {
        0
    }
}

/// Whether `key` is the one-key trigger's key.
pub open spec fn key_matches_one_key_spec(key: Key, trig: OneKeyTrigger) -> bool {
    match trig {
        OneKeyTrigger::Ctrl => key_is_modifier_spec(key, Modifier::Ctrl),
        OneKeyTrigger::Alt => key_is_modifier_spec(key, Modifier::Alt),
        OneKeyTrigger::Function(f) => key == f,
    }
}

/// Whether `key` is the one-key trigger's key.
pub fn key_matches_one_key(key: &Key, trig: OneKeyTrigger) -> (r: bool)
    ensures
        r == key_matches_one_key_spec(*key, trig),
{
    match trig {
        OneKeyTrigger::Ctrl => key_is_modifier(key, Modifier::Ctrl),
        OneKeyTrigger::Alt => key_is_modifier(key, Modifier::Alt),
        OneKeyTrigger::Function(f) => *key == f,
    }
}

impl TriggerConfig {
    /// Modifier bits the chord requires (none for a mouse trigger).
    pub open spec fn required_mods_spec(self) -> u8 {
        match self {
            TriggerConfig::Key(tk) => tk.modifiers,
            TriggerConfig::Mouse(_) => 0,
        }
    }

    /// Whether `key` is the chord's main key (never, for a mouse trigger).
    pub open spec fn is_main_key_spec(self, key: Key) -> bool {
        match self {
            TriggerConfig::Key(tk) => key == tk.key,
            TriggerConfig::Mouse(_) => false,
        }
    }
}

/// State of the key hook: its mode, the modifier bits currently held, and
/// whether the chord's main key is held.
#[derive(Debug, Clone, Copy, PartialEq, Eq, Structural)]
pub struct HookState {
    pub mode: HookMode,
    pub mods_down: u8,
    pub key_down: bool,
}

impl HookState {
    /// Idle, nothing held.
    pub fn new() -> (r: HookState)
        ensures
            r == (HookState { mode: HookMode::Idle, mods_down: 0, key_down: false }),
    {
        HookState { mode: HookMode::Idle, mods_down: 0, key_down: false }
    }
}

/// The hook's decision for a press (`is_down`) or release of `key`: update
/// the held modifiers and main key, then decide as [`step_spec`] does, with
/// the chord complete when every required modifier bit and the main key are
/// held (never, for a mouse trigger) and the chord's parts being its main key
/// and any required modifier.
pub open spec fn handle_event_spec(
    state: HookState,
    trigger: TriggerConfig,
    one_key: Option<OneKeyTrigger>,
    key: Key,
    is_down: bool,
) -> (HookState, Option<HotkeyEvent>) {
    let this_mod = key_mod_bit_spec(key);
    let is_chord_main = trigger.is_main_key_spec(key);
    let is_one_key = match one_key {
        Some(t) => key_matches_one_key_spec(key, t),
        None => false,
    };
    let mods = if this_mod == 0 {
        state.mods_down
    } else if is_down {
        state.mods_down | this_mod
    } else {
        state.mods_down & !this_mod
    };
    let key_down = if is_chord_main {
        is_down
    } else {
        state.key_down
    };
    let req = trigger.required_mods_spec();
    let chord_ok = match trigger {
        TriggerConfig::Key(_) => (mods & req) == req && key_down,
        TriggerConfig::Mouse(_) => false,
    };
    let inp = StepInput {
        is_down,
        is_up: !is_down,
        chord_ok,
        chord_part: is_chord_main || (this_mod & req) != 0,
        is_one_key,
    };
    let (mode, ev) = step_spec(state.mode, inp);
    (HookState { mode, mods_down: mods, key_down }, ev)
}

/// The hook's decision for one key press or release (see
/// [`handle_event_spec`]).
pub fn handle_event(
    state: HookState,
    trigger: TriggerConfig,
    one_key: Option<OneKeyTrigger>,
    key: Key,
    is_down: bool,
) -> (r: (HookState, Option<HotkeyEvent>))
    ensures
        r == handle_event_spec(state, trigger, one_key, key, is_down),
{
    let this_mod = key_mod_bit(&key);
    let is_chord_main = match trigger {
        TriggerConfig::Key(tk) => key == tk.key,
        TriggerConfig::Mouse(_) => false,
    };
    let is_one_key = match one_key {
        Some(t) => key_matches_one_key(&key, t),
        None => false,
    };
    let mut mods = state.mods_down;
    if this_mod != 0 {
        if is_down {
            mods = mods | this_mod;
        } else {
            mods = mods & !this_mod;
        }
    }
    let mut key_down = state.key_down;
    if is_chord_main {
        key_down = is_down;
    }
    let req: u8 = match trigger {
        TriggerConfig::Key(tk) => tk.modifiers,
        TriggerConfig::Mouse(_) => 0,
    };
    let chord_ok = match trigger {
        TriggerConfig::Key(_) => (mods & req) == req && key_down,
        TriggerConfig::Mouse(_) => false,
    };
    let inp = StepInput {
        is_down,
        is_up: !is_down,
        chord_ok,
        chord_part: is_chord_main || (this_mod & req) != 0,
        is_one_key,
    };
    let (mode, ev) = crate::ptt::step(state.mode, inp);
    (HookState { mode, mods_down: mods, key_down }, ev)
}

/// The hook's decision for a press (`is_down`) or release of a mouse button:
/// with a mouse trigger, pressing its button while idle starts a recording
/// and releasing it during that take ends it; nothing else changes.
pub open spec fn handle_mouse_spec(
    state: HookState,
    trigger: TriggerConfig,
    button: MouseButton,
    is_down: bool,
) -> (HookState, Option<HotkeyEvent>) {
    match trigger {
        TriggerConfig::Mouse(b) => if button == b && is_down && state.mode == HookMode::Idle {
            (HookState { mode: HookMode::Chord, ..state }, Some(HotkeyEvent::Press))
        } else if button == b && !is_down && state.mode == HookMode::Chord {
            (HookState { mode: HookMode::Idle, ..state }, Some(HotkeyEvent::Release))
        } else {
            (state, None)
        },
        TriggerConfig::Key(_) => (state, None),
    }
}

/// The hook's decision for one mouse-button press or release (see
/// [`handle_mouse_spec`]).
pub fn handle_mouse(state: HookState, trigger: TriggerConfig, button: MouseButton, is_down: bool) -> (r: (
    HookState,
    Option<HotkeyEvent>,
))
    ensures
        r == handle_mouse_spec(state, trigger, button, is_down),
{
    match trigger {
        TriggerConfig::Mouse(b) => {
            if button == b && is_down && state.mode == HookMode::Idle {
                (HookState { mode: HookMode::Chord, ..state }, Some(HotkeyEvent::Press))
            } else if button == b && !is_down && state.mode == HookMode::Chord {
                (HookState { mode: HookMode::Idle, ..state }, Some(HotkeyEvent::Release))
            } else {
                (state, None)
            }
        },
        TriggerConfig::Key(_) => (state, None),
    }
}

/// The Linux hook keeps press and release paired: every key or mouse
/// decision starts a recording only with a press and ends one only with a
/// release or cancel.
pub proof fn lemma_handle_event_pairs_events(
    state: HookState,
    trigger: TriggerConfig,
    one_key: Option<OneKeyTrigger>,
    key: Key,
    button: MouseButton,
    is_down: bool,
)
    ensures
        crate::ptt::event_matches_transition(
            state.mode,
            handle_event_spec(state, trigger, one_key, key, is_down).0.mode,
            handle_event_spec(state, trigger, one_key, key, is_down).1,
        ),
        crate::ptt::event_matches_transition(
            state.mode,
            handle_mouse_spec(state, trigger, button, is_down).0.mode,
            handle_mouse_spec(state, trigger, button, is_down).1,
        ),
{
    let this_mod = key_mod_bit_spec(key);
    let is_chord_main = trigger.is_main_key_spec(key);
    let mods = if this_mod == 0 {
        state.mods_down
    } else if is_down {
        state.mods_down | this_mod
    } else {
        state.mods_down & !this_mod
    };
    let key_down = if is_chord_main {
        is_down
    } else {
        state.key_down
    };
    let req = trigger.required_mods_spec();
    let inp = StepInput {
        is_down,
        is_up: !is_down,
        chord_ok: match trigger {
            TriggerConfig::Key(_) => (mods & req) == req && key_down,
            TriggerConfig::Mouse(_) => false,
        },
        chord_part: is_chord_main || (this_mod & req) != 0,
        is_one_key: match one_key {
            Some(t) => key_matches_one_key_spec(key, t),
            None => false,
        },
    };
    crate::ptt::lemma_step_pairs_events(state.mode, inp);
}

/// With a keyboard chord, pressing the main key while every required
/// modifier is held starts a recording from idle.
pub proof fn lemma_linux_full_chord_press_starts(
    state: HookState,
    tk: TriggerKeys,
    one_key: Option<OneKeyTrigger>,
)
    requires
        state.mode == HookMode::Idle,
        state.mods_down & tk.modifiers == tk.modifiers,
    ensures
        handle_event_spec(state, TriggerConfig::Key(tk), one_key, tk.key, true).0.mode
            == HookMode::Chord,
        handle_event_spec(state, TriggerConfig::Key(tk), one_key, tk.key, true).1 == Some(
            HotkeyEvent::Press,
        ),
{
    let m = key_mod_bit_spec(tk.key);
    let held = state.mods_down;
    let req = tk.modifiers;
    assert((held | m) & req == req) by (bit_vector)
        requires
            held & req == req,
    ;
}

/// During a chord take, releasing the main key or any required modifier
/// ends it.
pub proof fn lemma_linux_chord_ends_on_any_part_release(
    state: HookState,
    tk: TriggerKeys,
    one_key: Option<OneKeyTrigger>,
    key: Key,
)
    requires
        state.mode == HookMode::Chord,
        key == tk.key || key_mod_bit_spec(key) & tk.modifiers != 0,
    ensures
        handle_event_spec(state, TriggerConfig::Key(tk), one_key, key, false).0.mode
            == HookMode::Idle,
        handle_event_spec(state, TriggerConfig::Key(tk), one_key, key, false).1 == Some(
            HotkeyEvent::Release,
        ),
{
}

/// With a mouse trigger, pressing its button from idle starts a recording
/// and releasing it then ends that take.
pub proof fn lemma_linux_mouse_press_release(state: HookState, b: MouseButton)
    requires
        state.mode == HookMode::Idle,
    ensures
        handle_mouse_spec(state, TriggerConfig::Mouse(b), b, true).1 == Some(HotkeyEvent::Press),
        handle_mouse_spec(
            handle_mouse_spec(state, TriggerConfig::Mouse(b), b, true).0,
            TriggerConfig::Mouse(b),
            b,
            false,
        ) == (state, Some(HotkeyEvent::Release)),
{
}


/// One input to the hook: a key or a mouse button, pressed (`is_down`) or
/// released.
#[derive(Debug, Clone, Copy, PartialEq, Eq, Structural)]
pub enum HookInput {
    Key { key: Key, is_down: bool },
    Mouse { button: MouseButton, is_down: bool },
}

/// The hook's decision for one input.
pub open spec fn hook_input_step(
    state: HookState,
    trigger: TriggerConfig,
    one_key: Option<OneKeyTrigger>,
    m: HookInput,
) -> (HookState, Option<HotkeyEvent>) {
    match m {
        HookInput::Key { key, is_down } => handle_event_spec(state, trigger, one_key, key, is_down),
        HookInput::Mouse { button, is_down } => handle_mouse_spec(state, trigger, button, is_down),
    }
}

/// The hook's decisions over a run of inputs: the final state and the
/// reports sent, each with the mode the hook entered.
pub open spec fn hook_run(
    state: HookState,
    trigger: TriggerConfig,
    one_key: Option<OneKeyTrigger>,
    inputs: Seq<HookInput>,
) -> (HookState, Seq<(HotkeyEvent, HookMode)>)
    decreases inputs.len(),
{
    if inputs.len() == 0 {
        (state, Seq::empty())
    } else {
        let (s1, ev) = hook_input_step(state, trigger, one_key, inputs[0]);
        let (sf, evs) = hook_run(s1, trigger, one_key, inputs.drop_first());
        (sf, with_report(ev, s1.mode, evs))
    }
}

/// Every key or mouse decision keeps takes well formed.
proof fn lemma_hook_input_keeps_takes(
    state: HookState,
    trigger: TriggerConfig,
    one_key: Option<OneKeyTrigger>,
    m: HookInput,
)
    ensures
        step_keeps_takes(
            state.mode,
            hook_input_step(state, trigger, one_key, m).0.mode,
            hook_input_step(state, trigger, one_key, m).1,
        ),
{
    match m {
        HookInput::Key { key, is_down } => {
            let this_mod = key_mod_bit_spec(key);
            let is_chord_main = trigger.is_main_key_spec(key);
            let mods = if this_mod == 0 {
                state.mods_down
            } else if is_down {
                state.mods_down | this_mod
            } else {
                state.mods_down & !this_mod
            };
            let key_down = if is_chord_main {
                is_down
            } else {
                state.key_down
            };
            let req = trigger.required_mods_spec();
            let inp = StepInput {
                is_down,
                is_up: !is_down,
                chord_ok: match trigger {
                    TriggerConfig::Key(_) => (mods & req) == req && key_down,
                    TriggerConfig::Mouse(_) => false,
                },
                chord_part: is_chord_main || (this_mod & req) != 0,
                is_one_key: match one_key {
                    Some(t) => key_matches_one_key_spec(key, t),
                    None => false,
                },
            };
            crate::ptt::lemma_step_keeps_takes(state.mode, inp);
        },
        HookInput::Mouse { .. } => {},
    }
}

/// Over any run of key and mouse inputs the reports form well-formed takes:
/// a press only when no take is open, a release only ending an open take, a
/// cancel only ending a take the one-key trigger opened (never a chord or
/// mouse take); so presses alternate with releases or cancels, and a take is
/// open at the end exactly when the last report was a press.
pub proof fn lemma_linux_hook_run_takes(
    state: HookState,
    trigger: TriggerConfig,
    one_key: Option<OneKeyTrigger>,
    inputs: Seq<HookInput>,
)
    ensures
        takes_well_formed(
            hook_run(state, trigger, one_key, inputs).1,
            open_take(state.mode),
            open_take(hook_run(state, trigger, one_key, inputs).0.mode),
        ),
        alternates(
            hook_run(state, trigger, one_key, inputs).1.map_values(
                |p: (HotkeyEvent, HookMode)| p.0,
            ),
            recording(state.mode),
            recording(hook_run(state, trigger, one_key, inputs).0.mode),
        ),
    decreases inputs.len(),
{
    let (sf, evs) = hook_run(state, trigger, one_key, inputs);
    if inputs.len() > 0 {
        let (s1, ev) = hook_input_step(state, trigger, one_key, inputs[0]);
        lemma_linux_hook_run_takes(s1, trigger, one_key, inputs.drop_first());
        lemma_hook_input_keeps_takes(state, trigger, one_key, inputs[0]);
        let (_, rest) = hook_run(s1, trigger, one_key, inputs.drop_first());
        lemma_takes_extend(state.mode, s1.mode, ev, rest, open_take(sf.mode));
    }
    lemma_takes_alternate(evs, open_take(state.mode), open_take(sf.mode));
}


// ── Laws of the held modifiers and the main key ─────────────────────────────

/// Whether modifier bit `m` is among the held modifiers `mods`.
pub open spec fn holds(mods: u8, m: u8) -> bool {
    mods & m != 0
}

/// One of the four modifier bits.
pub open spec fn is_mod_bit(m: u8) -> bool {
    m == MOD_CTRL || m == MOD_SHIFT || m == MOD_ALT || m == MOD_SUPER
}

/// Setting or clearing a modifier bit (or none) leaves every other bit.
proof fn lemma_bit_update(x: u8, b: u8, m: u8)
    by (bit_vector)
    requires
        b == 0 || b == 1 || b == 2 || b == 4 || b == 8,
        m == 1 || m == 2 || m == 4 || m == 8,
    ensures
        ((x | b) & m != 0) == (b == m || x & m != 0),
        ((x & !b) & m != 0) == (b != m && x & m != 0),
{
}

/// The hook tracks the held modifiers: for each modifier, pressing one of
/// its keys makes it held, releasing one of its keys makes it not held, and
/// any other key leaves it as it was.
pub proof fn lemma_linux_tracks_held_modifiers(
    state: HookState,
    trigger: TriggerConfig,
    one_key: Option<OneKeyTrigger>,
    key: Key,
    is_down: bool,
    m: u8,
)
    requires
        is_mod_bit(m),
    ensures
        holds(handle_event_spec(state, trigger, one_key, key, is_down).0.mods_down, m) == (if key_mod_bit_spec(key) == m {
            is_down
        } else {
            holds(state.mods_down, m)
        }),
{
    lemma_bit_update(state.mods_down, key_mod_bit_spec(key), m);
}

/// Mouse buttons never change the held modifiers or the main key.
pub proof fn lemma_linux_mouse_keeps_held_keys(
    state: HookState,
    trigger: TriggerConfig,
    button: MouseButton,
    is_down: bool,
)
    ensures
        handle_mouse_spec(state, trigger, button, is_down).0.mods_down == state.mods_down,
        handle_mouse_spec(state, trigger, button, is_down).0.key_down == state.key_down,
{
}

/// Whether modifier `m` is held after `inputs`, from `held` before them: the
/// last press or release of one of its keys decides; with none, it is as
/// before.
pub open spec fn held_after(held: bool, inputs: Seq<HookInput>, m: u8) -> bool
    decreases inputs.len(),
{
    if inputs.len() == 0 {
        held
    } else {
        match inputs.last() {
            HookInput::Key { key, is_down } => if key_mod_bit_spec(key) == m {
                is_down
            } else {
                held_after(held, inputs.drop_last(), m)
            },
            HookInput::Mouse { .. } => held_after(held, inputs.drop_last(), m),
        }
    }
}

/// Whether key `k` is held after `inputs`, from `held` before them: its
/// last press or release decides; with none, it is as before.
pub open spec fn key_held_after(held: bool, inputs: Seq<HookInput>, k: Key) -> bool
    decreases inputs.len(),
{
    if inputs.len() == 0 {
        held
    } else {
        match inputs.last() {
            HookInput::Key { key, is_down } => if key == k {
                is_down
            } else {
                key_held_after(held, inputs.drop_last(), k)
            },
            HookInput::Mouse { .. } => key_held_after(held, inputs.drop_last(), k),
        }
    }
}

/// A run with one more input is the run, then that input.
pub proof fn lemma_hook_run_push(
    state: HookState,
    trigger: TriggerConfig,
    one_key: Option<OneKeyTrigger>,
    inputs: Seq<HookInput>,
    x: HookInput,
)
    ensures
        hook_run(state, trigger, one_key, inputs.push(x)).0 == hook_input_step(
            hook_run(state, trigger, one_key, inputs).0,
            trigger,
            one_key,
            x,
        ).0,
        hook_run(state, trigger, one_key, inputs.push(x)).1 == hook_run(
            state,
            trigger,
            one_key,
            inputs,
        ).1 + with_report(
            hook_input_step(hook_run(state, trigger, one_key, inputs).0, trigger, one_key, x).1,
            hook_input_step(hook_run(state, trigger, one_key, inputs).0, trigger, one_key, x).0.mode,
            Seq::empty(),
        ),
    decreases inputs.len(),
{
    let px = inputs.push(x);
    if inputs.len() == 0 {
        assert(px.drop_first() =~= Seq::<HookInput>::empty());
        assert(px[0] == x);
        let (s1, ev) = hook_input_step(state, trigger, one_key, x);
        assert(hook_run(s1, trigger, one_key, Seq::<HookInput>::empty()) == (
            s1,
            Seq::<(HotkeyEvent, HookMode)>::empty(),
        ));
        assert(hook_run(state, trigger, one_key, px) == (
            s1,
            with_report(ev, s1.mode, Seq::empty()),
        ));
        assert(hook_run(state, trigger, one_key, inputs) == (
            state,
            Seq::<(HotkeyEvent, HookMode)>::empty(),
        ));
        assert(with_report(ev, s1.mode, Seq::empty()) =~= Seq::<(HotkeyEvent, HookMode)>::empty()
            + with_report(ev, s1.mode, Seq::empty()));
    } else {
        let (s1, ev) = hook_input_step(state, trigger, one_key, inputs[0]);
        assert(px.drop_first() =~= inputs.drop_first().push(x));
        assert(px[0] == inputs[0]);
        lemma_hook_run_push(s1, trigger, one_key, inputs.drop_first(), x);
        let (mid, rest) = hook_run(s1, trigger, one_key, inputs.drop_first());
        let (s2, ev2) = hook_input_step(mid, trigger, one_key, x);
        let last = with_report(ev2, s2.mode, Seq::empty());
        assert(hook_run(s1, trigger, one_key, inputs.drop_first().push(x)) == (s2, rest + last));
        assert(hook_run(state, trigger, one_key, px) == (
            s2,
            with_report(ev, s1.mode, rest + last),
        ));
        assert(hook_run(state, trigger, one_key, inputs) == (mid, with_report(ev, s1.mode, rest)));
        match ev {
            Some(e) => {
                assert(seq![(e, s1.mode)] + (rest + last) =~= (seq![(e, s1.mode)] + rest) + last);
            },
            None => {},
        }
    }
}

/// Over any run of inputs the hook holds exactly the modifiers whose last
/// key event was a press (or, without one, those held before).
pub proof fn lemma_linux_run_held_modifiers(
    state: HookState,
    trigger: TriggerConfig,
    one_key: Option<OneKeyTrigger>,
    inputs: Seq<HookInput>,
    m: u8,
)
    requires
        is_mod_bit(m),
    ensures
        holds(hook_run(state, trigger, one_key, inputs).0.mods_down, m) == held_after(
            holds(state.mods_down, m),
            inputs,
            m,
        ),
    decreases inputs.len(),
{
    if inputs.len() > 0 {
        let init = inputs.drop_last();
        let x = inputs.last();
        assert(init.push(x) =~= inputs);
        lemma_hook_run_push(state, trigger, one_key, init, x);
        lemma_linux_run_held_modifiers(state, trigger, one_key, init, m);
        let mid = hook_run(state, trigger, one_key, init).0;
        match x {
            HookInput::Key { key, is_down } => {
                lemma_linux_tracks_held_modifiers(mid, trigger, one_key, key, is_down, m);
            },
            HookInput::Mouse { button, is_down } => {
                lemma_linux_mouse_keeps_held_keys(mid, trigger, button, is_down);
            },
        }
    }
}

/// With a keyboard chord, over any run of inputs the hook holds the chord's
/// main key exactly when its last event was a press (or, without one, as
/// before).
pub proof fn lemma_linux_run_main_key(
    state: HookState,
    tk: TriggerKeys,
    one_key: Option<OneKeyTrigger>,
    inputs: Seq<HookInput>,
)
    ensures
        hook_run(state, TriggerConfig::Key(tk), one_key, inputs).0.key_down == key_held_after(
            state.key_down,
            inputs,
            tk.key,
        ),
    decreases inputs.len(),
{
    if inputs.len() > 0 {
        let init = inputs.drop_last();
        let x = inputs.last();
        assert(init.push(x) =~= inputs);
        lemma_hook_run_push(state, TriggerConfig::Key(tk), one_key, init, x);
        lemma_linux_run_main_key(state, tk, one_key, init);
    }
}

/// A keyboard chord starts a recording only when every modifier it
/// requires is held: over any run of inputs whose last input reports a press
/// and enters the chord take, each required modifier had a press with no
/// release after it (or was held before the run and never released), the
/// main key is held in the same sense, and that last input is a key press.
pub proof fn lemma_linux_chord_press_needs_held_keys(
    state: HookState,
    tk: TriggerKeys,
    one_key: Option<OneKeyTrigger>,
    inputs: Seq<HookInput>,
    x: HookInput,
    m: u8,
)
    requires
        is_mod_bit(m),
        tk.modifiers & m != 0,
        hook_input_step(
            hook_run(state, TriggerConfig::Key(tk), one_key, inputs).0,
            TriggerConfig::Key(tk),
            one_key,
            x,
        ).1 == Some(HotkeyEvent::Press),
        hook_input_step(
            hook_run(state, TriggerConfig::Key(tk), one_key, inputs).0,
            TriggerConfig::Key(tk),
            one_key,
            x,
        ).0.mode == HookMode::Chord,
    ensures
        held_after(holds(state.mods_down, m), inputs.push(x), m),
        key_held_after(state.key_down, inputs.push(x), tk.key),
        x matches HookInput::Key { is_down, .. } && is_down,
{
    let trigger = TriggerConfig::Key(tk);
    lemma_hook_run_push(state, trigger, one_key, inputs, x);
    lemma_linux_run_held_modifiers(state, trigger, one_key, inputs.push(x), m);
    lemma_linux_run_main_key(state, tk, one_key, inputs.push(x));
    let after = hook_run(state, trigger, one_key, inputs.push(x)).0.mods_down;
    let req = tk.modifiers;
    assert(after & req == req);
    assert(after & m != 0) by (bit_vector)
        requires
            after & req == req,
            req & m != 0,
    ;
}


/// Each modifier's name and its keys agree: `ctrl` and both Control keys are
/// the Ctrl bit, `shift` and both Shift keys the Shift bit, `alt` and Alt /
/// AltGr the Alt bit, `super`/`meta` and both Meta keys the Super bit; no
/// other key is a modifier.
pub proof fn lemma_linux_modifier_names_match_keys(key: Key)
    ensures
        modifier_bit_spec("ctrl"@) == Some(MOD_CTRL),
        key_mod_bit_spec(Key::ControlLeft) == MOD_CTRL && key_mod_bit_spec(Key::ControlRight)
            == MOD_CTRL,
        modifier_bit_spec("shift"@) == Some(MOD_SHIFT),
        key_mod_bit_spec(Key::ShiftLeft) == MOD_SHIFT && key_mod_bit_spec(Key::ShiftRight)
            == MOD_SHIFT,
        modifier_bit_spec("alt"@) == Some(MOD_ALT),
        key_mod_bit_spec(Key::Alt) == MOD_ALT && key_mod_bit_spec(Key::AltGr) == MOD_ALT,
        modifier_bit_spec("super"@) == Some(MOD_SUPER) && modifier_bit_spec("meta"@) == Some(
            MOD_SUPER,
        ),
        key_mod_bit_spec(Key::MetaLeft) == MOD_SUPER && key_mod_bit_spec(Key::MetaRight)
            == MOD_SUPER,
        is_mod_bit(key_mod_bit_spec(key)) || key_mod_bit_spec(key) == 0,
        key_mod_bit_spec(key) != 0 <==> (key == Key::ControlLeft || key == Key::ControlRight || key
            == Key::ShiftLeft || key == Key::ShiftRight || key == Key::Alt || key == Key::AltGr
            || key == Key::MetaLeft || key == Key::MetaRight),
{
    reveal_strlit("ctrl");
    reveal_strlit("shift");
    reveal_strlit("alt");
    reveal_strlit("super");
    reveal_strlit("meta");
    assert("shift"@.len() != "ctrl"@.len());
    assert("alt"@.len() != "ctrl"@.len() && "alt"@.len() != "shift"@.len());
    assert("super"@.len() != "ctrl"@.len() && "super"@.len() != "alt"@.len());
    assert("super"@[1] != "shift"@[1]);
    assert("meta"@[0] != "ctrl"@[0] && "meta"@.len() != "shift"@.len());
    assert("meta"@.len() != "alt"@.len() && "meta"@.len() != "super"@.len());
}


/// The Windows virtual-key code of the same physical key, for the letter,
/// digit-row and function keys.
#[verifier::opaque]
pub open spec fn key_vk(k: Key) -> Option<u32> {
    match k {
        Key::KeyA => Some(0x41),
        Key::KeyB => Some(0x42),
        Key::KeyC => Some(0x43),
        Key::KeyD => Some(0x44),
        Key::KeyE => Some(0x45),
        Key::KeyF => Some(0x46),
        Key::KeyG => Some(0x47),
        Key::KeyH => Some(0x48),
        Key::KeyI => Some(0x49),
        Key::KeyJ => Some(0x4A),
        Key::KeyK => Some(0x4B),
        Key::KeyL => Some(0x4C),
        Key::KeyM => Some(0x4D),
        Key::KeyN => Some(0x4E),
        Key::KeyO => Some(0x4F),
        Key::KeyP => Some(0x50),
        Key::KeyQ => Some(0x51),
        Key::KeyR => Some(0x52),
        Key::KeyS => Some(0x53),
        Key::KeyT => Some(0x54),
        Key::KeyU => Some(0x55),
        Key::KeyV => Some(0x56),
        Key::KeyW => Some(0x57),
        Key::KeyX => Some(0x58),
        Key::KeyY => Some(0x59),
        Key::KeyZ => Some(0x5A),
        Key::Num0 => Some(0x30),
        Key::Num1 => Some(0x31),
        Key::Num2 => Some(0x32),
        Key::Num3 => Some(0x33),
        Key::Num4 => Some(0x34),
        Key::Num5 => Some(0x35),
        Key::Num6 => Some(0x36),
        Key::Num7 => Some(0x37),
        Key::Num8 => Some(0x38),
        Key::Num9 => Some(0x39),
        Key::F1 => Some(0x70),
        Key::F2 => Some(0x71),
        Key::F3 => Some(0x72),
        Key::F4 => Some(0x73),
        Key::F5 => Some(0x74),
        Key::F6 => Some(0x75),
        Key::F7 => Some(0x76),
        Key::F8 => Some(0x77),
        Key::F9 => Some(0x78),
        Key::F10 => Some(0x79),
        Key::F11 => Some(0x7A),
        Key::F12 => Some(0x7B),
        _ => None,
    }
}

/// The Linux and Windows clients name the same keys: a lowercase letter, a
/// digit, or `f1`..`f12` names, on Linux, the key whose Windows code is the
/// code the Windows client gives the same name.
pub proof fn lemma_names_agree_across_clients(c: char, t: char, d: char)
    ensures
        ('a' <= c <= 'z' || '0' <= c <= '9') ==> key_for_name(seq![c]) is Some && key_vk(
            key_for_name(seq![c])->0,
        ) == crate::hotkey::vk_spec(seq![c]),
        '1' <= d <= '9' ==> key_for_name(seq!['f', d]) is Some && key_vk(
            key_for_name(seq!['f', d])->0,
        ) == crate::hotkey::vk_spec(seq!['f', d]),
        (t == '1' && '0' <= d <= '2') ==> key_for_name(seq!['f', t, d]) is Some && key_vk(
            key_for_name(seq!['f', t, d])->0,
        ) == crate::hotkey::vk_spec(seq!['f', t, d]),
{
    reveal(key_vk);
    crate::hotkey::lemma_single_char_vk(c);
    if '1' <= d <= '9' {
        crate::hotkey::lemma_fkey_one_digit_vk(d);
        let n = seq!['f', d];
        assert(n.drop_first() =~= seq![d]);
        assert(seq![d].drop_last() =~= Seq::<char>::empty());
        assert(seq![d].last() == d);
        assert(digits_value(Seq::<char>::empty()) == 0);
        assert(parse_u32_spec(n.drop_first()) == Some((d as u32 - 48) as u32));
    }
    if t == '1' && '0' <= d <= '2' {
        crate::hotkey::lemma_fkey_two_digit_vk(t, d);
        let n = seq!['f', t, d];
        let ds = seq![t, d];
        assert(n.drop_first() =~= ds);
        assert(ds.drop_last() =~= seq![t]);
        assert(seq![t].drop_last() =~= Seq::<char>::empty());
        assert(seq![t].last() == t);
        assert(ds.last() == d);
        assert(digits_value(Seq::<char>::empty()) == 0);
        assert(digits_value(ds) == (t as u32 - 48) * 10 + (d as u32 - 48));
        assert(parse_u32_spec(n.drop_first()) == Some((10 + (d as u32 - 48)) as u32));
    }
}

} // verus!
