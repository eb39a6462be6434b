//! Push-to-talk trigger configuration with Win32 virtual-key codes: parsing
//! of `trigger` (`key:[mod+…+]<key>` or `mouse:<button>`) and
//! `one_key_trigger`, key classification, and the input-hook decision
//! functions that turn key and mouse messages into press / release / cancel.
use vstd::prelude::*;

use crate::ptt::{
    alternates, lemma_takes_alternate, lemma_takes_extend, open_take, recording, step_keeps_takes,
    step_spec, takes_well_formed, with_report, HookMode, HotkeyEvent, StepInput,
};
use crate::text::{
    all_ascii, chars_eq_ignore_ascii_case, chars_eq_str, chars_of, concat3, contains_char,
    debug_quoted, debug_string, digits_value, each_followed_by, eq_ignore_ascii_case, free_of, is_ws,
    last_index, last_index_of, lemma_last_index_append, lemma_last_index_bounds,
    lemma_split_each_followed_by, lemma_split_on_nonempty, lemma_trim_unchanged, parse_u32,
    parse_u32_spec, short_or_boundary_at, split_on, starts_with_str, string_of, sub_chars,
    to_lowercase, trim, trim_chars, unicode_lower,
};

verus! {

broadcast use vstd::string::group_string_axioms;

// ── Win32 constants ──────────────────────────────────────────────────────────

/// Modifier bit: either Ctrl key.
pub const MOD_CTRL: u8 = 1;

/// Modifier bit: either Shift key.
pub const MOD_SHIFT: u8 = 2;

/// Modifier bit: either Alt key.
pub const MOD_ALT: u8 = 4;

/// Modifier bit: either Windows/Super key.
pub const MOD_SUPER: u8 = 8;

pub const VK_LSHIFT: u32 = 0xA0;

pub const VK_RSHIFT: u32 = 0xA1;

pub const VK_LCONTROL: u32 = 0xA2;

pub const VK_RCONTROL: u32 = 0xA3;

pub const VK_LMENU: u32 = 0xA4;

pub const VK_RMENU: u32 = 0xA5;

pub const VK_LWIN: u32 = 0x5B;

pub const VK_RWIN: u32 = 0x5C;

pub const WM_KEYDOWN: u32 = 0x0100;

pub const WM_KEYUP: u32 = 0x0101;

pub const WM_SYSKEYDOWN: u32 = 0x0104;

pub const WM_SYSKEYUP: u32 = 0x0105;

pub const WM_LBUTTONDOWN: u32 = 0x0201;

pub const WM_LBUTTONUP: u32 = 0x0202;

pub const WM_RBUTTONDOWN: u32 = 0x0204;

pub const WM_RBUTTONUP: u32 = 0x0205;

pub const WM_MBUTTONDOWN: u32 = 0x0207;

pub const WM_MBUTTONUP: u32 = 0x0208;

pub const WM_XBUTTONDOWN: u32 = 0x020B;

pub const WM_XBUTTONUP: u32 = 0x020C;

// ── Types ────────────────────────────────────────────────────────────────────

/// Parsed keyboard chord. `modifiers` is a bitfield of `MOD_*` constants;
/// zero means a bare key.
#[derive(Debug, Clone, Copy, PartialEq, Eq, Structural)]
pub struct TriggerKeys {
    pub modifiers: u8,
    pub key: u32,
}

/// Mouse button used as a push-to-talk trigger.
#[derive(Debug, Clone, Copy, PartialEq, Eq, Structural)]
pub enum MouseButton {
    Left,
    Right,
    Middle,
    /// Side / back button (XButton1).
    X1,
    /// Side / forward button (XButton2).
    X2,
}

/// Parsed form of the `trigger` setting.
#[derive(Debug, Clone, Copy, PartialEq, Eq, Structural)]
pub enum TriggerConfig {
    Key(TriggerKeys),
    Mouse(MouseButton),
}

/// Single-key push-to-talk: a modifier or a function key, never a key that
/// types text.
#[derive(Debug, Clone, Copy, PartialEq, Eq, Structural)]
pub enum OneKeyTrigger {
    Ctrl,
    Alt,
    /// Raw VK code (0x70 for F1 … 0x87 for F24).
    Function(u32),
}

/// Why a trigger setting was rejected; each variant keeps the offending text.
#[derive(Debug, Clone)]
pub enum HotkeyError {
    /// `trigger` starts with neither `key:` nor `mouse:` (trimmed input).
    MissingPrefix(String),
    /// `mouse:` is followed by an unknown button name.
    UnknownMouseButton(String),
    /// Nothing follows the last `+` (trimmed input).
    MissingKeyName(String),
    /// A modifier segment is not ctrl, shift, alt, super or win.
    UnknownModifier(String),
    /// The key name is not known.
    UnknownKeyName(String),
    /// `one_key_trigger` does not start with `key:` (trimmed input).
    OneKeyMissingPrefix(String),
    /// `one_key_trigger` names a chord (trimmed input).
    OneKeyChord(String),
    /// `one_key_trigger` names a key other than ctrl, alt, f1..f24.
    OneKeyUnsupported(String),
}

/// [`HotkeyError`] with its text as characters.
pub enum HotkeyErrorView {
    MissingPrefix(Seq<char>),
    UnknownMouseButton(Seq<char>),
    MissingKeyName(Seq<char>),
    UnknownModifier(Seq<char>),
    UnknownKeyName(Seq<char>),
    OneKeyMissingPrefix(Seq<char>),
    OneKeyChord(Seq<char>),
    OneKeyUnsupported(Seq<char>),
}

impl View for HotkeyError {
    type V = HotkeyErrorView;

    open spec fn view(&self) -> HotkeyErrorView {
        match self {
            HotkeyError::MissingPrefix(s) => HotkeyErrorView::MissingPrefix(s@),
            HotkeyError::UnknownMouseButton(s) => HotkeyErrorView::UnknownMouseButton(s@),
            HotkeyError::MissingKeyName(s) => HotkeyErrorView::MissingKeyName(s@),
            HotkeyError::UnknownModifier(s) => HotkeyErrorView::UnknownModifier(s@),
            HotkeyError::UnknownKeyName(s) => HotkeyErrorView::UnknownKeyName(s@),
            HotkeyError::OneKeyMissingPrefix(s) => HotkeyErrorView::OneKeyMissingPrefix(s@),
            HotkeyError::OneKeyChord(s) => HotkeyErrorView::OneKeyChord(s@),
            HotkeyError::OneKeyUnsupported(s) => HotkeyErrorView::OneKeyUnsupported(s@),
        }
    }
}

/// The text of an error, as the client reports it.
pub open spec fn error_message(e: HotkeyErrorView) -> Seq<char> {
    match e {
        HotkeyErrorView::MissingPrefix(s) => "trigger must start with 'key:' or 'mouse:' (got "@
            + debug_quoted(s) + ")"@,
        HotkeyErrorView::UnknownMouseButton(s) => "unknown mouse button "@ + debug_quoted(s)
            + "; use left, right, middle, x1, x2"@,
        HotkeyErrorView::MissingKeyName(s) => "trigger key name is missing (got "@ + debug_quoted(
            s,
        ) + ")"@,
        HotkeyErrorView::UnknownModifier(s) => "unknown modifier "@ + debug_quoted(s)
            + "; use ctrl, shift, alt, super (or win)"@,
        HotkeyErrorView::UnknownKeyName(s) => "unknown key name "@ + debug_quoted(s),
        HotkeyErrorView::OneKeyMissingPrefix(s) => "one_key_trigger must start with 'key:' (got "@
            + debug_quoted(s) + ")"@,
        HotkeyErrorView::OneKeyChord(s) => "one_key_trigger cannot be a chord (got "@
            + debug_quoted(s) + "); use trigger= for chords"@,
        HotkeyErrorView::OneKeyUnsupported(s) =>
            "one_key_trigger must be key:ctrl, key:alt, or key:f1..key:f24 (got "@ + debug_quoted(s)
            + ")"@,
    }
}

impl HotkeyError {
    /// The error's text (what `Display` would show).
    pub fn message(&self) -> (r: String)
        ensures
            r@ == error_message(self@),
    {
        match self {
            HotkeyError::MissingPrefix(s) => concat3(
                "trigger must start with 'key:' or 'mouse:' (got ",
                &debug_string(s.as_str()),
                ")",
            ),
            HotkeyError::UnknownMouseButton(s) => concat3(
                "unknown mouse button ",
                &debug_string(s.as_str()),
                "; use left, right, middle, x1, x2",
            ),
            HotkeyError::MissingKeyName(s) => concat3(
                "trigger key name is missing (got ",
                &debug_string(s.as_str()),
                ")",
            ),
            HotkeyError::UnknownModifier(s) => concat3(
                "unknown modifier ",
                &debug_string(s.as_str()),
                "; use ctrl, shift, alt, super (or win)",
            ),
            HotkeyError::UnknownKeyName(s) => {
                let mut out = "unknown key name ".to_string();
                crate::text::append_str(&mut out, debug_string(s.as_str()).as_str());
                out
            },
            HotkeyError::OneKeyMissingPrefix(s) => concat3(
                "one_key_trigger must start with 'key:' (got ",
                &debug_string(s.as_str()),
                ")",
            ),
            HotkeyError::OneKeyChord(s) => concat3(
                "one_key_trigger cannot be a chord (got ",
                &debug_string(s.as_str()),
                "); use trigger= for chords",
            ),
            HotkeyError::OneKeyUnsupported(s) => concat3(
                "one_key_trigger must be key:ctrl, key:alt, or key:f1..key:f24 (got ",
                &debug_string(s.as_str()),
                ")",
            ),
        }
    }
}

// ── Name tables ──────────────────────────────────────────────────────────────

/// Modifier bit of a (lowercased) modifier name.
pub open spec fn modifier_bit_spec(n: Seq<char>) -> Option<u8> {
    if n == "ctrl"@ {
        Some(MOD_CTRL)
    } else if n == "shift"@ {
        Some(MOD_SHIFT)
    } else if n == "alt"@ {
        Some(MOD_ALT)
    } else if n == "super"@ || n == "win"@ {
        Some(MOD_SUPER)
    } else {
        None
    }
}

/// Button of a (lowercased) mouse-button name.
pub open spec fn mouse_button_spec(n: Seq<char>) -> Option<MouseButton> {
    if n == "left"@ {
        Some(MouseButton::Left)
    } else if n == "right"@ {
        Some(MouseButton::Right)
    } else if n == "middle"@ {
        Some(MouseButton::Middle)
    } else if n == "x1"@ {
        Some(MouseButton::X1)
    } else if n == "x2"@ {
        Some(MouseButton::X2)
    } else {
        None
    }
}

/// VK code of a named key (lowercased name).
pub open spec fn named_vk(n: Seq<char>) -> Option<u32> {
    if n == "pause"@ {
        Some(0x13)
    } else if n == "capslock"@ {
        Some(0x14)
    } else if n == "escape"@ {
        Some(0x1B)
    } else if n == "space"@ {
        Some(0x20)
    } else if n == "insert"@ {
        Some(0x2D)
    } else if n == "delete"@ || n == "del"@ {
        Some(0x2E)
    } else if n == "home"@ {
        Some(0x24)
    } else if n == "end"@ {
        Some(0x23)
    } else if n == "pageup"@ {
        Some(0x21)
    } else if n == "pagedown"@ {
        Some(0x22)
    } else if n == "left"@ {
        Some(0x25)
    } else if n == "up"@ {
        Some(0x26)
    } else if n == "right"@ {
        Some(0x27)
    } else if n == "down"@ {
        Some(0x28)
    } else if n == "scroll"@ {
        Some(0x91)
    } else if n == "numlock"@ {
        Some(0x90)
    } else if n == "printscreen"@ {
        Some(0x2C)
    } else {
        None
    }
}

/// `char::is_ascii_alphabetic`.
pub open spec fn is_ascii_alpha(c: char) -> bool {
    ('a' <= c && c <= 'z') || ('A' <= c && c <= 'Z')
}

/// `char::to_ascii_uppercase`, as a code point.
pub open spec fn ascii_upper_code(c: char) -> u32 {
    if 'a' <= c && c <= 'z' {
        (c as u32 - 32) as u32
    } else {
        c as u32
    }
}

/// Function-key number `n` (`f<n>` with `1 <= n <= 24`) of a lowercased name.
pub open spec fn fkey_number(n: Seq<char>) -> Option<u32> {
    if n.len() > 0 && n[0] == 'f' {
        match parse_u32_spec(n.drop_first()) {
            Some(k) => if 1 <= k && k <= 24 {
                Some(k)
            } else {
                None
            },
            None => None,
        }
    } else {
        None
    }
}

/// VK code of a lowercased key name: a single ASCII letter (its uppercase
/// code), a single digit, `f1`..`f24` (0x70..0x87), or a named key.
pub open spec fn vk_spec(n: Seq<char>) -> Option<u32> {
    if n.len() == 1 && is_ascii_alpha(n[0]) {
        Some(ascii_upper_code(n[0]))
    } else if n.len() == 1 && '0' <= n[0] && n[0] <= '9' {
        Some(n[0] as u32)
    } else {
        match fkey_number(n) {
            Some(k) => Some((0x6F + k) as u32),
            None => named_vk(n),
        }
    }
}

fn lower_chars(s: &str) -> (r: Vec<char>)
    ensures
        r@ == unicode_lower(s@),
        all_ascii(s@) ==> r@ == s@.map_values(|c: char| crate::text::ascii_lower_char(c)),
{
    let l = to_lowercase(s);
    chars_of(l.as_str())
}

fn parse_modifier_bit_lower(n: &[char]) -> (r: Option<u8>)
    ensures
        r == modifier_bit_spec(n@),
{
    if chars_eq_str(n, "ctrl") {
        Some(MOD_CTRL)
    } else if chars_eq_str(n, "shift") {
        Some(MOD_SHIFT)
    } else if chars_eq_str(n, "alt") {
        Some(MOD_ALT)
    } else if chars_eq_str(n, "super") || chars_eq_str(n, "win") {
        Some(MOD_SUPER)
    } else {
        None
    }
}

/// The `MOD_*` bit of a modifier name (any case), if it is one.
pub fn parse_modifier_bit(s: &str) -> (r: Option<u8>)
    ensures
        r == modifier_bit_spec(unicode_lower(s@)),
{
    let n = lower_chars(s);
    parse_modifier_bit_lower(&n)
}

/// The mouse button of a button name (any case), if it is one.
pub fn parse_mouse_button(s: &str) -> (r: Option<MouseButton>)
    ensures
        r == mouse_button_spec(unicode_lower(s@)),
{
    let n = lower_chars(s);
    if chars_eq_str(&n, "left") {
        Some(MouseButton::Left)
    } else if chars_eq_str(&n, "right") {
        Some(MouseButton::Right)
    } else if chars_eq_str(&n, "middle") {
        Some(MouseButton::Middle)
    } else if chars_eq_str(&n, "x1") {
        Some(MouseButton::X1)
    } else if chars_eq_str(&n, "x2") {
        Some(MouseButton::X2)
    } else {
        None
    }
}

fn named_vk_exec(n: &[char]) -> (r: Option<u32>)
    ensures
        r == named_vk(n@),
{
    if chars_eq_str(n, "pause") {
        Some(0x13)
    } else if chars_eq_str(n, "capslock") {
        Some(0x14)
    } else if chars_eq_str(n, "escape") {
        Some(0x1B)
    } else if chars_eq_str(n, "space") {
        Some(0x20)
    } else if chars_eq_str(n, "insert") {
        Some(0x2D)
    } else if chars_eq_str(n, "delete") || chars_eq_str(n, "del") {
        Some(0x2E)
    } else if chars_eq_str(n, "home") {
        Some(0x24)
    } else if chars_eq_str(n, "end") {
        Some(0x23)
    } else if chars_eq_str(n, "pageup") {
        Some(0x21)
    } else if chars_eq_str(n, "pagedown") {
        Some(0x22)
    } else if chars_eq_str(n, "left") {
        Some(0x25)
    } else if chars_eq_str(n, "up") {
        Some(0x26)
    } else if chars_eq_str(n, "right") {
        Some(0x27)
    } else if chars_eq_str(n, "down") {
        Some(0x28)
    } else if chars_eq_str(n, "scroll") {
        Some(0x91)
    } else if chars_eq_str(n, "numlock") {
        Some(0x90)
    } else if chars_eq_str(n, "printscreen") {
        Some(0x2C)
    } else {
        None
    }
}

/// `f<n>` with `1 <= n <= 24` on lowercased characters.
pub fn fkey_number_exec(n: &[char]) -> (r: Option<u32>)
    ensures
        r == fkey_number(n@),
{
    if n.len() > 0 && n[0] == 'f' {
        let rest = sub_chars(n, 1, n.len());
        assert(rest@ =~= n@.drop_first());
        match parse_u32(&rest) {
            Some(k) => if 1 <= k && k <= 24 {
                Some(k)
            } else {
                None
            },
            None => None,
        }
    } else {
        None
    }
}

fn vk_of_lower(n: &[char]) -> (r: Option<u32>)
    ensures
        r == vk_spec(n@),
{
    if n.len() == 1 && (('a' <= n[0] && n[0] <= 'z') || ('A' <= n[0] && n[0] <= 'Z')) {
        let c = n[0];
        if 'a' <= c && c <= 'z' {
            Some(c as u32 - 32)
        } else {
            Some(c as u32)
        }
    } else if n.len() == 1 && '0' <= n[0] && n[0] <= '9' {
        Some(n[0] as u32)
    } else {
        match fkey_number_exec(n) {
            Some(k) => Some(0x6F + k),
            None => named_vk_exec(n),
        }
    }
}

/// The VK code of a key name (any case): letters, digits, `f1`..`f24` and
/// the named keys.
pub fn key_name_to_vk(name: &str) -> (r: Option<u32>)
    ensures
        r == vk_spec(unicode_lower(name@)),
{
    let n = lower_chars(name);
    vk_of_lower(&n)
}

// ── Classification of key codes ──────────────────────────────────────────────

/// The `MOD_*` bit of a VK code, or 0 when it is not a tracked modifier.
pub open spec fn mod_bit_spec(vk: u32) -> u8 {
    if vk == VK_LCONTROL || vk == VK_RCONTROL {
        MOD_CTRL
    } else if vk == VK_LSHIFT || vk == VK_RSHIFT {
        MOD_SHIFT
    } else if vk == VK_LMENU || vk == VK_RMENU {
        MOD_ALT
    } else if vk == VK_LWIN || vk == VK_RWIN {
        MOD_SUPER
    } else {
        0
    }
}

/// The `MOD_*` bit of a VK code, or 0 when it is not a tracked modifier.
pub fn vk_to_mod_bit(vk: u32) -> (r: u8)
    ensures
        r == mod_bit_spec(vk),
{
    if vk == VK_LCONTROL || vk == VK_RCONTROL {
        return MOD_CTRL;
    }
    if vk == VK_LSHIFT || vk == VK_RSHIFT {
        return MOD_SHIFT;
    }
    if vk == VK_LMENU || vk == VK_RMENU {
        return MOD_ALT;
    }
    if vk == VK_LWIN || vk == VK_RWIN {
        return MOD_SUPER;
    }
    0
}

/// A modifier that can serve as a one-key trigger.
#[derive(Debug, Clone, Copy, PartialEq, Eq, Structural)]
pub enum Modifier {
    Ctrl,
    Alt,
}

/// Whether `vk` is the left or right key of `modifier`.
pub open spec fn is_modifier_vk_spec(vk: u32, modifier: Modifier) -> bool {
    match modifier {
        Modifier::Ctrl => vk == VK_LCONTROL || vk == VK_RCONTROL,
        Modifier::Alt => vk == VK_LMENU || vk == VK_RMENU,
    }
}

/// Whether `vk` is the left or right key of `modifier`.
pub fn is_modifier_vk(vk: u32, modifier: Modifier) -> (r: bool)
    ensures
        r == is_modifier_vk_spec(vk, modifier),
{
    match modifier {
        Modifier::Ctrl => vk == VK_LCONTROL || vk == VK_RCONTROL,
        Modifier::Alt => vk == VK_LMENU || vk == VK_RMENU,
    }
}

/// Whether `vk` is the one-key trigger's key (either Ctrl, either Alt, or the
/// function key).
pub open spec fn matches_one_key_spec(vk: u32, trig: OneKeyTrigger) -> bool {
    match trig {
        OneKeyTrigger::Ctrl => is_modifier_vk_spec(vk, Modifier::Ctrl),
        OneKeyTrigger::Alt => is_modifier_vk_spec(vk, Modifier::Alt),
        OneKeyTrigger::Function(f) => vk == f,
    }
}

/// Whether `vk` is the one-key trigger's key.
pub fn matches_one_key(vk: u32, trig: OneKeyTrigger) -> (r: bool)
    ensures
        r == matches_one_key_spec(vk, trig),
{
    match trig {
        OneKeyTrigger::Ctrl => is_modifier_vk(vk, Modifier::Ctrl),
        OneKeyTrigger::Alt => is_modifier_vk(vk, Modifier::Alt),
        OneKeyTrigger::Function(f) => vk == f,
    }
}

/// Which X button a mouse message refers to (high word of `mouseData`).
pub open spec fn xbutton(mouse_data: u32) -> int {
    mouse_data as int / 65536
}

/// Whether a mouse message presses `btn`.
pub open spec fn mouse_down_spec(msg: u32, btn: MouseButton, mouse_data: u32) -> bool {
    match btn {
        MouseButton::Left => msg == WM_LBUTTONDOWN,
        MouseButton::Right => msg == WM_RBUTTONDOWN,
        MouseButton::Middle => msg == WM_MBUTTONDOWN,
        MouseButton::X1 => msg == WM_XBUTTONDOWN && xbutton(mouse_data) == 1,
        MouseButton::X2 => msg == WM_XBUTTONDOWN && xbutton(mouse_data) == 2,
    }
}

/// Whether a mouse message releases `btn`.
pub open spec fn mouse_up_spec(msg: u32, btn: MouseButton, mouse_data: u32) -> bool {
    match btn {
        MouseButton::Left => msg == WM_LBUTTONUP,
        MouseButton::Right => msg == WM_RBUTTONUP,
        MouseButton::Middle => msg == WM_MBUTTONUP,
        MouseButton::X1 => msg == WM_XBUTTONUP && xbutton(mouse_data) == 1,
        MouseButton::X2 => msg == WM_XBUTTONUP && xbutton(mouse_data) == 2,
    }
}

/// Whether a mouse message presses `btn`.
pub fn mouse_btn_down(msg: u32, btn: MouseButton, mouse_data: u32) -> (r: bool)
    ensures
        r == mouse_down_spec(msg, btn, mouse_data),
{
    match btn {
        MouseButton::Left => msg == WM_LBUTTONDOWN,
        MouseButton::Right => msg == WM_RBUTTONDOWN,
        MouseButton::Middle => msg == WM_MBUTTONDOWN,
        MouseButton::X1 => msg == WM_XBUTTONDOWN && mouse_data / 65536 == 1,
        MouseButton::X2 => msg == WM_XBUTTONDOWN && mouse_data / 65536 == 2,
    }
}

/// Whether a mouse message releases `btn`.
pub fn mouse_btn_up(msg: u32, btn: MouseButton, mouse_data: u32) -> (r: bool)
    ensures
        r == mouse_up_spec(msg, btn, mouse_data),
{
    match btn {
        MouseButton::Left => msg == WM_LBUTTONUP,
        MouseButton::Right => msg == WM_RBUTTONUP,
        MouseButton::Middle => msg == WM_MBUTTONUP,
        MouseButton::X1 => msg == WM_XBUTTONUP && mouse_data / 65536 == 1,
        MouseButton::X2 => msg == WM_XBUTTONUP && mouse_data / 65536 == 2,
    }
}

impl TriggerConfig {
    /// Modifier bits the chord requires (none for a mouse trigger).
    pub open spec fn required_mods_spec(self) -> u8 {
        match self {
            TriggerConfig::Key(tk) => tk.modifiers,
            TriggerConfig::Mouse(_) => 0,
        }
    }

    /// Modifier bits the chord requires (none for a mouse trigger).
    pub fn required_mods(self) -> (r: u8)
        ensures
            r == self.required_mods_spec(),
    {
        match self {
            TriggerConfig::Key(tk) => tk.modifiers,
            TriggerConfig::Mouse(_) => 0,
        }
    }
}

} // verus!

verus! {

// ── Parsing the settings ─────────────────────────────────────────────────────

/// Modifier bits of the modifier segments, in order; the first segment that
/// is not a modifier name (compared in lowercase) is the error.
pub open spec fn fold_mods(parts: Seq<Seq<char>>) -> Result<u8, Seq<char>>
    decreases parts.len(),
{
    if parts.len() == 0 {
        Ok(0)
    } else {
        match fold_mods(parts.drop_last()) {
            Err(e) => Err(e),
            Ok(m) => match modifier_bit_spec(unicode_lower(parts.last())) {
                Some(b) => Ok(m | b),
                None => Err(parts.last()),
            },
        }
    }
}

/// The `trigger` setting: after trimming, `mouse:<button>` or
/// `key:[mod+…+]<key>`; everything before the last `+` is a modifier.
pub open spec fn parse_trigger_spec(s: Seq<char>) -> Result<TriggerConfig, HotkeyErrorView> {
    let t = trim(s);
    if t.len() >= 6 && t.take(6) == "mouse:"@ {
        let rest = t.skip(6);
        match mouse_button_spec(unicode_lower(rest)) {
            Some(b) => Ok(TriggerConfig::Mouse(b)),
            None => Err(HotkeyErrorView::UnknownMouseButton(rest)),
        }
    } else if !(t.len() >= 4 && t.take(4) == "key:"@) {
        Err(HotkeyErrorView::MissingPrefix(t))
    } else {
        let rest = t.skip(4);
        let lp = last_index(rest, '+');
        let key_name = rest.skip(lp + 1);
        if key_name.len() == 0 {
            Err(HotkeyErrorView::MissingKeyName(t))
        } else {
            let mods = if lp < 0 {
                Seq::empty()
            } else {
                split_on(rest.take(lp), '+')
            };
            match fold_mods(mods) {
                Err(m) => Err(HotkeyErrorView::UnknownModifier(m)),
                Ok(bits) => match vk_spec(unicode_lower(key_name)) {
                    Some(k) => Ok(TriggerConfig::Key(TriggerKeys { modifiers: bits, key: k })),
                    None => Err(HotkeyErrorView::UnknownKeyName(key_name)),
                },
            }
        }
    }
}

/// View of a parse result.
pub open spec fn result_view<T>(r: Result<T, HotkeyError>) -> Result<T, HotkeyErrorView> {
    match r {
        Ok(v) => Ok(v),
        Err(e) => Err(e@),
    }
}

/// Modifier bits of the `+`-separated segments of `m`.
fn parse_modifier_segments(m: &Vec<char>) -> (r: Result<u8, Vec<char>>)
    ensures
        match r {
            Ok(bits) => fold_mods(split_on(m@, '+')) == Ok::<u8, Seq<char>>(bits),
            Err(e) => fold_mods(split_on(m@, '+')) == Err::<u8, Seq<char>>(e@),
        },
{
    let mut bits: u8 = 0;
    let mut first_bad: Option<Vec<char>> = None;
    let mut seg: Vec<char> = Vec::new();
    let mut i: usize = 0;
    assert(m@.take(0) =~= Seq::<char>::empty());
    assert(split_on(Seq::<char>::empty(), '+').drop_last() =~= Seq::<Seq<char>>::empty());
    while i < m.len()
        invariant
            0 <= i <= m@.len(),
            split_on(m@.take(i as int), '+').len() >= 1,
            fold_mods(split_on(m@.take(i as int), '+').drop_last()) == (match first_bad {
                Some(e) => Err::<u8, Seq<char>>(e@),
                None => Ok::<u8, Seq<char>>(bits),
            }),
            seg@ == split_on(m@.take(i as int), '+').last(),
        decreases m@.len() - i,
    {
        let ghost p = split_on(m@.take(i as int), '+');
        assert(m@.take(i + 1).drop_last() =~= m@.take(i as int));
        assert(m@.take(i + 1).last() == m@[i as int]);
        proof {
            lemma_split_on_nonempty(m@.take(i + 1), '+');
        }
        if m[i] == '+' {
            assert(p.drop_last().push(p.last()) =~= p);
            if first_bad.is_none() {
                let name = string_of(&seg);
                match parse_modifier_bit(name.as_str()) {
                    Some(b) => {
                        bits = bits | b;
                    },
                    None => {
                        first_bad = Some(seg);
                    },
                }
            }
            assert(split_on(m@.take(i + 1), '+').drop_last() =~= p);
            seg = Vec::new();
        } else {
            assert(split_on(m@.take(i + 1), '+').drop_last() =~= p.drop_last());
            seg.push(m[i]);
        }
        i = i + 1;
    }
    assert(m@.take(m@.len() as int) =~= m@);
    let ghost p = split_on(m@, '+');
    assert(p.drop_last().push(p.last()) =~= p);
    match first_bad {
        Some(e) => Err(e),
        None => {
            let name = string_of(&seg);
            match parse_modifier_bit(name.as_str()) {
                Some(b) => Ok(bits | b),
                None => Err(seg),
            }
        },
    }
}

/// Parse the `trigger` setting.
pub fn parse_trigger(s: &str) -> (r: Result<TriggerConfig, HotkeyError>)
    ensures
        result_view(r) == parse_trigger_spec(s@),
{
    proof {
        reveal_strlit("mouse:");
        reveal_strlit("key:");
    }
    let v = trim_chars(&chars_of(s));
    if starts_with_str(&v, "mouse:") {
        let rest = sub_chars(&v, 6, v.len());
        assert(rest@ =~= v@.skip(6));
        let name = string_of(&rest);
        return match parse_mouse_button(name.as_str()) {
            Some(b) => Ok(TriggerConfig::Mouse(b)),
            None => Err(HotkeyError::UnknownMouseButton(name)),
        };
    }
    if !starts_with_str(&v, "key:") {
        return Err(HotkeyError::MissingPrefix(string_of(&v)));
    }
    let rest = sub_chars(&v, 4, v.len());
    assert(rest@ =~= v@.skip(4));
    proof {
        lemma_last_index_bounds(rest@, '+');
    }
    let lp = last_index_of(&rest, '+');
    let key_start: usize = match lp {
        Some(i) => i + 1,
        None => 0,
    };
    let key_name = sub_chars(&rest, key_start, rest.len());
    assert(key_name@ =~= rest@.skip(last_index(rest@, '+') + 1));
    if key_name.len() == 0 {
        return Err(HotkeyError::MissingKeyName(string_of(&v)));
    }
    let bits: u8 = match lp {
        None => {
            assert(fold_mods(Seq::<Seq<char>>::empty()) == Ok::<u8, Seq<char>>(0));
            0
        },
        Some(i) => {
            let m = sub_chars(&rest, 0, i);
            assert(m@ =~= rest@.take(i as int));
            match parse_modifier_segments(&m) {
                Ok(b) => b,
                Err(e) => {
                    return Err(HotkeyError::UnknownModifier(string_of(&e)));
                },
            }
        },
    };
    let kname = string_of(&key_name);
    match key_name_to_vk(kname.as_str()) {
        Some(k) => Ok(TriggerConfig::Key(TriggerKeys { modifiers: bits, key: k })),
        None => Err(HotkeyError::UnknownKeyName(kname)),
    }
}

/// The `one_key_trigger` setting: empty (after trimming) disables it;
/// otherwise `key:` (any case) and one of ctrl, alt, f1..f24 (any case), not
/// a chord.
pub open spec fn parse_one_key_spec(s: Seq<char>) -> Result<Option<OneKeyTrigger>, HotkeyErrorView> {
    let t = trim(s);
    if t.len() == 0 {
        Ok(None)
    } else if !(t.len() >= 4 && eq_ignore_ascii_case(t.take(4), "key:"@)) {
        Err(HotkeyErrorView::OneKeyMissingPrefix(t))
    } else {
        let rest = t.skip(4);
        if rest.contains('+') {
            Err(HotkeyErrorView::OneKeyChord(t))
        } else {
            let lower = unicode_lower(rest);
            if lower == "ctrl"@ {
                Ok(Some(OneKeyTrigger::Ctrl))
            } else if lower == "alt"@ {
                Ok(Some(OneKeyTrigger::Alt))
            } else {
                match fkey_number(lower) {
                    Some(k) => Ok(Some(OneKeyTrigger::Function((0x6F + k) as u32))),
                    None => Err(HotkeyErrorView::OneKeyUnsupported(t)),
                }
            }
        }
    }
}

/// Parse the `one_key_trigger` setting. The `key:` prefix is compared on the
/// first four bytes of the trimmed text, so text whose fourth byte ends
/// inside a multi-byte character is outside the domain (slicing there
/// panics).
pub fn parse_one_key_trigger(s: &str) -> (r: Result<Option<OneKeyTrigger>, HotkeyError>)
    requires
        short_or_boundary_at(trim(s@), 4),
    ensures
        result_view(r) == parse_one_key_spec(s@),
{
    proof {
        reveal_strlit("key:");
    }
    let v = trim_chars(&chars_of(s));
    if v.len() == 0 {
        return Ok(None);
    }
    let prefix = chars_of("key:");
    let has_prefix = v.len() >= 4 && chars_eq_ignore_ascii_case(&sub_chars(&v, 0, 4), &prefix);
    if !has_prefix {
        return Err(HotkeyError::OneKeyMissingPrefix(string_of(&v)));
    }
    let rest = sub_chars(&v, 4, v.len());
    assert(rest@ =~= v@.skip(4));
    if contains_char(&rest, '+') {
        return Err(HotkeyError::OneKeyChord(string_of(&v)));
    }
    let lower = lower_chars(string_of(&rest).as_str());
    if chars_eq_str(&lower, "ctrl") {
        Ok(Some(OneKeyTrigger::Ctrl))
    } else if chars_eq_str(&lower, "alt") {
        Ok(Some(OneKeyTrigger::Alt))
    } else {
        match fkey_number_exec(&lower) {
            Some(k) => Ok(Some(OneKeyTrigger::Function(0x6F + k))),
            None => Err(HotkeyError::OneKeyUnsupported(string_of(&v))),
        }
    }
}

} // verus!

verus! {

// ── Hook decisions ───────────────────────────────────────────────────────────

/// State of the keyboard hook: its mode, the modifier bits currently held,
/// and whether the chord's main key is held.
#[derive(Debug, Clone, Copy, PartialEq, Eq, Structural)]
pub struct KeyboardState {
    pub mode: HookMode,
    pub mods_down: u8,
    pub key_down: bool,
}

impl KeyboardState {
    /// Idle, nothing held.
    pub fn new() -> (r: KeyboardState)
        ensures
            r == (KeyboardState { mode: HookMode::Idle, mods_down: 0, key_down: false }),
    {
        KeyboardState { mode: HookMode::Idle, mods_down: 0, key_down: false }
    }
}

/// A key-down message (`WM_KEYDOWN` or `WM_SYSKEYDOWN`).
pub open spec fn is_key_down_msg(msg: u32) -> bool {
    msg == WM_KEYDOWN || msg == WM_SYSKEYDOWN
}

/// A key-up message (`WM_KEYUP` or `WM_SYSKEYUP`).
pub open spec fn is_key_up_msg(msg: u32) -> bool {
    msg == WM_KEYUP || msg == WM_SYSKEYUP
}

/// Whether `vk` is the chord's main key.
pub open spec fn is_chord_main_spec(trigger: TriggerConfig, vk: u32) -> bool {
    match trigger {
        TriggerConfig::Key(tk) => vk == tk.key,
        TriggerConfig::Mouse(_) => false,
    }
}

/// Whether `vk` is the one-key trigger, when one is configured.
pub open spec fn is_one_key_spec(one_key: Option<OneKeyTrigger>, vk: u32) -> bool {
    match one_key {
        Some(t) => matches_one_key_spec(vk, t),
        None => false,
    }
}

/// The keyboard hook's decision for message `msg` about key `vk`: update the
/// held modifiers and main key, then decide as [`step_spec`] does, with the
/// chord complete when every required modifier bit and the main key are held
/// (never, for a mouse trigger) and the chord's parts being its main key and
/// any required modifier.
pub open spec fn keyboard_step_spec(
    state: KeyboardState,
    trigger: TriggerConfig,
    one_key: Option<OneKeyTrigger>,
    vk: u32,
    msg: u32,
) -> (KeyboardState, Option<HotkeyEvent>) {
    let is_down = is_key_down_msg(msg);
    let is_up = is_key_up_msg(msg);
    let this_mod = mod_bit_spec(vk);
    let is_chord_main = is_chord_main_spec(trigger, vk);
    let is_one_key = is_one_key_spec(one_key, vk);
    let mods = if is_down && this_mod != 0 {
        state.mods_down | this_mod
    } else if is_up && this_mod != 0 {
        state.mods_down & !this_mod
    } else {
        state.mods_down
    };
    let key = if is_down && is_chord_main {
        true
    } else if is_up && is_chord_main {
        false
    } else {
        state.key_down
    };
    let req = trigger.required_mods_spec();
    let chord_ok = match trigger {
        TriggerConfig::Key(_) => (mods & req) == req && key,
        TriggerConfig::Mouse(_) => false,
    };
    let inp = StepInput {
        is_down,
        is_up,
        chord_ok,
        chord_part: is_chord_main || (this_mod & req) != 0,
        is_one_key,
    };
    let (mode, ev) = step_spec(state.mode, inp);
    (KeyboardState { mode, mods_down: mods, key_down: key }, ev)
}

/// The keyboard hook's decision for one message (see [`keyboard_step_spec`]).
pub fn keyboard_step(
    state: KeyboardState,
    trigger: TriggerConfig,
    one_key: Option<OneKeyTrigger>,
    vk: u32,
    msg: u32,
) -> (r: (KeyboardState, Option<HotkeyEvent>))
    ensures
        r == keyboard_step_spec(state, trigger, one_key, vk, msg),
{
    let is_down = msg == WM_KEYDOWN || msg == WM_SYSKEYDOWN;
    let is_up = msg == WM_KEYUP || msg == WM_SYSKEYUP;
    let this_mod = vk_to_mod_bit(vk);
    let is_chord_main = match trigger {
        TriggerConfig::Key(tk) => vk == tk.key,
        TriggerConfig::Mouse(_) => false,
    };
    let is_one_key = match one_key {
        Some(t) => matches_one_key(vk, t),
        None => false,
    };
    let mut mods = state.mods_down;
    if is_down && this_mod != 0 {
        mods = mods | this_mod;
    } else if is_up && this_mod != 0 {
        mods = mods & !this_mod;
    }
    let mut key = state.key_down;
    if is_down && is_chord_main {
        key = true;
    }
    if is_up && is_chord_main {
        key = false;
    }
    let req = trigger.required_mods();
    let chord_ok = match trigger {
        TriggerConfig::Key(_) => (mods & req) == req && key,
        TriggerConfig::Mouse(_) => false,
    };
    let inp = StepInput {
        is_down,
        is_up,
        chord_ok,
        chord_part: is_chord_main || (this_mod & req) != 0,
        is_one_key,
    };
    let (mode, ev) = crate::ptt::step(state.mode, inp);
    (KeyboardState { mode, mods_down: mods, key_down: key }, ev)
}

/// The mouse hook's decision: with a mouse trigger, pressing its button while
/// idle starts a recording and releasing it ends one; nothing else changes.
pub open spec fn mouse_step_spec(mode: HookMode, trigger: TriggerConfig, msg: u32, mouse_data: u32) -> (
    HookMode,
    Option<HotkeyEvent>,
) {
    match trigger {
        TriggerConfig::Mouse(btn) => if mouse_down_spec(msg, btn, mouse_data) && mode
            == HookMode::Idle {
            (HookMode::Chord, Some(HotkeyEvent::Press))
        } else if mouse_up_spec(msg, btn, mouse_data) && mode == HookMode::Chord {
            (HookMode::Idle, Some(HotkeyEvent::Release))
        } else {
            (mode, None)
        },
        TriggerConfig::Key(_) => (mode, None),
    }
}

/// The mouse hook's decision for one message (see [`mouse_step_spec`]).
pub fn mouse_step(mode: HookMode, trigger: TriggerConfig, msg: u32, mouse_data: u32) -> (r: (
    HookMode,
    Option<HotkeyEvent>,
))
    ensures
        r == mouse_step_spec(mode, trigger, msg, mouse_data),
{
    match trigger {
        TriggerConfig::Mouse(btn) => {
            if mouse_btn_down(msg, btn, mouse_data) && mode == HookMode::Idle {
                (HookMode::Chord, Some(HotkeyEvent::Press))
            } else if mouse_btn_up(msg, btn, mouse_data) && mode == HookMode::Chord {
                (HookMode::Idle, Some(HotkeyEvent::Release))
            } else {
                (mode, None)
            }
        },
        TriggerConfig::Key(_) => (mode, None),
    }
}

// ── Laws of the trigger parser ───────────────────────────────────────────────

/// The modifier bit of a name that is a modifier name (any case).
pub open spec fn name_bit(n: Seq<char>) -> u8 {
    modifier_bit_spec(unicode_lower(n))->0
}

/// Every name of the list is a modifier name (any case).
pub open spec fn all_modifier_names(parts: Seq<Seq<char>>) -> bool {
    forall|i: int| 0 <= i < parts.len() ==> (#[trigger] modifier_bit_spec(unicode_lower(parts[i]))) is Some
}

/// A list of modifier names folds to a bit set that holds each name's bit
/// and lies within any bit set `bound` that holds them all.
pub proof fn lemma_fold_mods_bounds(parts: Seq<Seq<char>>, bound: u8)
    requires
        all_modifier_names(parts),
    ensures
        fold_mods(parts) is Ok,
        forall|i: int|
            0 <= i < parts.len() ==> #[trigger] name_bit(parts[i]) & fold_mods(parts)->Ok_0
                == name_bit(parts[i]),
        (forall|i: int| 0 <= i < parts.len() ==> #[trigger] name_bit(parts[i]) & bound == name_bit(parts[i]))
            ==> fold_mods(parts)->Ok_0 & bound == fold_mods(parts)->Ok_0,
    decreases parts.len(),
{
    if parts.len() > 0 {
        let init = parts.drop_last();
        assert forall|i: int| 0 <= i < init.len() implies (#[trigger] modifier_bit_spec(
            unicode_lower(init[i]),
        )) is Some by {
            assert(init[i] == parts[i]);
        }
        lemma_fold_mods_bounds(init, bound);
        assert(modifier_bit_spec(unicode_lower(parts[parts.len() - 1])) is Some);
        let m = fold_mods(init)->Ok_0;
        let b = name_bit(parts.last());
        assert(fold_mods(parts)->Ok_0 == m | b);
        assert forall|i: int|
            0 <= i < parts.len() implies #[trigger] name_bit(parts[i]) & fold_mods(parts)->Ok_0
            == name_bit(parts[i]) by {
            let x = name_bit(parts[i]);
            if i < parts.len() - 1 {
                assert(init[i] == parts[i]);
                assert(x & m == x);
                assert(x & (m | b) == x) by (bit_vector)
                    requires
                        x & m == x,
                ;
            } else {
                assert(b & (m | b) == b) by (bit_vector);
            }
        }
        if forall|i: int| 0 <= i < parts.len() ==> #[trigger] name_bit(parts[i]) & bound == name_bit(parts[i]) {
            assert forall|i: int| 0 <= i < init.len() implies #[trigger] name_bit(init[i]) & bound
                == name_bit(init[i]) by {
                assert(init[i] == parts[i]);
            }
            assert(name_bit(parts[parts.len() - 1]) & bound == b);
            assert((m | b) & bound == (m | b)) by (bit_vector)
                requires
                    m & bound == m,
                    b & bound == b,
            ;
        }
    } else {
        assert(0u8 & bound == 0u8) by (bit_vector);
    }
}

/// Reordering or repeating the modifiers of a chord changes nothing: two
/// lists of modifier names (any case) that name the same modifiers fold to
/// the same bits.
pub proof fn lemma_modifier_order_irrelevant(a: Seq<Seq<char>>, b: Seq<Seq<char>>)
    requires
        all_modifier_names(a),
        all_modifier_names(b),
        forall|i: int| 0 <= i < a.len() ==> exists|j: int| 0 <= j < b.len() && #[trigger] unicode_lower(a[i]) == #[trigger] unicode_lower(b[j]),
        forall|j: int| 0 <= j < b.len() ==> exists|i: int| 0 <= i < a.len() && #[trigger] unicode_lower(a[i]) == #[trigger] unicode_lower(b[j]),
    ensures
        fold_mods(a) is Ok,
        fold_mods(a) == fold_mods(b),
{
    lemma_fold_mods_bounds(b, 0);
    let rb = fold_mods(b)->Ok_0;
    lemma_fold_mods_bounds(a, rb);
    let ra = fold_mods(a)->Ok_0;
    lemma_fold_mods_bounds(b, ra);
    assert forall|i: int| 0 <= i < a.len() implies #[trigger] name_bit(a[i]) & rb == name_bit(a[i]) by {
        let j = choose|j: int| 0 <= j < b.len() && unicode_lower(a[i]) == unicode_lower(b[j]);
        assert(name_bit(b[j]) & rb == name_bit(b[j]));
    }
    assert forall|j: int| 0 <= j < b.len() implies #[trigger] name_bit(b[j]) & ra == name_bit(b[j]) by {
        let i = choose|i: int| 0 <= i < a.len() && unicode_lower(a[i]) == unicode_lower(b[j]);
        assert(name_bit(a[i]) & ra == name_bit(a[i]));
    }
    assert(ra & rb == ra);
    assert(rb & ra == rb);
    assert(ra == rb) by (bit_vector)
        requires
            ra & rb == ra,
            rb & ra == rb,
    ;
}

/// A chord written as modifier names each followed by `+`, then a key name
/// (none of them holding `+`, the key name not ending in whitespace), parses
/// to the modifiers' bits (or the first unknown modifier) and the key's code
/// (or the unknown key name).
pub proof fn lemma_parse_chord_text(mods: Seq<Seq<char>>, key: Seq<char>)
    requires
        forall|i: int| 0 <= i < mods.len() ==> free_of(#[trigger] mods[i], '+'),
        free_of(key, '+'),
        key.len() > 0,
        !is_ws(key[key.len() - 1]),
    ensures
        parse_trigger_spec("key:"@ + each_followed_by(mods, '+') + key) == (match fold_mods(mods) {
            Err(m) => Err(HotkeyErrorView::UnknownModifier(m)),
            Ok(bits) => match vk_spec(unicode_lower(key)) {
                Some(k) => Ok(TriggerConfig::Key(TriggerKeys { modifiers: bits, key: k })),
                None => Err(HotkeyErrorView::UnknownKeyName(key)),
            },
        }),
{
    reveal_strlit("key:");
    reveal_strlit("mouse:");
    let pre = each_followed_by(mods, '+');
    let body = pre + key;
    let s = "key:"@ + pre + key;
    assert(s =~= "key:"@ + body);
    assert(s[0] == 'k');
    assert(s[s.len() - 1] == key[key.len() - 1]);
    lemma_trim_unchanged(s);
    assert(s.take(4) =~= "key:"@);
    assert(s.skip(4) =~= body);
    if s.len() >= 6 {
        assert(s.take(6)[0] == 'k');
        assert(s.take(6) != "mouse:"@);
    }
    lemma_last_index_append(pre, key, '+');
    if mods.len() == 0 {
        assert(pre =~= Seq::<char>::empty());
        assert(body =~= key);
        assert(last_index(pre, '+') == -1);
        assert(body.skip(0) =~= key);
    } else {
        lemma_split_each_followed_by(mods, '+');
        let lp = pre.len() - 1;
        assert(body.skip(lp + 1) =~= key);
        assert(body.take(lp) =~= pre.drop_last());
    }
}

/// Reordering or repeating the modifiers of a chord changes nothing: two
/// chord texts whose modifier names (any case) name the same modifiers, with
/// the same key name, parse to the same trigger; it is a keyboard chord
/// exactly when the key name is known.
pub proof fn lemma_chord_modifier_order_irrelevant(
    a: Seq<Seq<char>>,
    b: Seq<Seq<char>>,
    key: Seq<char>,
)
    requires
        all_modifier_names(a),
        all_modifier_names(b),
        forall|i: int| 0 <= i < a.len() ==> exists|j: int| 0 <= j < b.len() && #[trigger] unicode_lower(a[i]) == #[trigger] unicode_lower(b[j]),
        forall|j: int| 0 <= j < b.len() ==> exists|i: int| 0 <= i < a.len() && #[trigger] unicode_lower(a[i]) == #[trigger] unicode_lower(b[j]),
        forall|i: int| 0 <= i < a.len() ==> free_of(#[trigger] a[i], '+'),
        forall|j: int| 0 <= j < b.len() ==> free_of(#[trigger] b[j], '+'),
        free_of(key, '+'),
        key.len() > 0,
        !is_ws(key[key.len() - 1]),
    ensures
        parse_trigger_spec("key:"@ + each_followed_by(a, '+') + key) == parse_trigger_spec(
            "key:"@ + each_followed_by(b, '+') + key,
        ),
        parse_trigger_spec("key:"@ + each_followed_by(a, '+') + key) is Ok <==> vk_spec(
            unicode_lower(key),
        ) is Some,
{
    lemma_parse_chord_text(a, key);
    lemma_parse_chord_text(b, key);
    lemma_modifier_order_irrelevant(a, b);
}

// ── Laws of the hooks ────────────────────────────────────────────────────────

/// Both hooks keep press and release paired (they share one mode): every
/// keyboard or mouse decision starts a recording only with a press and ends
/// one only with a release or cancel.
pub proof fn lemma_hooks_pair_events(
    state: KeyboardState,
    trigger: TriggerConfig,
    one_key: Option<OneKeyTrigger>,
    vk: u32,
    msg: u32,
    mouse_data: u32,
)
    ensures
        crate::ptt::event_matches_transition(
            state.mode,
            keyboard_step_spec(state, trigger, one_key, vk, msg).0.mode,
            keyboard_step_spec(state, trigger, one_key, vk, msg).1,
        ),
        crate::ptt::event_matches_transition(
            state.mode,
            mouse_step_spec(state.mode, trigger, msg, mouse_data).0,
            mouse_step_spec(state.mode, trigger, msg, mouse_data).1,
        ),
{
    let is_down = is_key_down_msg(msg);
    let is_up = is_key_up_msg(msg);
    let this_mod = mod_bit_spec(vk);
    let req = trigger.required_mods_spec();
    let mods = if is_down && this_mod != 0 {
        state.mods_down | this_mod
    } else if is_up && this_mod != 0 {
        state.mods_down & !this_mod
    } else {
        state.mods_down
    };
    let key = if is_down && is_chord_main_spec(trigger, vk) {
        true
    } else if is_up && is_chord_main_spec(trigger, vk) {
        false
    } else {
        state.key_down
    };
    let inp = StepInput {
        is_down,
        is_up,
        chord_ok: match trigger {
            TriggerConfig::Key(_) => (mods & req) == req && key,
            TriggerConfig::Mouse(_) => false,
        },
        chord_part: is_chord_main_spec(trigger, vk) || (this_mod & req) != 0,
        is_one_key: is_one_key_spec(one_key, vk),
    };
    crate::ptt::lemma_step_pairs_events(state.mode, inp);
}

/// With a keyboard chord, pressing the main key while every required
/// modifier is held starts a recording from idle.
pub proof fn lemma_full_chord_press_starts(
    state: KeyboardState,
    tk: TriggerKeys,
    one_key: Option<OneKeyTrigger>,
)
    requires
        state.mode == HookMode::Idle,
        state.mods_down & tk.modifiers == tk.modifiers,
    ensures
        keyboard_step_spec(state, TriggerConfig::Key(tk), one_key, tk.key, WM_KEYDOWN).0.mode
            == HookMode::Chord,
        keyboard_step_spec(state, TriggerConfig::Key(tk), one_key, tk.key, WM_KEYDOWN).1 == Some(
            HotkeyEvent::Press,
        ),
{
    let m = mod_bit_spec(tk.key);
    let held = state.mods_down;
    let req = tk.modifiers;
    assert((held | m) & req == req) by (bit_vector)
        requires
            held & req == req,
    ;
}

/// During a chord take, releasing the main key or any required modifier
/// ends it.
pub proof fn lemma_chord_ends_on_any_part_release(
    state: KeyboardState,
    tk: TriggerKeys,
    one_key: Option<OneKeyTrigger>,
    vk: u32,
)
    requires
        state.mode == HookMode::Chord,
        vk == tk.key || mod_bit_spec(vk) & tk.modifiers != 0,
    ensures
        keyboard_step_spec(state, TriggerConfig::Key(tk), one_key, vk, WM_KEYUP).0.mode
            == HookMode::Idle,
        keyboard_step_spec(state, TriggerConfig::Key(tk), one_key, vk, WM_KEYUP).1 == Some(
            HotkeyEvent::Release,
        ),
{
}


/// One message to the hooks: a keyboard message about a key, or a mouse
/// message with its data word.
#[derive(Debug, Clone, Copy, PartialEq, Eq, Structural)]
pub enum HookMessage {
    Key { vk: u32, msg: u32 },
    Mouse { msg: u32, mouse_data: u32 },
}

/// The decision of the hook that receives `m` (both hooks share one mode;
/// the mouse hook changes nothing else).
pub open spec fn hook_step(
    state: KeyboardState,
    trigger: TriggerConfig,
    one_key: Option<OneKeyTrigger>,
    m: HookMessage,
) -> (KeyboardState, Option<HotkeyEvent>) {
    match m {
        HookMessage::Key { vk, msg } => keyboard_step_spec(state, trigger, one_key, vk, msg),
        HookMessage::Mouse { msg, mouse_data } => {
            let (mode, ev) = mouse_step_spec(state.mode, trigger, msg, mouse_data);
            (KeyboardState { mode, ..state }, ev)
        },
    }
}

/// The hooks' decisions over a run of messages: the final state and the
/// reports sent, each with the mode the hook entered.
pub open spec fn hook_run(
    state: KeyboardState,
    trigger: TriggerConfig,
    one_key: Option<OneKeyTrigger>,
    msgs: Seq<HookMessage>,
) -> (KeyboardState, Seq<(HotkeyEvent, HookMode)>)
    decreases msgs.len(),
{
    if msgs.len() == 0 {
        (state, Seq::empty())
    } else {
        let (s1, ev) = hook_step(state, trigger, one_key, msgs[0]);
        let (sf, evs) = hook_run(s1, trigger, one_key, msgs.drop_first());
        (sf, with_report(ev, s1.mode, evs))
    }
}

/// Every keyboard or mouse decision keeps takes well formed.
proof fn lemma_hook_step_keeps_takes(
    state: KeyboardState,
    trigger: TriggerConfig,
    one_key: Option<OneKeyTrigger>,
    m: HookMessage,
)
    ensures
        step_keeps_takes(
            state.mode,
            hook_step(state, trigger, one_key, m).0.mode,
            hook_step(state, trigger, one_key, m).1,
        ),
{
    match m {
        HookMessage::Key { vk, msg } => {
            let is_down = is_key_down_msg(msg);
            let is_up = is_key_up_msg(msg);
            let this_mod = mod_bit_spec(vk);
            let req = trigger.required_mods_spec();
            let mods = if is_down && this_mod != 0 {
                state.mods_down | this_mod
            } else if is_up && this_mod != 0 {
                state.mods_down & !this_mod
            } else {
                state.mods_down
            };
            let key = if is_down && is_chord_main_spec(trigger, vk) {
                true
            } else if is_up && is_chord_main_spec(trigger, vk) {
                false
            } else {
                state.key_down
            };
            let inp = StepInput {
                is_down,
                is_up,
                chord_ok: match trigger {
                    TriggerConfig::Key(_) => (mods & req) == req && key,
                    TriggerConfig::Mouse(_) => false,
                },
                chord_part: is_chord_main_spec(trigger, vk) || (this_mod & req) != 0,
                is_one_key: is_one_key_spec(one_key, vk),
            };
            crate::ptt::lemma_step_keeps_takes(state.mode, inp);
        },
        HookMessage::Mouse { .. } => {},
    }
}

/// Over any run of keyboard and mouse messages the reports form
/// well-formed takes: a press only when no take is open, a release only
/// ending an open take, a cancel only ending a take the one-key trigger
/// opened (never a chord or mouse take); so presses alternate with releases
/// or cancels, and a take is open at the end exactly when the last report
/// was a press.
pub proof fn lemma_hook_run_takes(
    state: KeyboardState,
    trigger: TriggerConfig,
    one_key: Option<OneKeyTrigger>,
    msgs: Seq<HookMessage>,
)
    ensures
        takes_well_formed(
            hook_run(state, trigger, one_key, msgs).1,
            open_take(state.mode),
            open_take(hook_run(state, trigger, one_key, msgs).0.mode),
        ),
        alternates(
            hook_run(state, trigger, one_key, msgs).1.map_values(|p: (HotkeyEvent, HookMode)| p.0),
            recording(state.mode),
            recording(hook_run(state, trigger, one_key, msgs).0.mode),
        ),
    decreases msgs.len(),
{
    let (sf, evs) = hook_run(state, trigger, one_key, msgs);
    if msgs.len() > 0 {
        let (s1, ev) = hook_step(state, trigger, one_key, msgs[0]);
        lemma_hook_run_takes(s1, trigger, one_key, msgs.drop_first());
        lemma_hook_step_keeps_takes(state, trigger, one_key, msgs[0]);
        let (_, rest) = hook_run(s1, trigger, one_key, msgs.drop_first());
        lemma_takes_extend(state.mode, s1.mode, ev, rest, open_take(sf.mode));
    }
    lemma_takes_alternate(evs, open_take(state.mode), open_take(sf.mode));
}


// ── Laws of the key names and of the held modifiers ─────────────────────────

/// A single letter names the key of its uppercase letter (`A`..`Z` are
/// 0x41..0x5A, in either case) and a single digit the top-row digit key,
/// whose code is the digit's own character code (0x30..0x39).
pub proof fn lemma_single_char_vk(c: char)
    ensures
        '0' <= c <= '9' ==> vk_spec(seq![c]) == Some(c as u32) && 0x30 <= c as u32 <= 0x39,
        'A' <= c <= 'Z' ==> vk_spec(seq![c]) == Some(c as u32) && 0x41 <= c as u32 <= 0x5A,
        'a' <= c <= 'z' ==> vk_spec(seq![c]) == Some((0x41 + (c as u32 - 0x61)) as u32),
{
}

/// `f1`..`f9` name the function keys F1..F9 (0x70..0x78).
pub proof fn lemma_fkey_one_digit_vk(d: char)
    requires
        '1' <= d <= '9',
    ensures
        vk_spec(seq!['f', d]) == Some((0x70 + (d as u32 - 0x31)) as u32),
{
    let n = seq!['f', d];
    let ds = seq![d];
    assert(n.drop_first() =~= ds);
    assert(ds.drop_last() =~= Seq::<char>::empty());
    assert(ds.last() == d);
    assert(digits_value(Seq::<char>::empty()) == 0);
    assert(digits_value(ds) == (d as u32 - 48) as nat);
}

/// `f10`..`f24` name the function keys F10..F24 (0x79..0x87).
pub proof fn lemma_fkey_two_digit_vk(t: char, d: char)
    requires
        (t == '1' && '0' <= d <= '9') || (t == '2' && '0' <= d <= '4'),
    ensures
        vk_spec(seq!['f', t, d]) == Some(
            (0x70 + (10 * (t as u32 - 0x30) + (d as u32 - 0x30)) - 1) as u32,
        ),
{
    let n = seq!['f', t, d];
    let ds = seq![t, d];
    assert(n.drop_first() =~= ds);
    assert(ds.drop_last() =~= seq![t]);
    let ts = seq![t];
    assert(ts.drop_last() =~= Seq::<char>::empty());
    assert(ts.last() == t);
    assert(ds.last() == d);
    assert(digits_value(Seq::<char>::empty()) == 0);
    assert(digits_value(ts) == (t as u32 - 48) as nat);
    assert(digits_value(ds) == (t as u32 - 48) * 10 + (d as u32 - 48));
}

/// Whether modifier bit `m` is among the held modifiers `mods`.
pub open spec fn holds(mods: u8, m: u8) -> bool {
    mods & m != 0
}

/// One of the four modifier bits.
pub open spec fn is_mod_bit(m: u8) -> bool {
    m == MOD_CTRL || m == MOD_SHIFT || m == MOD_ALT || m == MOD_SUPER
}

/// Setting or clearing a modifier bit (or none) leaves every other bit.
proof fn lemma_bit_update(x: u8, b: u8, m: u8)
    by (bit_vector)
    requires
        b == 0 || b == 1 || b == 2 || b == 4 || b == 8,
        m == 1 || m == 2 || m == 4 || m == 8,
    ensures
        ((x | b) & m != 0) == (b == m || x & m != 0),
        ((x & !b) & m != 0) == (b != m && x & m != 0),
{
}

/// The keyboard hook tracks the held modifiers: for each modifier, a key-down
/// of one of its keys makes it held, a key-up of one of its keys makes it
/// not held, and every other message leaves it as it was.
pub proof fn lemma_keyboard_tracks_held_modifiers(
    state: KeyboardState,
    trigger: TriggerConfig,
    one_key: Option<OneKeyTrigger>,
    vk: u32,
    msg: u32,
    m: u8,
)
    requires
        is_mod_bit(m),
    ensures
        holds(keyboard_step_spec(state, trigger, one_key, vk, msg).0.mods_down, m) == (if mod_bit_spec(
            vk,
        ) == m && is_key_down_msg(msg) {
            true
        } else if mod_bit_spec(vk) == m && is_key_up_msg(msg) {
            false
        } else {
            holds(state.mods_down, m)
        }),
{
    lemma_bit_update(state.mods_down, mod_bit_spec(vk), m);
}

/// The mouse hook never changes the held modifiers.
pub proof fn lemma_mouse_keeps_held_modifiers(
    state: KeyboardState,
    trigger: TriggerConfig,
    one_key: Option<OneKeyTrigger>,
    msg: u32,
    mouse_data: u32,
)
    ensures
        hook_step(state, trigger, one_key, HookMessage::Mouse { msg, mouse_data }).0.mods_down
            == state.mods_down,
{
}

/// Whether modifier `m` is held after `msgs`, from `held` before them: the
/// last key-down or key-up of one of its keys decides; with none, it is as
/// before.
pub open spec fn held_after(held: bool, msgs: Seq<HookMessage>, m: u8) -> bool
    decreases msgs.len(),
{
    if msgs.len() == 0 {
        held
    } else {
        match msgs.last() {
            HookMessage::Key { vk, msg } => if mod_bit_spec(vk) == m && is_key_down_msg(msg) {
                true
            } else if mod_bit_spec(vk) == m && is_key_up_msg(msg) {
                false
            } else {
                held_after(held, msgs.drop_last(), m)
            },
            HookMessage::Mouse { .. } => held_after(held, msgs.drop_last(), m),
        }
    }
}

/// A run with one more message is the run, then that message.
pub proof fn lemma_hook_run_push(
    state: KeyboardState,
    trigger: TriggerConfig,
    one_key: Option<OneKeyTrigger>,
    msgs: Seq<HookMessage>,
    x: HookMessage,
)
    ensures
        hook_run(state, trigger, one_key, msgs.push(x)).0 == hook_step(
            hook_run(state, trigger, one_key, msgs).0,
            trigger,
            one_key,
            x,
        ).0,
        hook_run(state, trigger, one_key, msgs.push(x)).1 == hook_run(state, trigger, one_key, msgs).1
            + with_report(
            hook_step(hook_run(state, trigger, one_key, msgs).0, trigger, one_key, x).1,
            hook_step(hook_run(state, trigger, one_key, msgs).0, trigger, one_key, x).0.mode,
            Seq::empty(),
        ),
    decreases msgs.len(),
{
    let px = msgs.push(x);
    if msgs.len() == 0 {
        assert(px.drop_first() =~= Seq::<HookMessage>::empty());
        assert(px[0] == x);
        let (s1, ev) = hook_step(state, trigger, one_key, x);
        assert(hook_run(s1, trigger, one_key, Seq::<HookMessage>::empty()) == (
            s1,
            Seq::<(HotkeyEvent, HookMode)>::empty(),
        ));
        assert(hook_run(state, trigger, one_key, px) == (
            s1,
            with_report(ev, s1.mode, Seq::empty()),
        ));
        assert(hook_run(state, trigger, one_key, msgs) == (
            state,
            Seq::<(HotkeyEvent, HookMode)>::empty(),
        ));
        assert(with_report(ev, s1.mode, Seq::empty()) =~= Seq::<(HotkeyEvent, HookMode)>::empty()
            + with_report(ev, s1.mode, Seq::empty()));
    } else {
        let (s1, ev) = hook_step(state, trigger, one_key, msgs[0]);
        assert(px.drop_first() =~= msgs.drop_first().push(x));
        assert(px[0] == msgs[0]);
        lemma_hook_run_push(s1, trigger, one_key, msgs.drop_first(), x);
        let (mid, rest) = hook_run(s1, trigger, one_key, msgs.drop_first());
        let (s2, ev2) = hook_step(mid, trigger, one_key, x);
        let last = with_report(ev2, s2.mode, Seq::empty());
        assert(hook_run(s1, trigger, one_key, msgs.drop_first().push(x)) == (s2, rest + last));
        assert(hook_run(state, trigger, one_key, px) == (
            s2,
            with_report(ev, s1.mode, rest + last),
        ));
        assert(hook_run(state, trigger, one_key, msgs) == (mid, with_report(ev, s1.mode, rest)));
        match ev {
            Some(e) => {
                assert(seq![(e, s1.mode)] + (rest + last) =~= (seq![(e, s1.mode)] + rest) + last);
            },
            None => {},
        }
    }
}

/// Over any run of messages the hooks hold exactly the modifiers whose last
/// key message was a key-down (or, without one, those held before).
pub proof fn lemma_hook_run_held_modifiers(
    state: KeyboardState,
    trigger: TriggerConfig,
    one_key: Option<OneKeyTrigger>,
    msgs: Seq<HookMessage>,
    m: u8,
)
    requires
        is_mod_bit(m),
    ensures
        holds(hook_run(state, trigger, one_key, msgs).0.mods_down, m) == held_after(
            holds(state.mods_down, m),
            msgs,
            m,
        ),
    decreases msgs.len(),
{
    if msgs.len() > 0 {
        let init = msgs.drop_last();
        let x = msgs.last();
        assert(init.push(x) =~= msgs);
        lemma_hook_run_push(state, trigger, one_key, init, x);
        lemma_hook_run_held_modifiers(state, trigger, one_key, init, m);
        let mid = hook_run(state, trigger, one_key, init).0;
        match x {
            HookMessage::Key { vk, msg } => {
                lemma_keyboard_tracks_held_modifiers(mid, trigger, one_key, vk, msg, m);
            },
            HookMessage::Mouse { msg, mouse_data } => {
                lemma_mouse_keeps_held_modifiers(mid, trigger, one_key, msg, mouse_data);
            },
        }
    }
}

/// Whether key `key` is held after `msgs`, from `held` before them: its last
/// key-down or key-up decides; with none, it is as before.
pub open spec fn key_held_after(held: bool, msgs: Seq<HookMessage>, key: u32) -> bool
    decreases msgs.len(),
{
    if msgs.len() == 0 {
        held
    } else {
        match msgs.last() {
            HookMessage::Key { vk, msg } => if vk == key && is_key_down_msg(msg) {
                true
            } else if vk == key && is_key_up_msg(msg) {
                false
            } else {
                key_held_after(held, msgs.drop_last(), key)
            },
            HookMessage::Mouse { .. } => key_held_after(held, msgs.drop_last(), key),
        }
    }
}

/// With a keyboard chord, over any run of messages the hook holds the
/// chord's main key exactly when its last key message was a key-down (or,
/// without one, as before).
pub proof fn lemma_hook_run_main_key(
    state: KeyboardState,
    tk: TriggerKeys,
    one_key: Option<OneKeyTrigger>,
    msgs: Seq<HookMessage>,
)
    ensures
        hook_run(state, TriggerConfig::Key(tk), one_key, msgs).0.key_down == key_held_after(
            state.key_down,
            msgs,
            tk.key,
        ),
    decreases msgs.len(),
{
    if msgs.len() > 0 {
        let init = msgs.drop_last();
        let x = msgs.last();
        assert(init.push(x) =~= msgs);
        lemma_hook_run_push(state, TriggerConfig::Key(tk), one_key, init, x);
        lemma_hook_run_main_key(state, tk, one_key, init);
    }
}

/// A keyboard chord starts a recording only when every modifier it
/// requires is held: over any run of messages whose last message reports a
/// press and enters the chord take, each required modifier had a key-down
/// with no key-up after it (or was held before the run and never released),
/// the main key is held in the same sense, and that last message is a key
/// going down.
pub proof fn lemma_chord_press_needs_held_modifiers(
    state: KeyboardState,
    tk: TriggerKeys,
    one_key: Option<OneKeyTrigger>,
    msgs: Seq<HookMessage>,
    x: HookMessage,
    m: u8,
)
    requires
        is_mod_bit(m),
        tk.modifiers & m != 0,
        hook_step(
            hook_run(state, TriggerConfig::Key(tk), one_key, msgs).0,
            TriggerConfig::Key(tk),
            one_key,
            x,
        ).1 == Some(HotkeyEvent::Press),
        hook_step(
            hook_run(state, TriggerConfig::Key(tk), one_key, msgs).0,
            TriggerConfig::Key(tk),
            one_key,
            x,
        ).0.mode == HookMode::Chord,
    ensures
        held_after(holds(state.mods_down, m), msgs.push(x), m),
        key_held_after(state.key_down, msgs.push(x), tk.key),
        x matches HookMessage::Key { vk, msg } && is_key_down_msg(msg),
{
    let trigger = TriggerConfig::Key(tk);
    lemma_hook_run_main_key(state, tk, one_key, msgs.push(x));
    lemma_hook_run_push(state, trigger, one_key, msgs, x);
    lemma_hook_run_held_modifiers(state, trigger, one_key, msgs.push(x), m);
    let after = hook_run(state, trigger, one_key, msgs.push(x)).0.mods_down;
    let req = tk.modifiers;
    assert(after & req == req);
    assert(after & m != 0) by (bit_vector)
        requires
            after & req == req,
            req & m != 0,
    ;
}


/// Each modifier's name and its keys agree: `ctrl` and both Ctrl keys are
/// the Ctrl bit, `shift` and both Shift keys the Shift bit, `alt` and both
/// Alt keys the Alt bit, `super`/`win` and both Windows keys the Super bit;
/// the four bits are distinct and no other key is a modifier.
pub proof fn lemma_modifier_names_match_keys(vk: u32)
    ensures
        modifier_bit_spec("ctrl"@) == Some(MOD_CTRL),
        mod_bit_spec(VK_LCONTROL) == MOD_CTRL && mod_bit_spec(VK_RCONTROL) == MOD_CTRL,
        modifier_bit_spec("shift"@) == Some(MOD_SHIFT),
        mod_bit_spec(VK_LSHIFT) == MOD_SHIFT && mod_bit_spec(VK_RSHIFT) == MOD_SHIFT,
        modifier_bit_spec("alt"@) == Some(MOD_ALT),
        mod_bit_spec(VK_LMENU) == MOD_ALT && mod_bit_spec(VK_RMENU) == MOD_ALT,
        modifier_bit_spec("super"@) == Some(MOD_SUPER) && modifier_bit_spec("win"@) == Some(MOD_SUPER),
        mod_bit_spec(VK_LWIN) == MOD_SUPER && mod_bit_spec(VK_RWIN) == MOD_SUPER,
        MOD_CTRL != MOD_SHIFT && MOD_CTRL != MOD_ALT && MOD_CTRL != MOD_SUPER && MOD_SHIFT != MOD_ALT
            && MOD_SHIFT != MOD_SUPER && MOD_ALT != MOD_SUPER,
        is_mod_bit(mod_bit_spec(vk)) || mod_bit_spec(vk) == 0,
        mod_bit_spec(vk) != 0 <==> (vk == VK_LCONTROL || vk == VK_RCONTROL || vk == VK_LSHIFT || vk
            == VK_RSHIFT || vk == VK_LMENU || vk == VK_RMENU || vk == VK_LWIN || vk == VK_RWIN),
{
    reveal_strlit("ctrl");
    reveal_strlit("shift");
    reveal_strlit("alt");
    reveal_strlit("super");
    reveal_strlit("win");
    assert("shift"@.len() != "ctrl"@.len());
    assert("alt"@.len() != "ctrl"@.len() && "alt"@.len() != "shift"@.len());
    assert("super"@.len() != "ctrl"@.len() && "super"@.len() != "alt"@.len());
    assert("super"@[1] != "shift"@[1]);
    assert("win"@.len() != "ctrl"@.len() && "win"@.len() != "shift"@.len());
    assert("win"@[0] != "alt"@[0] && "win"@.len() != "super"@.len());
}

} // verus!
