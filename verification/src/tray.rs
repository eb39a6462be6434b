//! Tray state, its icon colours and tooltips, the procedurally drawn icon,
//! and the mapping from menu-item IDs to actions.
use vstd::prelude::*;

use crate::text::{chars_eq_str, chars_of};

pub mod id;

verus! {

broadcast use vstd::string::group_string_axioms;

/// Live operational state shown by the tray icon.
#[derive(Debug, Clone, Copy, PartialEq, Eq, Structural)]
pub enum TrayState {
    Idle,
    Recording,
    Uploading,
    Error,
}

/// RGBA tint of each state: green idle, red recording, blue uploading,
/// amber error.
pub open spec fn tint_spec(s: TrayState) -> [u8; 4] {
    match s {
        TrayState::Idle => [40, 180, 40, 255],
        TrayState::Recording => [220, 40, 40, 255],
        TrayState::Uploading => [40, 100, 220, 255],
        TrayState::Error => [240, 180, 40, 255],
    }
}

/// The tooltip of each state.
pub open spec fn tooltip_spec(s: TrayState) -> Seq<char> {
    match s {
        TrayState::Idle => "GhostScribe — idle"@,
        TrayState::Recording => "GhostScribe — recording…"@,
        TrayState::Uploading => "GhostScribe — uploading…"@,
        TrayState::Error => "GhostScribe — error (see log)"@,
    }
}

impl TrayState {
    /// The icon colour of this state.
    pub fn tint(self) -> (r: [u8; 4])
        ensures
            r == tint_spec(self),
    {
        match self {
            TrayState::Idle => [40, 180, 40, 255],
            TrayState::Recording => [220, 40, 40, 255],
            TrayState::Uploading => [40, 100, 220, 255],
            TrayState::Error => [240, 180, 40, 255],
        }
    }

    /// The tooltip of this state.
    pub fn tooltip(self) -> (r: &'static str)
        ensures
            r@ == tooltip_spec(self),
    {
        match self {
            TrayState::Idle => "GhostScribe — idle",
            TrayState::Recording => "GhostScribe — recording…",
            TrayState::Uploading => "GhostScribe — uploading…",
            TrayState::Error => "GhostScribe — error (see log)",
        }
    }
}

/// What the tray icon shows: the state (its colour) and the tooltip.
pub struct TrayDisplay {
    pub state: TrayState,
    pub tooltip: String,
}

/// The tooltip with a suffix: the state's tooltip, ` — `, the suffix.
pub open spec fn tooltip_with(s: TrayState, suffix: Seq<char>) -> Seq<char> {
    tooltip_spec(s) + " — "@ + suffix
}

impl TrayDisplay {
    /// A fresh icon: idle, with the idle tooltip.
    pub fn new() -> (d: TrayDisplay)
        ensures
            d.state == TrayState::Idle,
            d.tooltip@ == tooltip_spec(TrayState::Idle),
    {
        TrayDisplay { state: TrayState::Idle, tooltip: TrayState::Idle.tooltip().to_string() }
    }

    /// Switch to `state`. A new state redraws the icon and resets the
    /// tooltip to the state's own; setting the current state again changes
    /// nothing. Returns whether the icon must be redrawn.
    pub fn set_state(&mut self, state: TrayState) -> (changed: bool)
        ensures
            changed == (old(self).state != state),
            final(self).state == state,
            changed ==> final(self).tooltip@ == tooltip_spec(state),
            !changed ==> final(self).tooltip@ == old(self).tooltip@,
    {
        if self.state == state {
            return false;
        }
        self.state = state;
        self.tooltip = state.tooltip().to_string();
        true
    }

    /// Show `suffix` after the current state's tooltip.
    pub fn set_tooltip_suffix(&mut self, suffix: &str)
        ensures
            final(self).state == old(self).state,
            final(self).tooltip@ == tooltip_with(old(self).state, suffix@),
    {
        let mut tip = self.state.tooltip().to_string();
        crate::text::append_str(&mut tip, " — ");
        crate::text::append_str(&mut tip, suffix);
        self.tooltip = tip;
    }
}

/// Every state has its own colour.
pub proof fn lemma_tints_unique(a: TrayState, b: TrayState)
    ensures
        a != b ==> tint_spec(a) != tint_spec(b),
{
    if a != b {
        assert(tint_spec(a)@ != tint_spec(b)@);
    }
}

/// The recording colour is red-dominant ("red = active capture").
pub proof fn lemma_recording_is_red()
    ensures
        tint_spec(TrayState::Recording)@[0] > tint_spec(TrayState::Recording)@[1],
        tint_spec(TrayState::Recording)@[0] > tint_spec(TrayState::Recording)@[2],
        tint_spec(TrayState::Recording)@[3] == 255,
{
}

/// The uploading colour is blue-dominant ("blue = network in flight").
pub proof fn lemma_uploading_is_blue()
    ensures
        tint_spec(TrayState::Uploading)@[2] > tint_spec(TrayState::Uploading)@[0],
        tint_spec(TrayState::Uploading)@[2] > tint_spec(TrayState::Uploading)@[1],
        tint_spec(TrayState::Uploading)@[3] == 255,
{
}

/// The error colour is amber: strong red and green, little blue, so it is
/// neither the recording red nor the idle green.
pub proof fn lemma_error_is_amber()
    ensures
        tint_spec(TrayState::Error)@[0] > tint_spec(TrayState::Error)@[2],
        tint_spec(TrayState::Error)@[1] > tint_spec(TrayState::Error)@[2],
        tint_spec(TrayState::Error)@[0] >= tint_spec(TrayState::Error)@[1],
        tint_spec(TrayState::Error)@[1] >= 128,
        tint_spec(TrayState::Error)@[3] == 255,
{
}

/// The idle colour is green-dominant.
pub proof fn lemma_idle_is_green()
    ensures
        tint_spec(TrayState::Idle)@[1] > tint_spec(TrayState::Idle)@[0],
        tint_spec(TrayState::Idle)@[1] > tint_spec(TrayState::Idle)@[2],
{
}

/// A click on a tray menu item.
#[derive(Debug, Clone, Copy, PartialEq, Eq, Structural)]
pub enum MenuAction {
    EditConfig,
    RevealConfig,
    ReloadConfig,
    ShowLog,
    ToggleLog,
    Restart,
    About,
    Quit,
}

/// The action of the menu item with ID `s`, if any.
pub open spec fn from_id_spec(s: Seq<char>) -> Option<MenuAction> {
    if s == id::EDIT_CONFIG@ {
        Some(MenuAction::EditConfig)
    } else if s == id::REVEAL_CONFIG@ {
        Some(MenuAction::RevealConfig)
    } else if s == id::RELOAD_CONFIG@ {
        Some(MenuAction::ReloadConfig)
    } else if s == id::SHOW_LOG@ {
        Some(MenuAction::ShowLog)
    } else if s == id::TOGGLE_LOG@ {
        Some(MenuAction::ToggleLog)
    } else if s == id::RESTART@ {
        Some(MenuAction::Restart)
    } else if s == id::ABOUT@ {
        Some(MenuAction::About)
    } else if s == id::QUIT@ {
        Some(MenuAction::Quit)
    } else {
        None
    }
}

impl MenuAction {
    /// Parse a menu-item ID.
    pub fn from_id(s: &str) -> (r: Option<MenuAction>)
        ensures
            r == from_id_spec(s@),
    {
        let v = chars_of(s);
        if chars_eq_str(&v, id::EDIT_CONFIG) {
            Some(MenuAction::EditConfig)
        } else if chars_eq_str(&v, id::REVEAL_CONFIG) {
            Some(MenuAction::RevealConfig)
        } else if chars_eq_str(&v, id::RELOAD_CONFIG) {
            Some(MenuAction::ReloadConfig)
        } else if chars_eq_str(&v, id::SHOW_LOG) {
            Some(MenuAction::ShowLog)
        } else if chars_eq_str(&v, id::TOGGLE_LOG) {
            Some(MenuAction::ToggleLog)
        } else if chars_eq_str(&v, id::RESTART) {
            Some(MenuAction::Restart)
        } else if chars_eq_str(&v, id::ABOUT) {
            Some(MenuAction::About)
        } else if chars_eq_str(&v, id::QUIT) {
            Some(MenuAction::Quit)
        } else {
            None
        }
    }
}

} // verus!

verus! {

/// Every menu-item ID maps to its own action, and only these IDs map to one.
pub proof fn lemma_from_id_round_trip()
    ensures
        from_id_spec(id::EDIT_CONFIG@) == Some(MenuAction::EditConfig),
        from_id_spec(id::REVEAL_CONFIG@) == Some(MenuAction::RevealConfig),
        from_id_spec(id::RELOAD_CONFIG@) == Some(MenuAction::ReloadConfig),
        from_id_spec(id::SHOW_LOG@) == Some(MenuAction::ShowLog),
        from_id_spec(id::TOGGLE_LOG@) == Some(MenuAction::ToggleLog),
        from_id_spec(id::RESTART@) == Some(MenuAction::Restart),
        from_id_spec(id::ABOUT@) == Some(MenuAction::About),
        from_id_spec(id::QUIT@) == Some(MenuAction::Quit),
        from_id_spec("nope"@) is None,
{
    reveal_strlit("edit-config");
    reveal_strlit("reveal-config");
    reveal_strlit("reload-config");
    reveal_strlit("show-log");
    reveal_strlit("toggle-log");
    reveal_strlit("restart");
    reveal_strlit("about");
    reveal_strlit("quit");
    reveal_strlit("nope");
    assert(id::EDIT_CONFIG == "edit-config");
    assert(id::REVEAL_CONFIG == "reveal-config");
    assert(id::RELOAD_CONFIG == "reload-config");
    assert(id::SHOW_LOG == "show-log");
    assert(id::TOGGLE_LOG == "toggle-log");
    assert(id::RESTART == "restart");
    assert(id::ABOUT == "about");
    assert(id::QUIT == "quit");
    assert("edit-config"@.len() == 11);
    assert("reveal-config"@.len() == 13);
    assert("reload-config"@[2] != "reveal-config"@[2]);
    assert("show-log"@.len() == 8);
    assert("toggle-log"@.len() == 10);
    assert("restart"@.len() == 7);
    assert("about"@.len() == 5);
    assert("quit"@.len() == 4);
    assert("nope"@[0] != "quit"@[0]);
}

// ── Icon ─────────────────────────────────────────────────────────────────────

/// Four times the squared distance of pixel `(x, y)` from the centre
/// `(15.5, 15.5)` of the 32×32 icon: `(2x-31)² + (2y-31)²`.
pub open spec fn dist4(x: int, y: int) -> int {
    (2 * x - 31) * (2 * x - 31) + (2 * y - 31) * (2 * y - 31)
}

/// Number of `k` in `1..=n` with `(6886 - 2k)² >= 65025·s`; for `n = 255`
/// this is `round(255 · (13.5 - d))` where `s = 4d²`.
pub open spec fn ramp_count(s: int, n: int) -> int
    decreases n,
{
    if n <= 0 {
        0
    } else {
        ramp_count(s, n - 1) + if (6886 - 2 * n) * (6886 - 2 * n) >= 65025 * s {
            1int
        } else {
            0int
        }
    }
}

/// Alpha of the pixel at distance `d = sqrt(s)/2` from the centre of a disc
/// of radius 13 with a 1-pixel linear edge: opaque within 12.5, absent from
/// 13.5, `round(255 · (13.5 - d))` in between (the pixel is still painted
/// there, even when that rounds to 0).
pub open spec fn pixel_alpha(s: int) -> Option<int> {
    if s <= 625 {
        Some(255)
    } else if s >= 729 {
        None
    } else {
        Some(ramp_count(s, 255))
    }
}

/// Byte `i` of the 32×32 RGBA icon of `state` (row-major, 4 bytes a pixel,
/// transparent black outside the disc).
pub open spec fn icon_byte(state: TrayState, i: int) -> u8 {
    let p = i / 4;
    let ch = i % 4;
    match pixel_alpha(dist4(p % 32, p / 32)) {
        None => 0,
        Some(a) => if ch == 3 {
            a as u8
        } else {
            tint_spec(state)@[ch]
        },
    }
}

/// `ramp_count` is monotone: once the condition fails for some `k` it fails
/// for every larger `k`.
proof fn lemma_ramp_step(s: int, n: int)
    requires
        0 < n <= 255,
        626 <= s,
    ensures
        (6886 - 2 * n) * (6886 - 2 * n) >= 65025 * s ==> ramp_count(s, n) == n,
    decreases n,
{
    assert(ramp_count(s, 0) == 0);
    if n > 1 {
        assert((6886 - 2 * (n - 1)) * (6886 - 2 * (n - 1)) >= (6886 - 2 * n) * (6886 - 2 * n))
            by (nonlinear_arith)
            requires
                0 < n <= 255,
        ;
        lemma_ramp_step(s, n - 1);
    }
}

proof fn lemma_ramp_tail(s: int, m: int, n: int)
    requires
        0 <= m <= n <= 255,
        (6886 - 2 * (m + 1)) * (6886 - 2 * (m + 1)) < 65025 * s,
    ensures
        ramp_count(s, n) == ramp_count(s, m),
    decreases n - m,
{
    if n > m {
        lemma_ramp_tail(s, m, n - 1);
        assert((6886 - 2 * n) * (6886 - 2 * n) <= (6886 - 2 * (m + 1)) * (6886 - 2 * (m + 1)))
            by (nonlinear_arith)
            requires
                m + 1 <= n <= 255,
        ;
    }
}

/// Whether `(6886 - 2k)² >= 65025·s`.
fn ramp_holds(s: u64, k: u64) -> (r: bool)
    requires
        1 <= k <= 255,
        s < 729,
    ensures
        r == ((6886 - 2 * k) * (6886 - 2 * k) >= 65025 * s),
{
    let a: u64 = 6886 - 2 * k;
    assert(a * a <= 6884 * 6884) by (nonlinear_arith)
        requires
            a <= 6884,
    ;
    a * a >= 65025 * s
}

/// `round(255 · (13.5 - sqrt(s)/2))` for a pixel on the disc's edge.
fn ramp_alpha(s: u64) -> (r: u8)
    requires
        625 < s < 729,
    ensures
        r as int == ramp_count(s as int, 255),
{
    let mut k: u64 = 0;
    assert(ramp_count(s as int, 0) == 0);
    while k < 255 && ramp_holds(s, k + 1)
        invariant
            0 <= k <= 255,
            625 < s < 729,
            ramp_count(s as int, k as int) == k,
        decreases 255 - k,
    {
        k = k + 1;
        proof {
            lemma_ramp_step(s as int, k as int);
        }
    }
    proof {
        if k < 255 {
            lemma_ramp_tail(s as int, k as int, 255);
        }
    }
    k as u8
}

/// `dist4(x, y)` for pixel coordinates.
fn dist4_exec(x: u64, y: u64) -> (r: u64)
    requires
        x < 32,
        y < 32,
    ensures
        r as int == dist4(x as int, y as int),
{
    let dx: u64 = if 2 * x >= 31 {
        2 * x - 31
    } else {
        31 - 2 * x
    };
    let dy: u64 = if 2 * y >= 31 {
        2 * y - 31
    } else {
        31 - 2 * y
    };
    assert(dx * dx <= 31 * 31 && dy * dy <= 31 * 31) by (nonlinear_arith)
        requires
            dx <= 31,
            dy <= 31,
    ;
    assert(dx * dx == (2 * x - 31) * (2 * x - 31)) by (nonlinear_arith)
        requires
            dx == 2 * x - 31 || dx == 31 - 2 * x,
    ;
    assert(dy * dy == (2 * y - 31) * (2 * y - 31)) by (nonlinear_arith)
        requires
            dy == 2 * y - 31 || dy == 31 - 2 * y,
    ;
    dx * dx + dy * dy
}

/// The 32×32 RGBA icon of `state`: a filled disc of radius 13 in the
/// state's tint with a one-pixel antialiased edge, on a transparent
/// background.
pub fn make_icon_rgba(state: TrayState) -> (rgba: Vec<u8>)
    ensures
        rgba@.len() == 4096,
        forall|i: int| 0 <= i < 4096 ==> rgba@[i] == icon_byte(state, i),
{
    let mut rgba: Vec<u8> = vec![0u8; 4096];
    let t = state.tint();
    let mut p: usize = 0;
    while p < 1024
        invariant
            0 <= p <= 1024,
            rgba@.len() == 4096,
            t == tint_spec(state),
            forall|i: int| 0 <= i < 4 * p ==> rgba@[i] == icon_byte(state, i),
            forall|i: int| 4 * p <= i < 4096 ==> rgba@[i] == 0,
        decreases 1024 - p,
    {
        let s = dist4_exec((p % 32) as u64, (p / 32) as u64);
        let i = 4 * p;
        let ghost before = rgba@;
        if s < 729 {
            let a: u8 = if s <= 625 {
                255
            } else {
                ramp_alpha(s)
            };
            rgba.set(i, t[0]);
            rgba.set(i + 1, t[1]);
            rgba.set(i + 2, t[2]);
            rgba.set(i + 3, a);
        }
        assert forall|j: int| 0 <= j < 4 * (p + 1) implies rgba@[j] == icon_byte(state, j) by {
            if j >= 4 * p {
                assert(j / 4 == p);
                assert(j % 4 == j - 4 * p);
            }
        }
        p = p + 1;
    }
    rgba
}

/// The icon has fully opaque pixels (the centre) and fully transparent ones
/// (the corners): it is a disc, not a filled square.
pub proof fn lemma_icon_has_opaque_and_transparent_pixels(state: TrayState)
    ensures
        icon_byte(state, 1983) == 255,
        icon_byte(state, 3) == 0,
{
    assert(1983int / 4 == 495 && 1983int % 4 == 3);
    assert(495int % 32 == 15 && 495int / 32 == 15);
    assert(dist4(15, 15) == 2) by (nonlinear_arith);
    assert(3int / 4 == 0 && 3int % 4 == 3);
    assert(dist4(0, 0) == 1922) by (nonlinear_arith);
}

} // verus!
