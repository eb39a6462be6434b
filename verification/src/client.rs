//! The push-to-talk client's decisions: the "do it now" voice command, what
//! to paste after a transcript arrives, the startup banner, command-line
//! arguments and the launch mode, and short texts shown in the log and the
//! tray.
//!
//! Recording, uploading, clipboard access, key injection and process
//! spawning happen at the program's edge; what they are asked to do is
//! decided here.
use vstd::prelude::*;

use crate::config::{strs_view, url_spec, ClientConfig, ConfigDiff};
use crate::tray::{tooltip_spec, tooltip_with, MenuAction, TrayDisplay, TrayState};
use crate::watcher::WatcherEvent;
use crate::text::{
    append_chars, append_str, chars_eq_str, chars_of, dec, is_whitespace, is_ws, split_whitespace,
    split_ws, string_of, sub_chars, to_lowercase, trim, trim_chars, trim_end_by,
    trim_end_non_alphanumeric, u64_to_dec, unicode_alphanumeric, unicode_lower, words_view,
};

verus! {

broadcast use vstd::string::group_string_axioms;

// ── "do it now" ──────────────────────────────────────────────────────────────

/// The transcript is the voice command "do it now": trimmed, lowercased,
/// without trailing punctuation, its words are exactly `do`, `it`, `now`.
pub open spec fn do_it_now_spec(text: Seq<char>) -> bool {
    let lower = unicode_lower(trim(text));
    let bare = trim_end_by(lower, |c: char| !unicode_alphanumeric(c));
    split_ws(bare) == seq!["do"@, "it"@, "now"@]
}

/// Whether the transcript is the "do it now" command (press Enter instead
/// of pasting).
pub fn is_do_it_now(text: &str) -> (r: bool)
    ensures
        r == do_it_now_spec(text@),
{
    let t = trim_chars(&chars_of(text));
    let lower = chars_of(to_lowercase(string_of(&t).as_str()).as_str());
    let bare = trim_end_non_alphanumeric(&lower);
    let words = split_whitespace(&bare);
    let ghost target = seq!["do"@, "it"@, "now"@];
    proof {
        reveal_strlit("do");
        reveal_strlit("it");
        reveal_strlit("now");
    }
    if words.len() != 3 {
        assert(words_view(words@).len() != target.len());
        return false;
    }
    let a = chars_eq_str(&words[0], "do");
    let b = chars_eq_str(&words[1], "it");
    let c = chars_eq_str(&words[2], "now");
    assert(words_view(words@)[0] == words@[0]@);
    assert(words_view(words@)[1] == words@[1]@);
    assert(words_view(words@)[2] == words@[2]@);
    if a && b && c {
        assert(words_view(words@) =~= target);
        true
    } else {
        assert(words_view(words@) != target) by {
            if words_view(words@) == target {
                assert(words_view(words@)[0] == target[0]);
                assert(words_view(words@)[1] == target[1]);
                assert(words_view(words@)[2] == target[2]);
            }
        }
        false
    }
}

// ── Short texts ──────────────────────────────────────────────────────────────

/// `s` cut to at most `max` characters: when longer, its first `max − 1`
/// characters and an ellipsis.
pub open spec fn truncate_spec(s: Seq<char>, max: nat) -> Seq<char> {
    if s.len() <= max {
        s
    } else {
        s.take(if max == 0 {
            0
        } else {
            max - 1
        }) + seq!['…']
    }
}

/// A cut text is never longer than the limit (for a limit of at least
/// one), and a text within the limit is left as it is.
pub proof fn lemma_truncate_bound(s: Seq<char>, max: nat)
    ensures
        max > 0 ==> truncate_spec(s, max).len() <= max,
        s.len() <= max ==> truncate_spec(s, max) == s,
        s.len() > max ==> truncate_spec(s, max).last() == '…',
{
}

/// Cut `s` to at most `max` characters, marking a cut with `…`.
pub fn truncate(s: &str, max: usize) -> (r: String)
    ensures
        r@ == truncate_spec(s@, max as nat),
{
    let c = chars_of(s);
    if c.len() <= max {
        return s.to_string();
    }
    let keep = if max == 0 {
        0
    } else {
        max - 1
    };
    let mut out = string_of(&sub_chars(&c, 0, keep));
    crate::text::push_char(&mut out, '…');
    assert(c@.subrange(0, keep as int) =~= c@.take(keep as int));
    out
}

/// `"<label><n> chars"`: how long a transcript was, for the tooltip.
pub open spec fn chars_note(label: Seq<char>, text: Seq<char>) -> Seq<char> {
    label + dec(text.len()) + " chars"@
}

/// The tooltip note for a transcript: `label`, its length in characters, and
/// ` chars`.
pub fn chars_note_for(label: &str, text: &str) -> (r: String)
    ensures
        r@ == chars_note(label@, text@),
{
    let n = chars_of(text).len();
    let mut out = label.to_string();
    append_chars(&mut out, &u64_to_dec(n as u64));
    append_str(&mut out, " chars");
    out
}

/// Kibibytes, rounded down, in `bytes` bytes.
pub open spec fn kib(bytes: int) -> int {
    bytes / 1024
}

/// The log line when a recording stops with `n` mono samples.
pub fn stopped_log_line(n: usize) -> (r: String)
    requires
        n * 2 <= usize::MAX,
    ensures
        r@ == "[rec] stopped, "@ + dec(kib(n * 2) as nat) + " kB raw"@,
{
    let mut out = "[rec] stopped, ".to_string();
    append_chars(&mut out, &u64_to_dec((n * 2 / 1024) as u64));
    append_str(&mut out, " kB raw");
    out
}

/// The log line before an upload of `n` encoded bytes in `format`.
pub fn send_log_line(n: usize, format: &str) -> (r: String)
    ensures
        r@ == "[send] "@ + dec(kib(n as int) as nat) + " kB "@ + format@,
{
    let mut out = "[send] ".to_string();
    append_chars(&mut out, &u64_to_dec((n / 1024) as u64));
    append_str(&mut out, " kB ");
    append_str(&mut out, format);
    out
}

// ── Banner ───────────────────────────────────────────────────────────────────

/// `on` or `off`.
pub open spec fn on_off(b: bool) -> Seq<char> {
    if b {
        "on"@
    } else {
        "off"@
    }
}

fn on_off_str(b: bool) -> (r: &'static str)
    ensures
        r@ == on_off(b),
{
    if b {
        "on"
    } else {
        "off"
    }
}

/// The startup banner: mode and URL, config file, trigger, one-key trigger,
/// audio format, auth and paste settings, one line each.
pub open spec fn banner_spec(cfg: crate::config::ConfigView, mode: Seq<char>) -> Seq<Seq<char>> {
    seq![
        "GhostScribe client ("@ + mode + ") -> "@ + url_spec(cfg.server_url, cfg.endpoint),
        match cfg.source_path {
            Some(p) => "config:   "@ + p,
            None => "config:   (defaults, no config file found)"@,
        },
        "trigger:  "@ + cfg.trigger,
        "one_key:  "@ + (if cfg.one_key_trigger.len() == 0 {
            "off"@
        } else {
            cfg.one_key_trigger
        }),
        "format:   "@ + cfg.audio_format,
        "auth:     "@ + on_off(cfg.auth_token.len() > 0),
        "paste:    "@ + on_off(cfg.auto_paste) + " (delay "@ + dec(cfg.paste_delay_ms as nat)
            + " ms)"@,
    ]
}

/// The views of a vector of strings.
pub open spec fn lines_view(v: Seq<String>) -> Seq<Seq<char>> {
    v.map_values(|s: String| s@)
}

fn prefixed(prefix: &str, s: &str) -> (r: String)
    ensures
        r@ == prefix@ + s@,
{
    let mut out = prefix.to_string();
    append_str(&mut out, s);
    out
}

/// The lines of the startup banner for `mode` (`headless` or `tray`).
pub fn banner_lines(cfg: &ClientConfig, mode: &str) -> (r: Vec<String>)
    ensures
        lines_view(r@) == banner_spec(cfg@, mode@),
{
    let mut lines: Vec<String> = Vec::new();
    let mut first = "GhostScribe client (".to_string();
    append_str(&mut first, mode);
    append_str(&mut first, ") -> ");
    append_str(&mut first, cfg.url().as_str());
    lines.push(first);
    let config_line = match &cfg.source_path {
        Some(p) => prefixed("config:   ", p.as_str()),
        None => "config:   (defaults, no config file found)".to_string(),
    };
    lines.push(config_line);
    lines.push(prefixed("trigger:  ", cfg.trigger.as_str()));
    let one_key = if cfg.one_key_trigger.as_str().is_empty() {
        prefixed("one_key:  ", "off")
    } else {
        prefixed("one_key:  ", cfg.one_key_trigger.as_str())
    };
    lines.push(one_key);
    lines.push(prefixed("format:   ", cfg.audio_format.as_str()));
    lines.push(prefixed("auth:     ", on_off_str(cfg.has_auth())));
    let mut paste = prefixed("paste:    ", on_off_str(cfg.auto_paste));
    append_str(&mut paste, " (delay ");
    append_chars(&mut paste, &u64_to_dec(cfg.paste_delay_ms as u64));
    append_str(&mut paste, " ms)");
    lines.push(paste);
    assert(lines_view(lines@) =~= banner_spec(cfg@, mode@));
    lines
}

// ── Pasting a transcript ─────────────────────────────────────────────────────

/// What to do with a transcript once it arrives.
#[derive(Debug, Clone, PartialEq, Eq)]
pub enum PastePlan {
    /// Nothing: the transcript is empty or auto-paste is off.
    Skip,
    /// The "do it now" command: press Enter.
    PressEnter,
    /// Put `text` on the clipboard, press the paste keys after `delay_ms`,
    /// and restore the previous clipboard `restore_ms` later.
    Paste { text: String, delay_ms: u32, restore_ms: u32 },
}

/// Shortest wait before the previous clipboard is restored.
pub const MIN_RESTORE_MS: u32 = 150;

/// A space goes in front of the transcript when smart spacing is on, the
/// previous paste was less than the continuation window ago, and the
/// transcript does not start with whitespace.
pub open spec fn needs_space(
    cfg: crate::config::ConfigView,
    text: Seq<char>,
    since_last_paste_ms: Option<u64>,
) -> bool {
    &&& cfg.smart_space
    &&& since_last_paste_ms matches Some(ms) && ms < cfg.continuation_window_s as int * 1000
    &&& text.len() > 0 && !is_ws(text[0])
}

/// The text pasted for a transcript: an optional leading space, the
/// transcript, and a trailing space.
pub open spec fn paste_text(
    cfg: crate::config::ConfigView,
    text: Seq<char>,
    since_last_paste_ms: Option<u64>,
) -> Seq<char> {
    (if needs_space(cfg, text, since_last_paste_ms) {
        " "@
    } else {
        Seq::empty()
    }) + text + " "@
}

/// Decide what to do with a transcript. `since_last_paste_ms` is the time
/// since the previous paste, if there was one.
pub fn plan_paste(cfg: &ClientConfig, text: &str, since_last_paste_ms: Option<u64>) -> (r:
    PastePlan)
    ensures
        (text@.len() == 0 || !cfg@.auto_paste) ==> r == PastePlan::Skip,
        (text@.len() > 0 && cfg@.auto_paste && do_it_now_spec(text@)) ==> r
            == PastePlan::PressEnter,
        (text@.len() > 0 && cfg@.auto_paste && !do_it_now_spec(text@)) ==> (r matches PastePlan::Paste { text: t, delay_ms, restore_ms } && t@ == paste_text(cfg@, text@, since_last_paste_ms)
            && delay_ms == cfg@.paste_delay_ms && restore_ms == (if cfg@.paste_delay_ms
            < MIN_RESTORE_MS {
            MIN_RESTORE_MS
        } else {
            cfg@.paste_delay_ms
        })),
{
    let chars = chars_of(text);
    if chars.len() == 0 || !cfg.auto_paste {
        return PastePlan::Skip;
    }
    if is_do_it_now(text) {
        return PastePlan::PressEnter;
    }
    let recent = match since_last_paste_ms {
        Some(ms) => (ms as u128) < (cfg.continuation_window_s as u128) * 1000,
        None => false,
    };
    let space = cfg.smart_space && recent && !is_whitespace(chars[0]);
    let mut out = String::new();
    if space {
        append_str(&mut out, " ");
    }
    append_str(&mut out, text);
    append_str(&mut out, " ");
    proof {
        reveal_strlit(" ");
        assert(Seq::<char>::empty() + text@ =~= text@);
    }
    let restore_ms = if cfg.paste_delay_ms < MIN_RESTORE_MS {
        MIN_RESTORE_MS
    } else {
        cfg.paste_delay_ms
    };
    PastePlan::Paste { text: out, delay_ms: cfg.paste_delay_ms, restore_ms }
}

// ── Command line and launch ──────────────────────────────────────────────────

/// The command-line options.
#[derive(Debug, Clone, PartialEq, Eq)]
pub struct Args {
    /// `--config PATH`.
    pub config: Option<String>,
    /// `--detach`.
    pub detach: bool,
    /// `--no-tray`.
    pub no_tray: bool,
    /// `-h` or `--help`: print the help and exit.
    pub help: bool,
}

/// View of [`Args`].
pub struct ArgsView {
    pub config: Option<Seq<char>>,
    pub detach: bool,
    pub no_tray: bool,
    pub help: bool,
}

impl View for Args {
    type V = ArgsView;

    open spec fn view(&self) -> ArgsView {
        ArgsView {
            config: crate::config::opt_view(self.config),
            detach: self.detach,
            no_tray: self.no_tray,
            help: self.help,
        }
    }
}

/// The options after reading `args` (program name excluded), left to
/// right. `--config` takes the next argument (a trailing `--config` is
/// ignored); `--tray` and unknown arguments are ignored; reading stops at
/// the first `-h` or `--help`.
pub open spec fn parse_args_spec(args: Seq<Seq<char>>, acc: ArgsView) -> ArgsView
    decreases args.len(),
{
    if args.len() == 0 {
        acc
    } else {
        let a = args[0];
        if a == "--config"@ {
            if args.len() >= 2 {
                parse_args_spec(args.skip(2), ArgsView { config: Some(args[1]), ..acc })
            } else {
                acc
            }
        } else if a == "--detach"@ {
            parse_args_spec(args.skip(1), ArgsView { detach: true, ..acc })
        } else if a == "--no-tray"@ {
            parse_args_spec(args.skip(1), ArgsView { no_tray: true, ..acc })
        } else if a == "-h"@ || a == "--help"@ {
            ArgsView { help: true, ..acc }
        } else {
            parse_args_spec(args.skip(1), acc)
        }
    }
}

/// No option set.
pub open spec fn no_args() -> ArgsView {
    ArgsView { config: None, detach: false, no_tray: false, help: false }
}

/// Read the command-line options from `args` (program name excluded).
pub fn parse_args(args: &Vec<String>) -> (r: Args)
    ensures
        r@ == parse_args_spec(lines_view(args@), no_args()),
{
    let mut out = Args { config: None, detach: false, no_tray: false, help: false };
    let mut i: usize = 0;
    let ghost all = lines_view(args@);
    assert(all.skip(0) =~= all);
    while i < args.len()
        invariant
            0 <= i <= args@.len(),
            all == lines_view(args@),
            parse_args_spec(all, no_args()) == parse_args_spec(all.skip(i as int), out@),
        decreases args@.len() - i,
    {
        let ghost rest = all.skip(i as int);
        assert(rest[0] == args@[i as int]@);
        let a = chars_of(args[i].as_str());
        if chars_eq_str(&a, "--config") {
            if i + 1 < args.len() {
                assert(rest[1] == args@[i + 1]@);
                out.config = Some(args[i + 1].clone());
                assert(rest.skip(2) =~= all.skip(i + 2));
                i = i + 2;
            } else {
                assert(rest.len() < 2);
                return out;
            }
        } else if chars_eq_str(&a, "--detach") {
            out.detach = true;
            assert(rest.skip(1) =~= all.skip(i + 1));
            i = i + 1;
        } else if chars_eq_str(&a, "--no-tray") {
            out.no_tray = true;
            assert(rest.skip(1) =~= all.skip(i + 1));
            i = i + 1;
        } else if chars_eq_str(&a, "-h") || chars_eq_str(&a, "--help") {
            out.help = true;
            return out;
        } else {
            assert(rest.skip(1) =~= all.skip(i + 1));
            i = i + 1;
        }
    }
    out
}

/// How the process goes on after reading its options.
#[derive(Debug, Clone, PartialEq, Eq)]
pub enum Launch {
    /// Print the help and exit.
    Help,
    /// Re-spawn detached with these extra arguments, then exit.
    Detach { extra: Vec<&'static str> },
    /// Run without a tray icon.
    Headless,
    /// Run with the tray icon.
    Tray,
}

/// Tray mode (the default) always detaches once; headless mode detaches
/// only when asked to; a process that is already the detached child runs.
pub fn launch_mode(args: &Args, already_detached: bool) -> (r: Launch)
    ensures
        args.help ==> r == Launch::Help,
        !args.help && !args.no_tray && !already_detached ==> (r matches Launch::Detach { extra }
            && extra@.len() == 0),
        !args.help && args.no_tray && args.detach && !already_detached ==> (r matches Launch::Detach { extra } && extra@.len() == 1 && extra@[0]@ == "--no-tray"@),
        !args.help && args.no_tray && (!args.detach || already_detached) ==> r == Launch::Headless,
        !args.help && !args.no_tray && already_detached ==> r == Launch::Tray,
{
    if args.help {
        return Launch::Help;
    }
    if !args.no_tray && !already_detached {
        return Launch::Detach { extra: Vec::new() };
    }
    if args.no_tray && args.detach && !already_detached {
        let mut extra: Vec<&'static str> = Vec::new();
        extra.push("--no-tray");
        return Launch::Detach { extra };
    }
    if args.no_tray {
        Launch::Headless
    } else {
        Launch::Tray
    }
}

/// The arguments a detached child gets: this process's arguments without
/// `--detach` and `--tray`, then `extra`.
pub open spec fn forwarded_args_spec(args: Seq<Seq<char>>, extra: Seq<Seq<char>>) -> Seq<
    Seq<char>,
> {
    args.filter(|a: Seq<char>| a != "--detach"@ && a != "--tray"@) + extra
}

/// The arguments for the detached child.
pub fn forwarded_args(args: &Vec<String>, extra: &Vec<&'static str>) -> (r: Vec<String>)
    ensures
        lines_view(r@) == forwarded_args_spec(
            lines_view(args@),
            extra@.map_values(|s: &'static str| s@),
        ),
{
    let ghost keep = |a: Seq<char>| a != "--detach"@ && a != "--tray"@;
    let mut out: Vec<String> = Vec::new();
    let mut i: usize = 0;
    let ghost all = lines_view(args@);
    while i < args.len()
        invariant
            0 <= i <= args@.len(),
            all == lines_view(args@),
            keep == (|a: Seq<char>| a != "--detach"@ && a != "--tray"@),
            lines_view(out@) == all.take(i as int).filter(keep),
        decreases args@.len() - i,
    {
        let a = chars_of(args[i].as_str());
        assert(all.take(i + 1).drop_last() =~= all.take(i as int));
        assert(all.take(i + 1).last() == args@[i as int]@);
        proof {
            all.take(i as int).lemma_filter_push(args@[i as int]@, keep);
            assert(all.take(i as int).push(args@[i as int]@) =~= all.take(i + 1));
        }
        if !(chars_eq_str(&a, "--detach") || chars_eq_str(&a, "--tray")) {
            let ghost before = lines_view(out@);
            out.push(args[i].clone());
            assert(lines_view(out@) =~= before.push(args@[i as int]@));
        }
        i = i + 1;
    }
    assert(all.take(args@.len() as int) =~= all);
    let ghost mid = lines_view(out@);
    let mut j: usize = 0;
    let ghost ex = extra@.map_values(|s: &'static str| s@);
    while j < extra.len()
        invariant
            0 <= j <= extra@.len(),
            ex == extra@.map_values(|s: &'static str| s@),
            lines_view(out@) == mid + ex.take(j as int),
        decreases extra@.len() - j,
    {
        let ghost before = lines_view(out@);
        out.push(extra[j].to_string());
        assert(lines_view(out@) =~= before.push(extra@[j as int]@));
        assert(mid + ex.take(j as int) + seq![ex[j as int]] =~= mid + ex.take(j + 1));
        j = j + 1;
    }
    assert(ex.take(extra@.len() as int) =~= ex);
    out
}

/// The tray's Restart item re-launches in the same mode: headless keeps
/// `--no-tray`, tray mode needs no flag.
pub fn restart_args(no_tray: bool) -> (r: Vec<&'static str>)
    ensures
        no_tray ==> r@.len() == 1 && r@[0]@ == "--no-tray"@,
        !no_tray ==> r@.len() == 0,
{
    let mut v: Vec<&'static str> = Vec::new();
    if no_tray {
        v.push("--no-tray");
    }
    v
}

/// The About box text.
pub fn about_text(version: &str, config_path: Option<&str>, url: &str) -> (r: String)
    ensures
        r@ == "GhostScribe Windows client v"@ + version@ + "\n\nconfig: "@ + (match config_path {
            Some(p) => p@,
            None => "(defaults, no file)"@,
        }) + "\nserver: "@ + url@ + "\n"@,
{
    let mut out = "GhostScribe Windows client v".to_string();
    append_str(&mut out, version);
    append_str(&mut out, "\n\nconfig: ");
    match config_path {
        Some(p) => append_str(&mut out, p),
        None => append_str(&mut out, "(defaults, no file)"),
    }
    append_str(&mut out, "\nserver: ");
    append_str(&mut out, url);
    append_str(&mut out, "\n");
    out
}


// ── Tray event loop ──────────────────────────────────────────────────────────

/// `v` joined with `sep` between consecutive items.
pub open spec fn join_spec(v: Seq<Seq<char>>, sep: Seq<char>) -> Seq<char>
    decreases v.len(),
{
    if v.len() == 0 {
        Seq::empty()
    } else if v.len() == 1 {
        v[0]
    } else {
        join_spec(v.drop_last(), sep) + sep + v.last()
    }
}

/// Join key names with `, `.
pub fn join_names(v: &Vec<&'static str>) -> (r: String)
    ensures
        r@ == join_spec(strs_view(v@), ", "@),
{
    let mut out = String::new();
    let mut i: usize = 0;
    let ghost all = strs_view(v@);
    while i < v.len()
        invariant
            0 <= i <= v@.len(),
            all == strs_view(v@),
            out@ == join_spec(all.take(i as int), ", "@),
        decreases v@.len() - i,
    {
        assert(all.take(i + 1).drop_last() =~= all.take(i as int));
        assert(all.take(i + 1).last() == v@[i as int]@);
        if i > 0 {
            append_str(&mut out, ", ");
        } else {
            assert(out@ =~= Seq::<char>::empty());
        }
        append_str(&mut out, v[i]);
        i = i + 1;
    }
    assert(all.take(v@.len() as int) =~= all);
    out
}

/// `pending` with each key of `keys` appended that it does not hold yet,
/// in order.
pub open spec fn merge_spec(pending: Seq<Seq<char>>, keys: Seq<Seq<char>>) -> Seq<Seq<char>>
    decreases keys.len(),
{
    if keys.len() == 0 {
        pending
    } else {
        let next = if pending.contains(keys[0]) {
            pending
        } else {
            pending.push(keys[0])
        };
        merge_spec(next, keys.drop_first())
    }
}

/// No name occurs twice.
pub open spec fn no_dups(v: Seq<Seq<char>>) -> bool {
    forall|i: int, j: int| 0 <= i < j < v.len() ==> v[i] != v[j]
}

fn str_eq(a: &str, b: &str) -> (r: bool)
    ensures
        r == (a@ == b@),
{
    let x = chars_of(a);
    crate::text::chars_eq_str(&x, b)
}

fn contains_name(v: &Vec<&'static str>, k: &str) -> (r: bool)
    ensures
        r == strs_view(v@).contains(k@),
{
    let mut i: usize = 0;
    while i < v.len()
        invariant
            0 <= i <= v@.len(),
            forall|j: int| 0 <= j < i ==> v@[j]@ != k@,
        decreases v@.len() - i,
    {
        if str_eq(v[i], k) {
            assert(strs_view(v@)[i as int] == k@);
            return true;
        }
        i = i + 1;
    }
    assert(!strs_view(v@).contains(k@)) by {
        if strs_view(v@).contains(k@) {
            let j = choose|j: int| 0 <= j < strs_view(v@).len() && strs_view(v@)[j] == k@;
            assert(v@[j]@ == k@);
        }
    }
    false
}

/// Add the restart-requiring keys not yet pending, keeping the order.
pub fn merge_pending(pending: &mut Vec<&'static str>, keys: &Vec<&'static str>)
    ensures
        strs_view(final(pending)@) == merge_spec(strs_view(old(pending)@), strs_view(keys@)),
{
    let mut i: usize = 0;
    let ghost ks = strs_view(keys@);
    let ghost start = strs_view(pending@);
    assert(ks.skip(0) =~= ks);
    while i < keys.len()
        invariant
            0 <= i <= keys@.len(),
            ks == strs_view(keys@),
            merge_spec(start, ks) == merge_spec(strs_view(pending@), ks.skip(i as int)),
        decreases keys@.len() - i,
    {
        let k = keys[i];
        assert(ks.skip(i as int)[0] == k@);
        assert(ks.skip(i as int).drop_first() =~= ks.skip(i + 1));
        let ghost before = strs_view(pending@);
        if !contains_name(pending, k) {
            pending.push(k);
            assert(strs_view(pending@) =~= before.push(k@));
        }
        i = i + 1;
    }
    assert(ks.skip(keys@.len() as int) =~= Seq::<Seq<char>>::empty());
}

/// The tray session: what the icon shows, whether a recording is running,
/// and the changed keys that wait for a restart.
pub struct TrayLoop {
    pub display: TrayDisplay,
    pub recording: bool,
    pub pending_restart: Vec<&'static str>,
}

/// What the session does for a watcher event besides updating the icon.
pub struct WatcherReaction {
    /// The configuration to make live.
    pub new_config: Option<ClientConfig>,
    /// Lines for the log.
    pub log: Vec<String>,
    /// An error box to show (its body; the title is the parse-error title).
    pub error_box: Option<String>,
}

/// Title of the box that shows a config parse error.
pub const PARSE_ERROR_TITLE: &'static str = "GhostScribe — config parse error";

/// The tray state and tooltip after the changed keys of a reload are
/// applied: hot keys are announced, cold keys join the pending list, turn
/// the icon to error and announce the whole pending list.
pub open spec fn after_changes(
    state: TrayState,
    tooltip: Seq<char>,
    pending: Seq<Seq<char>>,
    hot: Seq<Seq<char>>,
    cold: Seq<Seq<char>>,
) -> (TrayState, Seq<char>) {
    if cold.len() > 0 {
        (
            TrayState::Error,
            tooltip_with(
                TrayState::Error,
                "restart required: "@ + join_spec(merge_spec(pending, cold), ", "@),
            ),
        )
    } else if hot.len() > 0 {
        (state, tooltip_with(state, "reloaded: "@ + join_spec(hot, ", "@)))
    } else {
        (state, tooltip)
    }
}

/// The tooltip after switching the icon from `old_state` (showing
/// `old_tip`) to `state`: the new state's own tooltip on a change, the old
/// tooltip otherwise.
pub open spec fn tooltip_after(old_state: TrayState, old_tip: Seq<char>, state: TrayState) -> Seq<
    char,
> {
    if old_state == state {
        old_tip
    } else {
        tooltip_spec(state)
    }
}

impl TrayLoop {
    /// A fresh session: idle, not recording, nothing pending.
    pub fn new() -> (t: TrayLoop)
        ensures
            t.display.state == TrayState::Idle,
            t.display.tooltip@ == tooltip_spec(TrayState::Idle),
            !t.recording,
            t.pending_restart@.len() == 0,
    {
        TrayLoop { display: TrayDisplay::new(), recording: false, pending_restart: Vec::new() }
    }

    /// The trigger was pressed: recording starts and the icon turns red.
    /// Returns the length of the max-duration timer to start, if any
    /// (`max_record_s` 0 means none).
    pub fn on_press(&mut self, max_record_s: u32) -> (timer_s: Option<u32>)
        ensures
            final(self).recording,
            final(self).display.state == TrayState::Recording,
            final(self).display.tooltip@ == tooltip_after(
                old(self).display.state,
                old(self).display.tooltip@,
                TrayState::Recording,
            ),
            final(self).pending_restart@ == old(self).pending_restart@,
            max_record_s == 0 ==> timer_s is None,
            max_record_s > 0 ==> timer_s == Some(max_record_s),
    {
        self.recording = true;
        self.display.set_state(TrayState::Recording);
        if max_record_s > 0 {
            Some(max_record_s)
        } else {
            None
        }
    }

    /// The one-key recording was cancelled by a foreign key: back to idle.
    pub fn on_cancel(&mut self)
        ensures
            !final(self).recording,
            final(self).display.state == TrayState::Idle,
            final(self).display.tooltip@ == tooltip_after(
                old(self).display.state,
                old(self).display.tooltip@,
                TrayState::Idle,
            ),
            final(self).pending_restart@ == old(self).pending_restart@,
    {
        self.recording = false;
        self.display.set_state(TrayState::Idle);
    }

    /// The trigger was released or the maximum duration passed: the
    /// recording stops; `captured` says whether it held any audio, which is
    /// then uploaded.
    pub fn on_stop(&mut self, captured: bool)
        ensures
            !final(self).recording,
            final(self).display.state == (if captured {
                TrayState::Uploading
            } else {
                TrayState::Idle
            }),
            final(self).display.tooltip@ == tooltip_after(
                old(self).display.state,
                old(self).display.tooltip@,
                final(self).display.state,
            ),
            final(self).pending_restart@ == old(self).pending_restart@,
    {
        self.recording = false;
        if captured {
            self.display.set_state(TrayState::Uploading);
        } else {
            self.display.set_state(TrayState::Idle);
        }
    }

    /// A final upload succeeded with `text`: idle, and the tooltip notes
    /// the transcript's length when there was one.
    pub fn on_upload_ok(&mut self, text: &str)
        ensures
            final(self).display.state == TrayState::Idle,
            text@.len() > 0 ==> final(self).display.tooltip@ == tooltip_with(
                TrayState::Idle,
                chars_note("last: "@, text@),
            ),
            text@.len() == 0 ==> final(self).display.tooltip@ == tooltip_after(
                old(self).display.state,
                old(self).display.tooltip@,
                TrayState::Idle,
            ),
            final(self).recording == old(self).recording,
            final(self).pending_restart@ == old(self).pending_restart@,
    {
        self.display.set_state(TrayState::Idle);
        if !text.is_empty() {
            let note = chars_note_for("last: ", text);
            self.display.set_tooltip_suffix(note.as_str());
        }
    }

    /// A chunk upload succeeded while recording may go on: the icon shows
    /// recording if it still is, idle otherwise.
    pub fn on_chunk_upload_ok(&mut self, text: &str)
        ensures
            final(self).display.state == (if old(self).recording {
                TrayState::Recording
            } else {
                TrayState::Idle
            }),
            text@.len() > 0 ==> final(self).display.tooltip@ == tooltip_with(
                final(self).display.state,
                chars_note("chunk: "@, text@),
            ),
            text@.len() == 0 ==> final(self).display.tooltip@ == tooltip_after(
                old(self).display.state,
                old(self).display.tooltip@,
                final(self).display.state,
            ),
            final(self).recording == old(self).recording,
            final(self).pending_restart@ == old(self).pending_restart@,
    {
        let next = if self.recording {
            TrayState::Recording
        } else {
            TrayState::Idle
        };
        self.display.set_state(next);
        if !text.is_empty() {
            let note = chars_note_for("chunk: ", text);
            self.display.set_tooltip_suffix(note.as_str());
        }
    }

    /// An upload failed: the icon shows the error and the tooltip the
    /// message, cut to 80 characters.
    pub fn on_upload_err(&mut self, msg: &str)
        ensures
            final(self).display.state == TrayState::Error,
            final(self).display.tooltip@ == tooltip_with(TrayState::Error, truncate_spec(msg@, 80)),
            final(self).recording == old(self).recording,
            final(self).pending_restart@ == old(self).pending_restart@,
    {
        self.display.set_state(TrayState::Error);
        let t = truncate(msg, 80);
        self.display.set_tooltip_suffix(t.as_str());
    }

    fn apply_changes(&mut self, hot: &Vec<&'static str>, cold: &Vec<&'static str>, log: &mut Vec<
        String,
    >)
        ensures
            (final(self).display.state, final(self).display.tooltip@) == after_changes(
                old(self).display.state,
                old(self).display.tooltip@,
                strs_view(old(self).pending_restart@),
                strs_view(hot@),
                strs_view(cold@),
            ),
            strs_view(final(self).pending_restart@) == merge_spec(
                strs_view(old(self).pending_restart@),
                strs_view(cold@),
            ),
            final(self).recording == old(self).recording,
    {
        if hot.len() > 0 {
            let mut msg = "reloaded: ".to_string();
            append_str(&mut msg, join_names(hot).as_str());
            log.push(prefixed("[config] ", msg.as_str()));
            self.display.set_tooltip_suffix(msg.as_str());
        }
        if cold.len() > 0 {
            merge_pending(&mut self.pending_restart, cold);
            let joined = join_names(&self.pending_restart);
            log.push(prefixed("[config] restart required: ", joined.as_str()));
            self.display.set_state(TrayState::Error);
            let msg = prefixed("restart required: ", joined.as_str());
            self.display.set_tooltip_suffix(msg.as_str());
        } else {
            assert(strs_view(cold@).len() == 0);
            assert(merge_spec(strs_view(old(self).pending_restart@), strs_view(cold@))
                == strs_view(old(self).pending_restart@));
        }
    }

    /// React to a watcher event: a reload makes the new configuration live
    /// and is announced (cold keys also wait for a restart); a parse error
    /// turns the icon to error and asks for an error box; a missing file is
    /// noted in the tooltip.
    pub fn on_watcher_event(&mut self, ev: WatcherEvent) -> (r: WatcherReaction)
        ensures
            final(self).recording == old(self).recording,
            match ev {
                WatcherEvent::Reloaded { new_config, diff } => {
                    &&& r.new_config matches Some(c) && c@ == new_config@
                    &&& r.error_box is None
                    &&& (final(self).display.state, final(self).display.tooltip@)
                        == after_changes(
                        old(self).display.state,
                        old(self).display.tooltip@,
                        strs_view(old(self).pending_restart@),
                        strs_view(diff.hot_changed@),
                        strs_view(diff.cold_changed@),
                    )
                    &&& strs_view(final(self).pending_restart@) == merge_spec(
                        strs_view(old(self).pending_restart@),
                        strs_view(diff.cold_changed@),
                    )
                },
                WatcherEvent::ParseError { message } => {
                    &&& r.new_config is None
                    &&& r.error_box matches Some(b) && b@ == message@
                    &&& final(self).display.state == TrayState::Error
                    &&& final(self).display.tooltip@ == tooltip_with(
                        TrayState::Error,
                        "config parse error — see dialog"@,
                    )
                    &&& final(self).pending_restart@ == old(self).pending_restart@
                },
                WatcherEvent::Missing => {
                    &&& r.new_config is None
                    &&& r.error_box is None
                    &&& final(self).display.state == old(self).display.state
                    &&& final(self).display.tooltip@ == tooltip_with(
                        old(self).display.state,
                        "config file missing"@,
                    )
                    &&& final(self).pending_restart@ == old(self).pending_restart@
                },
            },
    {
        let mut log: Vec<String> = Vec::new();
        match ev {
            WatcherEvent::Reloaded { new_config, diff } => {
                self.apply_changes(&diff.hot_changed, &diff.cold_changed, &mut log);
                WatcherReaction { new_config: Some(*new_config), log, error_box: None }
            },
            WatcherEvent::ParseError { message } => {
                log.push(prefixed("[config] parse error: ", message.as_str()));
                self.display.set_state(TrayState::Error);
                self.display.set_tooltip_suffix("config parse error — see dialog");
                WatcherReaction { new_config: None, log, error_box: Some(message) }
            },
            WatcherEvent::Missing => {
                log.push("[config] source file disappeared".to_string());
                self.display.set_tooltip_suffix("config file missing");
                WatcherReaction { new_config: None, log, error_box: None }
            },
        }
    }

    /// React to the result of the Reload menu item: no change, hot keys
    /// reloaded, or cold keys that wait for a restart.
    pub fn on_manual_reload(&mut self, d: &ConfigDiff)
        ensures
            final(self).recording == old(self).recording,
            d.hot_changed@.len() == 0 && d.cold_changed@.len() == 0 ==> {
                &&& final(self).display.state == old(self).display.state
                &&& final(self).display.tooltip@ == tooltip_with(
                    old(self).display.state,
                    "reload: no changes"@,
                )
                &&& final(self).pending_restart@ == old(self).pending_restart@
            },
            d.hot_changed@.len() > 0 && d.cold_changed@.len() == 0 ==> {
                &&& final(self).display.state == old(self).display.state
                &&& final(self).display.tooltip@ == tooltip_with(
                    old(self).display.state,
                    "reloaded: "@ + join_spec(strs_view(d.hot_changed@), ", "@),
                )
                &&& final(self).pending_restart@ == old(self).pending_restart@
            },
            d.cold_changed@.len() > 0 ==> {
                &&& final(self).display.state == TrayState::Error
                &&& strs_view(final(self).pending_restart@) == merge_spec(
                    strs_view(old(self).pending_restart@),
                    strs_view(d.cold_changed@),
                )
                &&& final(self).display.tooltip@ == tooltip_with(
                    TrayState::Error,
                    "restart required: "@ + join_spec(
                        strs_view(final(self).pending_restart@),
                        ", "@,
                    ),
                )
            },
    {
        if d.is_empty() {
            self.display.set_tooltip_suffix("reload: no changes");
        } else if d.cold_changed.len() == 0 {
            let mut msg = "reloaded: ".to_string();
            append_str(&mut msg, join_names(&d.hot_changed).as_str());
            self.display.set_tooltip_suffix(msg.as_str());
        } else {
            merge_pending(&mut self.pending_restart, &d.cold_changed);
            self.display.set_state(TrayState::Error);
            let msg = prefixed("restart required: ", join_names(&self.pending_restart).as_str());
            self.display.set_tooltip_suffix(msg.as_str());
        }
    }
}

// ── Menu ─────────────────────────────────────────────────────────────────────

/// What a tray-menu click asks the program to do.
#[derive(Debug, Clone, PartialEq, Eq)]
pub enum MenuStep {
    /// Open the config file in the editor (creating it first if needed).
    EditConfig,
    /// Show the config file in the file manager.
    RevealConfig(String),
    /// Re-read the config file now and apply it (see
    /// [`TrayLoop::on_manual_reload`]).
    ReloadConfig(String),
    /// Open the log file.
    ShowLog,
    /// Take the logging flag from the menu's check mark.
    SyncLogging,
    /// Re-launch detached with these extra arguments; quit if that worked.
    Restart(Vec<&'static str>),
    /// Show the About box.
    About,
    /// Leave the event loop.
    Quit,
    /// Nothing to do (the item needs a config file and there is none).
    Nothing,
}

/// The step for a menu click, given the active config file and the mode.
pub fn menu_step(action: MenuAction, config_path: Option<&str>, no_tray: bool) -> (r: MenuStep)
    ensures
        action == MenuAction::EditConfig ==> r == MenuStep::EditConfig,
        action == MenuAction::RevealConfig ==> match config_path {
            Some(p) => r matches MenuStep::RevealConfig(q) && q@ == p@,
            None => r == MenuStep::Nothing,
        },
        action == MenuAction::ReloadConfig ==> match config_path {
            Some(p) => r matches MenuStep::ReloadConfig(q) && q@ == p@,
            None => r == MenuStep::Nothing,
        },
        action == MenuAction::ShowLog ==> r == MenuStep::ShowLog,
        action == MenuAction::ToggleLog ==> r == MenuStep::SyncLogging,
        action == MenuAction::Restart ==> (r matches MenuStep::Restart(extra) && (if no_tray {
            extra@.len() == 1 && extra@[0]@ == "--no-tray"@
        } else {
            extra@.len() == 0
        })),
        action == MenuAction::About ==> r == MenuStep::About,
        action == MenuAction::Quit ==> r == MenuStep::Quit,
{
    match action {
        MenuAction::EditConfig => MenuStep::EditConfig,
        MenuAction::RevealConfig => match config_path {
            Some(p) => MenuStep::RevealConfig(p.to_string()),
            None => MenuStep::Nothing,
        },
        MenuAction::ReloadConfig => match config_path {
            Some(p) => MenuStep::ReloadConfig(p.to_string()),
            None => MenuStep::Nothing,
        },
        MenuAction::ShowLog => MenuStep::ShowLog,
        MenuAction::ToggleLog => MenuStep::SyncLogging,
        MenuAction::Restart => MenuStep::Restart(restart_args(no_tray)),
        MenuAction::About => MenuStep::About,
        MenuAction::Quit => MenuStep::Quit,
    }
}

/// Whether the event loop ends after a menu step: on Quit, and on Restart
/// when the new process was started.
pub fn menu_exits(step: &MenuStep, restart_started: bool) -> (r: bool)
    ensures
        r == (step == &MenuStep::Quit || (step is Restart && restart_started)),
{
    match step {
        MenuStep::Quit => true,
        MenuStep::Restart(_) => restart_started,
        _ => false,
    }
}

// ── Laws of the pending-restart list ─────────────────────────────────────────

/// Merging keeps what was pending, in place, at the front.
pub proof fn lemma_merge_keeps_prefix(pending: Seq<Seq<char>>, keys: Seq<Seq<char>>)
    ensures
        merge_spec(pending, keys).len() >= pending.len(),
        merge_spec(pending, keys).take(pending.len() as int) == pending,
    decreases keys.len(),
{
    if keys.len() > 0 {
        let next = if pending.contains(keys[0]) {
            pending
        } else {
            pending.push(keys[0])
        };
        lemma_merge_keeps_prefix(next, keys.drop_first());
        assert(next.take(pending.len() as int) =~= pending);
        assert(merge_spec(pending, keys).take(pending.len() as int) =~= merge_spec(
            next,
            keys.drop_first(),
        ).take(next.len() as int).take(pending.len() as int));
    } else {
        assert(pending.take(pending.len() as int) =~= pending);
    }
}

/// After merging, every key is pending, and nothing else was added.
pub proof fn lemma_merge_contains_exactly(pending: Seq<Seq<char>>, keys: Seq<Seq<char>>, k: Seq<
    char,
>)
    ensures
        merge_spec(pending, keys).contains(k) <==> (pending.contains(k) || keys.contains(k)),
    decreases keys.len(),
{
    if keys.len() > 0 {
        let next = if pending.contains(keys[0]) {
            pending
        } else {
            pending.push(keys[0])
        };
        lemma_merge_contains_exactly(next, keys.drop_first(), k);
        if keys.contains(k) && !keys.drop_first().contains(k) {
            let j = choose|j: int| 0 <= j < keys.len() && keys[j] == k;
            if j > 0 {
                assert(keys.drop_first()[j - 1] == k);
            }
            assert(next.contains(k)) by {
                if pending.contains(keys[0]) {
                } else {
                    assert(next[pending.len() as int] == keys[0]);
                }
            }
        }
        if keys.drop_first().contains(k) {
            let j = choose|j: int| 0 <= j < keys.drop_first().len() && keys.drop_first()[j] == k;
            assert(keys[j + 1] == k);
        }
        if next.contains(k) && !pending.contains(k) {
            let j = choose|j: int| 0 <= j < next.len() && next[j] == k;
            assert(keys[0] == k);
        }
        if pending.contains(k) {
            let j = choose|j: int| 0 <= j < pending.len() && pending[j] == k;
            assert(next[j] == k);
        }
    }
}

/// A pending list without duplicates stays without duplicates, however
/// often the same keys come back.
pub proof fn lemma_merge_no_dups(pending: Seq<Seq<char>>, keys: Seq<Seq<char>>)
    requires
        no_dups(pending),
    ensures
        no_dups(merge_spec(pending, keys)),
    decreases keys.len(),
{
    if keys.len() > 0 {
        let next = if pending.contains(keys[0]) {
            pending
        } else {
            pending.push(keys[0])
        };
        assert(no_dups(next)) by {
            if !pending.contains(keys[0]) {
                assert forall|i: int, j: int| 0 <= i < j < next.len() implies next[i] != next[j] by {
                    if j == pending.len() {
                        assert(pending[i] == next[i]);
                        if next[i] == next[j] {
                            assert(pending.contains(keys[0]));
                        }
                    }
                }
            }
        }
        lemma_merge_no_dups(next, keys.drop_first());
    }
}

/// The session's pending list never holds a key twice: it starts empty and
/// each reload only merges into it.
pub proof fn lemma_pending_restart_stays_unique(
    pending: Seq<Seq<char>>,
    reloads: Seq<Seq<Seq<char>>>,
)
    requires
        no_dups(pending),
    ensures
        no_dups(reloads.fold_left(pending, |acc: Seq<Seq<char>>, cold: Seq<Seq<char>>| merge_spec(acc, cold))),
    decreases reloads.len(),
{
    if reloads.len() > 0 {
        let f = |acc: Seq<Seq<char>>, cold: Seq<Seq<char>>| merge_spec(acc, cold);
        lemma_pending_restart_stays_unique(pending, reloads.drop_last());
        lemma_merge_no_dups(reloads.drop_last().fold_left(pending, f), reloads.last());
    }
}

} // verus!
