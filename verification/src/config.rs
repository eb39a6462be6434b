//! Client configuration: built-in defaults, overlaying the optional keys of a
//! parsed `config.toml`, the config-file search order, the request URL, and
//! the hot/cold classification of changed keys used by live reload.
//!
//! Reading the file and the TOML parse into [`RawConfig`] happen at the
//! program's edge; everything here is computed from plain values.
use vstd::prelude::*;

use crate::text::{
    append_chars, append_str, chars_of, push_char, string_of, trim_end_by, trim_end_char,
    trim_start_by, trim_start_char,
};

verus! {

broadcast use vstd::string::group_string_axioms;

/// The optional keys of a `config.toml` file, as parsed. A missing key is
/// `None`; unknown keys are ignored by the parser.
#[derive(Debug, Clone)]
pub struct RawConfig {
    pub server_url: Option<String>,
    pub endpoint: Option<String>,
    pub auth_token: Option<String>,
    pub input_device: Option<String>,
    pub trigger: Option<String>,
    pub one_key_trigger: Option<String>,
    pub audio_format: Option<String>,
    pub auto_paste: Option<bool>,
    pub paste_delay_ms: Option<u32>,
    pub request_timeout_s: Option<u64>,
    pub smart_space: Option<bool>,
    pub continuation_window_s: Option<u32>,
    pub max_record_s: Option<u32>,
}

/// The client configuration in effect.
#[derive(Debug, Clone)]
pub struct ClientConfig {
    pub server_url: String,
    pub endpoint: String,
    pub auth_token: String,
    pub input_device: String,
    pub trigger: String,
    /// Optional single-key PTT. Empty = disabled. Allowed forms:
    /// `key:ctrl`, `key:alt`, `key:f1`..`key:f24`.
    pub one_key_trigger: String,
    pub audio_format: String,
    pub auto_paste: bool,
    pub paste_delay_ms: u32,
    pub request_timeout_s: u64,
    pub smart_space: bool,
    pub continuation_window_s: u32,
    pub max_record_s: u32,
    /// The file the configuration was read from, if any.
    pub source_path: Option<String>,
}

/// Mathematical view of a [`ClientConfig`]: strings as character sequences.
pub struct ConfigView {
    pub server_url: Seq<char>,
    pub endpoint: Seq<char>,
    pub auth_token: Seq<char>,
    pub input_device: Seq<char>,
    pub trigger: Seq<char>,
    pub one_key_trigger: Seq<char>,
    pub audio_format: Seq<char>,
    pub auto_paste: bool,
    pub paste_delay_ms: u32,
    pub request_timeout_s: u64,
    pub smart_space: bool,
    pub continuation_window_s: u32,
    pub max_record_s: u32,
    pub source_path: Option<Seq<char>>,
}

/// Mathematical view of a [`RawConfig`].
pub struct RawView {
    pub server_url: Option<Seq<char>>,
    pub endpoint: Option<Seq<char>>,
    pub auth_token: Option<Seq<char>>,
    pub input_device: Option<Seq<char>>,
    pub trigger: Option<Seq<char>>,
    pub one_key_trigger: Option<Seq<char>>,
    pub audio_format: Option<Seq<char>>,
    pub auto_paste: Option<bool>,
    pub paste_delay_ms: Option<u32>,
    pub request_timeout_s: Option<u64>,
    pub smart_space: Option<bool>,
    pub continuation_window_s: Option<u32>,
    pub max_record_s: Option<u32>,
}

/// View of an optional string.
pub open spec fn opt_view(o: Option<String>) -> Option<Seq<char>> {
    match o {
        Some(s) => Some(s@),
        None => None,
    }
}

impl View for ClientConfig {
    type V = ConfigView;

    open spec fn view(&self) -> ConfigView {
        ConfigView {
            server_url: self.server_url@,
            endpoint: self.endpoint@,
            auth_token: self.auth_token@,
            input_device: self.input_device@,
            trigger: self.trigger@,
            one_key_trigger: self.one_key_trigger@,
            audio_format: self.audio_format@,
            auto_paste: self.auto_paste,
            paste_delay_ms: self.paste_delay_ms,
            request_timeout_s: self.request_timeout_s,
            smart_space: self.smart_space,
            continuation_window_s: self.continuation_window_s,
            max_record_s: self.max_record_s,
            source_path: opt_view(self.source_path),
        }
    }
}

impl View for RawConfig {
    type V = RawView;

    open spec fn view(&self) -> RawView {
        RawView {
            server_url: opt_view(self.server_url),
            endpoint: opt_view(self.endpoint),
            auth_token: opt_view(self.auth_token),
            input_device: opt_view(self.input_device),
            trigger: opt_view(self.trigger),
            one_key_trigger: opt_view(self.one_key_trigger),
            audio_format: opt_view(self.audio_format),
            auto_paste: self.auto_paste,
            paste_delay_ms: self.paste_delay_ms,
            request_timeout_s: self.request_timeout_s,
            smart_space: self.smart_space,
            continuation_window_s: self.continuation_window_s,
            max_record_s: self.max_record_s,
        }
    }
}

/// The documented built-in defaults (no file).
pub open spec fn default_view() -> ConfigView {
    ConfigView {
        server_url: "http://localhost:5005"@,
        endpoint: "/v1/auto"@,
        auth_token: Seq::empty(),
        input_device: Seq::empty(),
        trigger: "key:ctrl+g"@,
        one_key_trigger: Seq::empty(),
        audio_format: "flac"@,
        auto_paste: true,
        paste_delay_ms: 50,
        request_timeout_s: 30,
        smart_space: true,
        continuation_window_s: 30,
        max_record_s: 300,
        source_path: None,
    }
}

/// `o` when present, else `d`.
pub open spec fn or_else<T>(o: Option<T>, d: T) -> T {
    match o {
        Some(v) => v,
        None => d,
    }
}

/// `base` with every key present in `raw` replaced by the file's value.
pub open spec fn overlay(base: ConfigView, raw: RawView) -> ConfigView {
    ConfigView {
        server_url: or_else(raw.server_url, base.server_url),
        endpoint: or_else(raw.endpoint, base.endpoint),
        auth_token: or_else(raw.auth_token, base.auth_token),
        input_device: or_else(raw.input_device, base.input_device),
        trigger: or_else(raw.trigger, base.trigger),
        one_key_trigger: or_else(raw.one_key_trigger, base.one_key_trigger),
        audio_format: or_else(raw.audio_format, base.audio_format),
        auto_paste: or_else(raw.auto_paste, base.auto_paste),
        paste_delay_ms: or_else(raw.paste_delay_ms, base.paste_delay_ms),
        request_timeout_s: or_else(raw.request_timeout_s, base.request_timeout_s),
        smart_space: or_else(raw.smart_space, base.smart_space),
        continuation_window_s: or_else(raw.continuation_window_s, base.continuation_window_s),
        max_record_s: or_else(raw.max_record_s, base.max_record_s),
        source_path: base.source_path,
    }
}

/// The configuration loaded from the file at `path` whose keys are `raw`.
pub open spec fn loaded_view(path: Seq<char>, raw: RawView) -> ConfigView {
    ConfigView { source_path: Some(path), ..overlay(default_view(), raw) }
}

/// The request URL: server URL without trailing `/`, one `/`, endpoint
/// without leading `/`.
pub open spec fn url_spec(server_url: Seq<char>, endpoint: Seq<char>) -> Seq<char> {
    trim_end_by(server_url, |c: char| c == '/') + seq!['/'] + trim_start_by(
        endpoint,
        |c: char| c == '/',
    )
}

fn owned(s: &str) -> (r: String)
    ensures
        r@ == s@,
{
    s.to_string()
}

impl ClientConfig {
    /// `<server_url>/<endpoint>` with exactly one slash between them.
    pub fn url(&self) -> (r: String)
        ensures
            r@ == url_spec(self@.server_url, self@.endpoint),
    {
        let server = chars_of(self.server_url.as_str());
        let endpoint = chars_of(self.endpoint.as_str());
        let head = trim_end_char(&server, '/');
        let tail = trim_start_char(&endpoint, '/');
        let mut out = string_of(&head);
        push_char(&mut out, '/');
        append_chars(&mut out, &tail);
        out
    }

    /// Whether an auth token is configured (sent as `X-Auth-Token`).
    pub fn has_auth(&self) -> (r: bool)
        ensures
            r == (self@.auth_token.len() > 0),
    {
        !self.auth_token.as_str().is_empty()
    }
}

/// The built-in defaults, used when no config file is found.
pub fn defaults() -> (r: ClientConfig)
    ensures
        r@ == default_view(),
{
    ClientConfig {
        server_url: owned("http://localhost:5005"),
        endpoint: owned("/v1/auto"),
        auth_token: String::new(),
        input_device: String::new(),
        trigger: owned("key:ctrl+g"),
        one_key_trigger: String::new(),
        audio_format: owned("flac"),
        auto_paste: true,
        paste_delay_ms: 50,
        request_timeout_s: 30,
        smart_space: true,
        continuation_window_s: 30,
        max_record_s: 300,
        source_path: None,
    }
}

/// Overwrite every key of `cfg` that the file sets.
pub fn apply_raw(cfg: &mut ClientConfig, raw: RawConfig)
    ensures
        final(cfg)@ == overlay(old(cfg)@, raw@),
{
    if let Some(v) = raw.server_url {
        cfg.server_url = v;
    }
    if let Some(v) = raw.endpoint {
        cfg.endpoint = v;
    }
    if let Some(v) = raw.auth_token {
        cfg.auth_token = v;
    }
    if let Some(v) = raw.input_device {
        cfg.input_device = v;
    }
    if let Some(v) = raw.trigger {
        cfg.trigger = v;
    }
    if let Some(v) = raw.one_key_trigger {
        cfg.one_key_trigger = v;
    }
    if let Some(v) = raw.audio_format {
        cfg.audio_format = v;
    }
    if let Some(v) = raw.auto_paste {
        cfg.auto_paste = v;
    }
    if let Some(v) = raw.paste_delay_ms {
        cfg.paste_delay_ms = v;
    }
    if let Some(v) = raw.request_timeout_s {
        cfg.request_timeout_s = v;
    }
    if let Some(v) = raw.smart_space {
        cfg.smart_space = v;
    }
    if let Some(v) = raw.continuation_window_s {
        cfg.continuation_window_s = v;
    }
    if let Some(v) = raw.max_record_s {
        cfg.max_record_s = v;
    }
}

/// The configuration read from the file at `path`: defaults overlaid with the
/// file's keys, remembering where it came from.
pub fn load_from_raw(path: String, raw: RawConfig) -> (r: ClientConfig)
    ensures
        r@ == loaded_view(path@, raw@),
{
    let mut cfg = defaults();
    apply_raw(&mut cfg, raw);
    cfg.source_path = Some(path);
    cfg
}

/// The configuration in effect: the first config file found (its path and
/// parsed keys), or the built-in defaults when there is none.
pub fn load(found: Option<(String, RawConfig)>) -> (r: ClientConfig)
    ensures
        r@ == (match found {
            Some((p, raw)) => loaded_view(p@, raw@),
            None => default_view(),
        }),
{
    match found {
        Some((path, raw)) => load_from_raw(path, raw),
        None => defaults(),
    }
}

// ── Config search order ──────────────────────────────────────────────────────

/// Text written into a new `config.toml` when the user asks to edit the
/// configuration and no file exists yet.
pub const DEFAULT_CONFIG_TOML: &'static str = "# GhostScribe client config
# All keys are optional; commented lines show the built-in defaults.

# server_url           = \"http://localhost:5005\"
# endpoint             = \"/v1/auto\"
# auth_token           = \"\"
# input_device         = \"\"                 # substring match against device name
# trigger              = \"key:ctrl+g\"       # push-to-talk chord
# one_key_trigger      = \"\"                 # optional single-key PTT, e.g. key:f11
# audio_format         = \"flac\"             # \"flac\" or \"wav\"
# auto_paste           = true
# paste_delay_ms       = 50
# request_timeout_s    = 30                 # HTTP POST timeout in seconds
# smart_space          = true               # prepend space when continuing dictation
# continuation_window_s = 30               # seconds after last paste that counts as continuation
# max_record_s         = 300               # auto-stop recording after this many seconds (0 = off)
";

/// The error text when the file at `path` could not be read
/// (`reading <path>: <detail>`) or parsed (`parsing <path>: <detail>`).
pub fn load_error_message(parsing: bool, path: &str, detail: &str) -> (r: String)
    ensures
        r@ == (if parsing {
            "parsing "@
        } else {
            "reading "@
        }) + path@ + ": "@ + detail@,
{
    let mut out = if parsing {
        "parsing ".to_string()
    } else {
        "reading ".to_string()
    };
    append_str(&mut out, path);
    append_str(&mut out, ": ");
    append_str(&mut out, detail);
    out
}

/// The file that "Edit config" opens: the active config file, or else
/// `<appdata>/ghostscribe/config.toml`; `None` when neither is known.
pub fn config_file_target(active: Option<&str>, appdata: Option<&str>, sep: char) -> (r: Option<
    String,
>)
    ensures
        match active {
            Some(p) => r matches Some(t) && t@ == p@,
            None => match appdata {
                Some(a) => r matches Some(t) && t@ == join_spec(
                    join_spec(a@, "ghostscribe"@, sep),
                    "config.toml"@,
                    sep,
                ),
                None => r is None,
            },
        },
{
    match active {
        Some(p) => Some(p.to_string()),
        None => match appdata {
            Some(a) => {
                let dir = join_path(a, "ghostscribe", sep);
                Some(join_path(dir.as_str(), "config.toml", sep))
            },
            None => None,
        },
    }
}

/// `base` joined with the relative path `seg` using separator `sep`: a
/// separator is inserted unless `base` is empty or already ends with one
/// (`PathBuf::join` for a relative segment).
pub open spec fn join_spec(base: Seq<char>, seg: Seq<char>, sep: char) -> Seq<char> {
    if base.len() == 0 {
        seg
    } else if base.last() == sep {
        base + seg
    } else {
        base + seq![sep] + seg
    }
}

/// `base` joined with the relative path `seg`.
pub fn join_path(base: &str, seg: &str, sep: char) -> (r: String)
    ensures
        r@ == join_spec(base@, seg@, sep),
{
    let b = chars_of(base);
    let mut out = string_of(&b);
    if b.len() > 0 && b[b.len() - 1] != sep {
        push_char(&mut out, sep);
    }
    append_str(&mut out, seg);
    out
}

/// The locations searched for `config.toml` on Linux, in order: the explicit
/// `--config` path alone if given; otherwise the executable's directory,
/// `$XDG_CONFIG_HOME/ghostscribe` (or `$HOME/.config/ghostscribe` when XDG
/// is unset), and the working directory, each only when known.
pub open spec fn candidate_paths_spec(
    explicit: Option<Seq<char>>,
    exe_dir: Option<Seq<char>>,
    xdg_config_home: Option<Seq<char>>,
    home: Option<Seq<char>>,
    cwd: Option<Seq<char>>,
    sep: char,
) -> Seq<Seq<char>> {
    match explicit {
        Some(p) => seq![p],
        None => {
            let a = match exe_dir {
                Some(d) => seq![join_spec(d, "config.toml"@, sep)],
                None => Seq::empty(),
            };
            let b = match xdg_config_home {
                Some(x) => seq![
                    join_spec(join_spec(x, "ghostscribe"@, sep), "config.toml"@, sep),
                ],
                None => match home {
                    Some(h) => seq![
                        join_spec(
                            join_spec(join_spec(h, ".config"@, sep), "ghostscribe"@, sep),
                            "config.toml"@,
                            sep,
                        ),
                    ],
                    None => Seq::empty(),
                },
            };
            let c = match cwd {
                Some(d) => seq![join_spec(d, "config.toml"@, sep)],
                None => Seq::empty(),
            };
            a + b + c
        },
    }
}

/// Views of a vector of strings.
pub open spec fn strings_view(v: Seq<String>) -> Seq<Seq<char>> {
    v.map_values(|s: String| s@)
}

fn push_view(v: &mut Vec<String>, s: String)
    ensures
        strings_view(final(v)@) == strings_view(old(v)@).push(s@),
{
    v.push(s);
    assert(strings_view(v@) =~= strings_view(old(v)@).push(s@));
}

fn opt_str_view(o: &Option<String>) -> (r: Option<&str>)
    ensures
        match r {
            Some(s) => opt_view(*o) == Some(s@),
            None => o is None,
        },
{
    match o {
        Some(s) => Some(s.as_str()),
        None => None,
    }
}

/// The config-file search order on Linux (see [`candidate_paths_spec`]).
pub fn candidate_paths(
    explicit: Option<String>,
    exe_dir: Option<String>,
    xdg_config_home: Option<String>,
    home: Option<String>,
    cwd: Option<String>,
    sep: char,
) -> (r: Vec<String>)
    ensures
        strings_view(r@) == candidate_paths_spec(
            opt_view(explicit),
            opt_view(exe_dir),
            opt_view(xdg_config_home),
            opt_view(home),
            opt_view(cwd),
            sep,
        ),
{
    let mut paths: Vec<String> = Vec::new();
    if let Some(p) = explicit {
        push_view(&mut paths, p);
        assert(strings_view(paths@) =~= seq![opt_view(explicit)->0]);
        return paths;
    }
    assert(strings_view(paths@) =~= Seq::<Seq<char>>::empty());
    if let Some(d) = opt_str_view(&exe_dir) {
        push_view(&mut paths, join_path(d, "config.toml", sep));
    }
    if let Some(x) = opt_str_view(&xdg_config_home) {
        let g = join_path(x, "ghostscribe", sep);
        push_view(&mut paths, join_path(g.as_str(), "config.toml", sep));
    } else if let Some(h) = opt_str_view(&home) {
        let c = join_path(h, ".config", sep);
        let g = join_path(c.as_str(), "ghostscribe", sep);
        push_view(&mut paths, join_path(g.as_str(), "config.toml", sep));
    }
    if let Some(d) = opt_str_view(&cwd) {
        push_view(&mut paths, join_path(d, "config.toml", sep));
    }
    let ghost spec_paths = candidate_paths_spec(
        opt_view(explicit),
        opt_view(exe_dir),
        opt_view(xdg_config_home),
        opt_view(home),
        opt_view(cwd),
        sep,
    );
    assert(strings_view(paths@) =~= spec_paths);
    paths
}

/// The locations searched for `config.toml` on Windows, in order: the
/// explicit `--config` path alone if given; otherwise the executable's
/// directory, `%APPDATA%\ghostscribe`, and the working directory, each only
/// when known.
pub open spec fn candidate_paths_windows_spec(
    explicit: Option<Seq<char>>,
    exe_dir: Option<Seq<char>>,
    appdata: Option<Seq<char>>,
    cwd: Option<Seq<char>>,
    sep: char,
) -> Seq<Seq<char>> {
    match explicit {
        Some(p) => seq![p],
        None => {
            let a = match exe_dir {
                Some(d) => seq![join_spec(d, "config.toml"@, sep)],
                None => Seq::empty(),
            };
            let b = match appdata {
                Some(x) => seq![
                    join_spec(join_spec(x, "ghostscribe"@, sep), "config.toml"@, sep),
                ],
                None => Seq::empty(),
            };
            let c = match cwd {
                Some(d) => seq![join_spec(d, "config.toml"@, sep)],
                None => Seq::empty(),
            };
            a + b + c
        },
    }
}

/// The config-file search order on Windows (see
/// [`candidate_paths_windows_spec`]).
pub fn candidate_paths_windows(
    explicit: Option<String>,
    exe_dir: Option<String>,
    appdata: Option<String>,
    cwd: Option<String>,
    sep: char,
) -> (r: Vec<String>)
    ensures
        strings_view(r@) == candidate_paths_windows_spec(
            opt_view(explicit),
            opt_view(exe_dir),
            opt_view(appdata),
            opt_view(cwd),
            sep,
        ),
{
    let mut paths: Vec<String> = Vec::new();
    if let Some(p) = explicit {
        push_view(&mut paths, p);
        assert(strings_view(paths@) =~= seq![opt_view(explicit)->0]);
        return paths;
    }
    assert(strings_view(paths@) =~= Seq::<Seq<char>>::empty());
    if let Some(d) = opt_str_view(&exe_dir) {
        push_view(&mut paths, join_path(d, "config.toml", sep));
    }
    if let Some(x) = opt_str_view(&appdata) {
        let g = join_path(x, "ghostscribe", sep);
        push_view(&mut paths, join_path(g.as_str(), "config.toml", sep));
    }
    if let Some(d) = opt_str_view(&cwd) {
        push_view(&mut paths, join_path(d, "config.toml", sep));
    }
    let ghost spec_paths = candidate_paths_windows_spec(
        opt_view(explicit),
        opt_view(exe_dir),
        opt_view(appdata),
        opt_view(cwd),
        sep,
    );
    assert(strings_view(paths@) =~= spec_paths);
    paths
}

/// Index of the first candidate that is an existing file, if any.
pub fn first_existing(is_file: &Vec<bool>) -> (r: Option<usize>)
    ensures
        match r {
            Some(i) => i < is_file@.len() && is_file@[i as int] && forall|j: int|
                0 <= j < i ==> !is_file@[j],
            None => forall|j: int| 0 <= j < is_file@.len() ==> !is_file@[j],
        },
{
    let mut i: usize = 0;
    while i < is_file.len()
        invariant
            0 <= i <= is_file@.len(),
            forall|j: int| 0 <= j < i ==> !is_file@[j],
        decreases is_file@.len() - i,
    {
        if is_file[i] {
            return Some(i);
        }
        i = i + 1;
    }
    None
}

} // verus!

verus! {

// ── Hot / cold classification of changes ─────────────────────────────────────

/// Which keys differ between two configurations. Hot keys are applied live;
/// cold keys (captured by the audio stream and the input hook at startup)
/// need a restart.
#[derive(Debug, Clone, PartialEq, Eq)]
pub struct ConfigDiff {
    pub hot_changed: Vec<&'static str>,
    pub cold_changed: Vec<&'static str>,
}

/// Views of a vector of string slices.
pub open spec fn strs_view(v: Seq<&'static str>) -> Seq<Seq<char>> {
    v.map_values(|s: &'static str| s@)
}

/// `seq![name]` when `changed`, else empty.
pub open spec fn if_changed(changed: bool, name: Seq<char>) -> Seq<Seq<char>> {
    if changed {
        seq![name]
    } else {
        Seq::empty()
    }
}

/// Names of the hot keys whose values differ, in declaration order.
pub open spec fn hot_changes(old: ConfigView, new: ConfigView) -> Seq<Seq<char>> {
    if_changed(old.server_url != new.server_url, "server_url"@)
        + if_changed(old.endpoint != new.endpoint, "endpoint"@)
        + if_changed(old.auth_token != new.auth_token, "auth_token"@)
        + if_changed(old.auto_paste != new.auto_paste, "auto_paste"@)
        + if_changed(old.paste_delay_ms != new.paste_delay_ms, "paste_delay_ms"@)
        + if_changed(old.request_timeout_s != new.request_timeout_s, "request_timeout_s"@)
        + if_changed(old.smart_space != new.smart_space, "smart_space"@)
        + if_changed(
        old.continuation_window_s != new.continuation_window_s,
        "continuation_window_s"@,
    ) + if_changed(old.max_record_s != new.max_record_s, "max_record_s"@)
}

/// Names of the cold keys whose values differ, in declaration order.
pub open spec fn cold_changes(old: ConfigView, new: ConfigView) -> Seq<Seq<char>> {
    if_changed(old.trigger != new.trigger, "trigger"@) + if_changed(
        old.one_key_trigger != new.one_key_trigger,
        "one_key_trigger"@,
    ) + if_changed(old.input_device != new.input_device, "input_device"@) + if_changed(
        old.audio_format != new.audio_format,
        "audio_format"@,
    )
}

/// Whether two configurations agree on every hot key.
pub open spec fn same_hot(a: ConfigView, b: ConfigView) -> bool {
    &&& a.server_url == b.server_url
    &&& a.endpoint == b.endpoint
    &&& a.auth_token == b.auth_token
    &&& a.auto_paste == b.auto_paste
    &&& a.paste_delay_ms == b.paste_delay_ms
    &&& a.request_timeout_s == b.request_timeout_s
    &&& a.smart_space == b.smart_space
    &&& a.continuation_window_s == b.continuation_window_s
    &&& a.max_record_s == b.max_record_s
}

/// Whether two configurations agree on every cold key.
pub open spec fn same_cold(a: ConfigView, b: ConfigView) -> bool {
    &&& a.trigger == b.trigger
    &&& a.one_key_trigger == b.one_key_trigger
    &&& a.input_device == b.input_device
    &&& a.audio_format == b.audio_format
}

impl ConfigDiff {
    /// No key changed.
    pub fn is_empty(&self) -> (r: bool)
        ensures
            r == (self.hot_changed@.len() == 0 && self.cold_changed@.len() == 0),
    {
        self.hot_changed.len() == 0 && self.cold_changed.len() == 0
    }

    /// Some cold key changed, so the client must restart to apply it.
    pub fn requires_restart(&self) -> (r: bool)
        ensures
            r == (self.cold_changed@.len() > 0),
    {
        self.cold_changed.len() != 0
    }
}

fn push_if(v: &mut Vec<&'static str>, changed: bool, name: &'static str)
    ensures
        strs_view(final(v)@) == strs_view(old(v)@) + if_changed(changed, name@),
{
    if changed {
        v.push(name);
    }
    assert(strs_view(v@) =~= strs_view(old(v)@) + if_changed(changed, name@));
}

fn str_ne(a: &String, b: &String) -> (r: bool)
    ensures
        r == (a@ != b@),
{
    !(*a == *b)
}

/// Which keys differ between `old` and `new`, split into hot and cold keys in
/// declaration order. `source_path` is not compared.
pub fn diff(old: &ClientConfig, new: &ClientConfig) -> (d: ConfigDiff)
    ensures
        strs_view(d.hot_changed@) == hot_changes(old@, new@),
        strs_view(d.cold_changed@) == cold_changes(old@, new@),
{
    let mut hot: Vec<&'static str> = Vec::new();
    let mut cold: Vec<&'static str> = Vec::new();
    assert(strs_view(hot@) =~= Seq::<Seq<char>>::empty());
    assert(strs_view(cold@) =~= Seq::<Seq<char>>::empty());
    push_if(&mut hot, str_ne(&old.server_url, &new.server_url), "server_url");
    push_if(&mut hot, str_ne(&old.endpoint, &new.endpoint), "endpoint");
    push_if(&mut hot, str_ne(&old.auth_token, &new.auth_token), "auth_token");
    push_if(&mut hot, old.auto_paste != new.auto_paste, "auto_paste");
    push_if(&mut hot, old.paste_delay_ms != new.paste_delay_ms, "paste_delay_ms");
    push_if(&mut hot, old.request_timeout_s != new.request_timeout_s, "request_timeout_s");
    push_if(&mut hot, old.smart_space != new.smart_space, "smart_space");
    push_if(
        &mut hot,
        old.continuation_window_s != new.continuation_window_s,
        "continuation_window_s",
    );
    push_if(&mut hot, old.max_record_s != new.max_record_s, "max_record_s");

    push_if(&mut cold, str_ne(&old.trigger, &new.trigger), "trigger");
    push_if(&mut cold, str_ne(&old.one_key_trigger, &new.one_key_trigger), "one_key_trigger");
    push_if(&mut cold, str_ne(&old.input_device, &new.input_device), "input_device");
    push_if(&mut cold, str_ne(&old.audio_format, &new.audio_format), "audio_format");
    let ghost h = hot_changes(old@, new@);
    let ghost c = cold_changes(old@, new@);
    assert(strs_view(hot@) =~= h);
    assert(strs_view(cold@) =~= c);
    ConfigDiff { hot_changed: hot, cold_changed: cold }
}

// ── Laws of the hot/cold classification ──────────────────────────────────────

/// The diff is empty exactly when the two configurations agree on every key
/// (the source file's path is not a key): reparsing identical content, or
/// the same content saved under another path, reports no change.
pub proof fn lemma_diff_empty_iff_same_keys(old: ConfigView, new: ConfigView)
    ensures
        (hot_changes(old, new).len() == 0 && cold_changes(old, new).len() == 0) <==> (same_hot(
            old,
            new,
        ) && same_cold(old, new)),
{
}

/// A restart is required exactly when some cold key changed; hot-key edits
/// alone never require one.
pub proof fn lemma_restart_iff_cold_change(old: ConfigView, new: ConfigView)
    ensures
        (cold_changes(old, new).len() > 0) <==> !same_cold(old, new),
        (hot_changes(old, new).len() > 0) <==> !same_hot(old, new),
{
}

/// Diffing a configuration against itself reports nothing.
pub proof fn lemma_diff_self_empty(c: ConfigView)
    ensures
        hot_changes(c, c).len() == 0,
        cold_changes(c, c).len() == 0,
{
}

/// The set of changed keys does not depend on the direction of the diff.
pub proof fn lemma_diff_symmetric(a: ConfigView, b: ConfigView)
    ensures
        hot_changes(a, b) == hot_changes(b, a),
        cold_changes(a, b) == cold_changes(b, a),
{
}

/// Applying a file with no keys leaves the configuration unchanged, and a
/// key the file sets takes the file's value while every other key keeps its
/// previous value.
pub proof fn lemma_overlay_only_overrides_present_keys(base: ConfigView, raw: RawView)
    ensures
        raw.server_url is None ==> overlay(base, raw).server_url == base.server_url,
        raw.server_url matches Some(v) ==> overlay(base, raw).server_url == v,
        raw.endpoint is None ==> overlay(base, raw).endpoint == base.endpoint,
        raw.trigger is None ==> overlay(base, raw).trigger == base.trigger,
        raw.auto_paste is None ==> overlay(base, raw).auto_paste == base.auto_paste,
        overlay(base, raw).source_path == base.source_path,
        (raw.server_url is None && raw.endpoint is None && raw.auth_token is None
            && raw.input_device is None && raw.trigger is None && raw.one_key_trigger is None
            && raw.audio_format is None && raw.auto_paste is None && raw.paste_delay_ms is None
            && raw.request_timeout_s is None && raw.smart_space is None
            && raw.continuation_window_s is None && raw.max_record_s is None) ==> overlay(
            base,
            raw,
        ) == base,
{
}

} // verus!
