//! Decisions of the mtime-polling config-file watcher.
//!
//! Each poll looks at the file's modification time. An mtime that differs
//! from the last one seen (including a file that reappeared) means the file
//! is read again and compared with the live configuration; a file that has
//! disappeared is reported once. Reading the file's metadata and its
//! contents happens at the program's edge; this module decides what a poll
//! reports from what was observed.
use vstd::prelude::*;

use crate::config::{cold_changes, diff, hot_changes, strs_view, ClientConfig, ConfigDiff};

verus! {

/// A file modification time as seconds and nanoseconds since the Unix epoch.
#[derive(Debug, Clone, Copy, PartialEq, Eq, Structural)]
pub struct Mtime {
    pub secs: u64,
    pub nanos: u32,
}

/// What a poll tells the live configuration's owner.
#[derive(Debug)]
pub enum WatcherEvent {
    /// The file parsed and differs from the live configuration in `diff`;
    /// `new_config` is the full replacement.
    Reloaded { new_config: Box<ClientConfig>, diff: ConfigDiff },
    /// The file exists but could not be read or parsed. The live
    /// configuration is left alone.
    ParseError { message: String },
    /// The file disappeared (reported once per disappearance).
    Missing,
}

/// What the watcher remembers between polls.
#[derive(Debug, Clone, Copy, PartialEq, Eq, Structural)]
pub struct WatcherState {
    /// The modification time last seen, if the file was there.
    pub last_mtime: Option<Mtime>,
    /// The last poll found no file.
    pub last_was_missing: bool,
}

impl WatcherState {
    /// A file seen missing has no remembered mtime.
    pub open spec fn wf(self) -> bool {
        self.last_was_missing ==> self.last_mtime is None
    }
}

/// What a poll does after looking at the file's modification time.
#[derive(Debug, Clone, Copy, PartialEq, Eq, Structural)]
pub enum PollStep {
    /// Nothing to report.
    Quiet,
    /// Report [`WatcherEvent::Missing`].
    ReportMissing,
    /// The file changed: read it and report the outcome (see
    /// [`reload_outcome`]).
    Reload,
}

/// The watcher's memory when it starts: the file's mtime at that moment, and
/// whether it was missing then.
pub fn initial_state(mtime: Option<Mtime>) -> (s: WatcherState)
    ensures
        s.last_mtime == mtime,
        s.last_was_missing == mtime is None,
        s.wf(),
{
    WatcherState { last_mtime: mtime, last_was_missing: mtime.is_none() }
}

/// The step a poll takes and the watcher's next memory, given the file's
/// mtime (`None`: no file, or its metadata could not be read).
pub open spec fn observe_spec(s: WatcherState, probe: Option<Mtime>) -> (PollStep, WatcherState) {
    match probe {
        Some(m) => if s.last_mtime == Some(m) {
            (PollStep::Quiet, WatcherState { last_mtime: s.last_mtime, last_was_missing: false })
        } else {
            (PollStep::Reload, WatcherState { last_mtime: Some(m), last_was_missing: false })
        },
        None => if !s.last_was_missing {
            (PollStep::ReportMissing, WatcherState { last_mtime: None, last_was_missing: true })
        } else {
            (PollStep::Quiet, s)
        },
    }
}

/// One poll's decision: update the memory and say what to do.
pub fn observe(state: &mut WatcherState, probe: Option<Mtime>) -> (step: PollStep)
    ensures
        (step, *final(state)) == observe_spec(*old(state), probe),
        old(state).wf() ==> final(state).wf(),
{
    match probe {
        Some(m) => {
            state.last_was_missing = false;
            let same = match state.last_mtime {
                Some(prev) => prev.secs == m.secs && prev.nanos == m.nanos,
                None => false,
            };
            if same {
                return PollStep::Quiet;
            }
            state.last_mtime = Some(m);
            PollStep::Reload
        },
        None => {
            if !state.last_was_missing {
                state.last_was_missing = true;
                state.last_mtime = None;
                return PollStep::ReportMissing;
            }
            PollStep::Quiet
        },
    }
}

/// What a re-read file gives: `Some(Reloaded)` when it parsed and differs
/// from `baseline`, nothing when it parsed to the same keys, and
/// `Some(ParseError)` with the reader's message when it could not be read or
/// parsed.
pub fn reload_outcome(baseline: &ClientConfig, loaded: Result<ClientConfig, String>) -> (r: Option<
    WatcherEvent,
>)
    ensures
        match loaded {
            Ok(new_cfg) => if hot_changes(baseline@, new_cfg@).len() == 0 && cold_changes(
                baseline@,
                new_cfg@,
            ).len() == 0 {
                r is None
            } else {
                r matches Some(WatcherEvent::Reloaded { new_config, diff }) && new_config@
                    == new_cfg@ && strs_view(diff.hot_changed@) == hot_changes(
                    baseline@,
                    new_cfg@,
                ) && strs_view(diff.cold_changed@) == cold_changes(baseline@, new_cfg@)
            },
            Err(msg) => r matches Some(WatcherEvent::ParseError { message }) && message@ == msg@,
        },
{
    match loaded {
        Ok(new_cfg) => {
            let d = diff(baseline, &new_cfg);
            if d.is_empty() {
                return None;
            }
            Some(WatcherEvent::Reloaded { new_config: Box::new(new_cfg), diff: d })
        },
        Err(message) => Some(WatcherEvent::ParseError { message }),
    }
}

// ── Laws of the watcher ──────────────────────────────────────────────────────

/// Every poll keeps the watcher's memory well formed.
pub proof fn lemma_observe_keeps_wf(s: WatcherState, probe: Option<Mtime>)
    requires
        s.wf(),
    ensures
        observe_spec(s, probe).1.wf(),
{
}

/// A poll that sees the same mtime as last time reports nothing and leaves
/// the remembered mtime as it was.
pub proof fn lemma_unchanged_mtime_is_quiet(s: WatcherState, m: Mtime)
    requires
        s.last_mtime == Some(m),
    ensures
        observe_spec(s, Some(m)).0 == PollStep::Quiet,
        observe_spec(s, Some(m)).1.last_mtime == s.last_mtime,
{
}

/// A file that disappears is reported once: the next poll that still finds
/// no file reports nothing.
pub proof fn lemma_missing_reported_once(s: WatcherState)
    ensures
        !s.last_was_missing ==> observe_spec(s, None).0 == PollStep::ReportMissing,
        observe_spec(observe_spec(s, None).1, None).0 == PollStep::Quiet,
{
}

/// A file that comes back after being missing is always re-read.
pub proof fn lemma_reappearing_file_reloads(s: WatcherState, m: Mtime)
    requires
        s.wf(),
    ensures
        observe_spec(observe_spec(s, None).1, Some(m)).0 == PollStep::Reload,
{
}

/// A changed mtime always triggers a re-read, and the new mtime is
/// remembered so the same file is not re-read on the next poll.
pub proof fn lemma_changed_mtime_reloads_once(s: WatcherState, m: Mtime)
    requires
        s.last_mtime != Some(m),
    ensures
        observe_spec(s, Some(m)).0 == PollStep::Reload,
        observe_spec(observe_spec(s, Some(m)).1, Some(m)).0 == PollStep::Quiet,
{
}

} // verus!
