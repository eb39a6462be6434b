//! The push-to-talk decision shared by the keyboard hooks of both clients:
//! given the hook's mode and what the current key message means for the
//! configured triggers, the next mode and the event to report.
//!
//! Modes: idle; recording through the chord; recording through the one-key
//! trigger; locked out after a one-key take was cancelled (until the one-key
//! is released).
use vstd::prelude::*;

verus! {

/// What the hook reports to the recorder.
#[derive(Debug, Clone, Copy, PartialEq, Eq, Structural)]
pub enum HotkeyEvent {
    Press,
    Release,
    /// One-key recording was interrupted by a foreign keystroke: discard the
    /// buffer without sending.
    Cancel,
}

/// Mode of the input hook.
#[derive(Debug, Clone, Copy, PartialEq, Eq, Structural)]
pub enum HookMode {
    Idle,
    Chord,
    OneKey,
    Lockout,
}

/// What one key message means for the triggers.
#[derive(Debug, Clone, Copy, PartialEq, Eq, Structural)]
pub struct StepInput {
    /// The message is a key press.
    pub is_down: bool,
    /// The message is a key release.
    pub is_up: bool,
    /// After this message, the whole chord is held.
    pub chord_ok: bool,
    /// The key is part of the chord (its main key or a required modifier).
    pub chord_part: bool,
    /// The key is the one-key trigger.
    pub is_one_key: bool,
}

/// The hook's decision for one key message.
pub open spec fn step_spec(mode: HookMode, inp: StepInput) -> (HookMode, Option<HotkeyEvent>) {
    match mode {
        HookMode::Idle => if inp.is_down {
            if inp.chord_ok {
                (HookMode::Chord, Some(HotkeyEvent::Press))
            } else if inp.is_one_key {
                (HookMode::OneKey, Some(HotkeyEvent::Press))
            } else {
                (mode, None)
            }
        } else {
            (mode, None)
        },
        HookMode::Chord => if inp.is_up && inp.chord_part {
            (HookMode::Idle, Some(HotkeyEvent::Release))
        } else {
            (mode, None)
        },
        HookMode::OneKey => if inp.is_down {
            if !(inp.is_one_key || inp.chord_part) {
                (HookMode::Lockout, Some(HotkeyEvent::Cancel))
            } else {
                (mode, None)
            }
        } else if inp.is_up {
            if inp.is_one_key {
                (HookMode::Idle, Some(HotkeyEvent::Release))
            } else {
                (mode, None)
            }
        } else {
            (mode, None)
        },
        HookMode::Lockout => if inp.is_up && inp.is_one_key {
            (HookMode::Idle, None)
        } else {
            (mode, None)
        },
    }
}

/// The hook's decision for one key message.
pub fn step(mode: HookMode, inp: StepInput) -> (r: (HookMode, Option<HotkeyEvent>))
    ensures
        r == step_spec(mode, inp),
{
    match mode {
        HookMode::Idle => {
            if inp.is_down {
                if inp.chord_ok {
                    (HookMode::Chord, Some(HotkeyEvent::Press))
                } else if inp.is_one_key {
                    (HookMode::OneKey, Some(HotkeyEvent::Press))
                } else {
                    (mode, None)
                }
            } else {
                (mode, None)
            }
        },
        HookMode::Chord => {
            if inp.is_up && inp.chord_part {
                (HookMode::Idle, Some(HotkeyEvent::Release))
            } else {
                (mode, None)
            }
        },
        HookMode::OneKey => {
            if inp.is_down {
                if !(inp.is_one_key || inp.chord_part) {
                    (HookMode::Lockout, Some(HotkeyEvent::Cancel))
                } else {
                    (mode, None)
                }
            } else if inp.is_up {
                if inp.is_one_key {
                    (HookMode::Idle, Some(HotkeyEvent::Release))
                } else {
                    (mode, None)
                }
            } else {
                (mode, None)
            }
        },
        HookMode::Lockout => {
            if inp.is_up && inp.is_one_key {
                (HookMode::Idle, None)
            } else {
                (mode, None)
            }
        },
    }
}

/// The hook is recording (through the chord or the one-key trigger).
pub open spec fn recording(mode: HookMode) -> bool {
    mode == HookMode::Chord || mode == HookMode::OneKey
}

/// One decision keeps press and release paired: a press starts a recording,
/// a release or cancel ends one, and no recording starts or ends silently.
pub open spec fn event_matches_transition(
    before: HookMode,
    after: HookMode,
    ev: Option<HotkeyEvent>,
) -> bool {
    match ev {
        Some(HotkeyEvent::Press) => !recording(before) && recording(after),
        Some(HotkeyEvent::Release) => recording(before) && !recording(after),
        Some(HotkeyEvent::Cancel) => before == HookMode::OneKey && after == HookMode::Lockout,
        None => recording(before) == recording(after),
    }
}

/// Every decision of the hook keeps press and release paired.
pub proof fn lemma_step_pairs_events(mode: HookMode, inp: StepInput)
    ensures
        event_matches_transition(mode, step_spec(mode, inp).0, step_spec(mode, inp).1),
{
}

/// After a cancelled one-key take nothing is reported and nothing starts
/// until the one-key trigger is released, which returns to idle.
pub proof fn lemma_lockout_until_one_key_released(inp: StepInput)
    ensures
        step_spec(HookMode::Lockout, inp).1 is None,
        step_spec(HookMode::Lockout, inp).0 == (if inp.is_up && inp.is_one_key {
            HookMode::Idle
        } else {
            HookMode::Lockout
        }),
{
}

/// While recording through the one-key trigger, pressing a key that belongs
/// to neither trigger cancels the take; keys of the chord are neutral.
pub proof fn lemma_foreign_key_cancels_one_key(inp: StepInput)
    requires
        inp.is_down,
    ensures
        step_spec(HookMode::OneKey, inp) == (if inp.is_one_key || inp.chord_part {
            (HookMode::OneKey, None)
        } else {
            (HookMode::Lockout, Some(HotkeyEvent::Cancel))
        }),
{
}

/// The decisions for a sequence of key messages, from `mode`: the final mode
/// and the events reported, in order.
pub open spec fn run(mode: HookMode, inputs: Seq<StepInput>) -> (HookMode, Seq<HotkeyEvent>)
    decreases inputs.len(),
{
    if inputs.len() == 0 {
        (mode, Seq::empty())
    } else {
        let (m1, ev) = step_spec(mode, inputs[0]);
        let (mf, evs) = run(m1, inputs.drop_first());
        (
            mf,
            match ev {
                Some(e) => seq![e] + evs,
                None => evs,
            },
        )
    }
}

/// Reported events alternate between a press and its end (release or
/// cancel), starting from `rec` (recording or not) and ending in `rec_end`.
pub open spec fn alternates(evs: Seq<HotkeyEvent>, rec: bool, rec_end: bool) -> bool
    decreases evs.len(),
{
    if evs.len() == 0 {
        rec == rec_end
    } else if evs[0] == HotkeyEvent::Press {
        !rec && alternates(evs.drop_first(), true, rec_end)
    } else {
        rec && alternates(evs.drop_first(), false, rec_end)
    }
}

/// Over any sequence of key messages the hook reports press, then release
/// or cancel, then press, … never two presses or two ends in a row, and it
/// is recording at the end exactly when the last report was a press.
pub proof fn lemma_run_alternates(mode: HookMode, inputs: Seq<StepInput>)
    ensures
        alternates(run(mode, inputs).1, recording(mode), recording(run(mode, inputs).0)),
    decreases inputs.len(),
{
    if inputs.len() > 0 {
        let (m1, ev) = step_spec(mode, inputs[0]);
        lemma_run_alternates(m1, inputs.drop_first());
        let (mf, evs) = run(m1, inputs.drop_first());
        match ev {
            Some(e) => {
                assert((seq![e] + evs).drop_first() =~= evs);
            },
            None => {},
        }
    }
}


/// One decision keeps takes well formed: a press starts a recording, a
/// release ends one, a cancel ends only a one-key take (into the lockout),
/// and without a report a recording goes on in the same mode and none starts.
pub open spec fn step_keeps_takes(before: HookMode, after: HookMode, ev: Option<HotkeyEvent>) -> bool {
    match ev {
        Some(HotkeyEvent::Press) => !recording(before) && recording(after),
        Some(HotkeyEvent::Release) => recording(before) && !recording(after),
        Some(HotkeyEvent::Cancel) => before == HookMode::OneKey && after == HookMode::Lockout,
        None => before == after || (!recording(before) && !recording(after)),
    }
}

/// Every decision of the shared step keeps takes well formed.
pub proof fn lemma_step_keeps_takes(mode: HookMode, inp: StepInput)
    ensures
        step_keeps_takes(mode, step_spec(mode, inp).0, step_spec(mode, inp).1),
{
}

/// The take open in `mode`: its mode while recording, none otherwise.
pub open spec fn open_take(mode: HookMode) -> Option<HookMode> {
    if recording(mode) {
        Some(mode)
    } else {
        None
    }
}

/// Reports, each with the mode the hook entered, form well-formed takes from
/// the open take `open` to `end`: a press only with no take open (opening
/// one in a recording mode), a release only with a take open, and a cancel
/// only closing a take the one-key trigger opened.
pub open spec fn takes_well_formed(
    evs: Seq<(HotkeyEvent, HookMode)>,
    open: Option<HookMode>,
    end: Option<HookMode>,
) -> bool
    decreases evs.len(),
{
    if evs.len() == 0 {
        open == end
    } else {
        let (e, m) = evs[0];
        match e {
            HotkeyEvent::Press => open is None && recording(m) && takes_well_formed(
                evs.drop_first(),
                Some(m),
                end,
            ),
            HotkeyEvent::Release => open is Some && takes_well_formed(evs.drop_first(), None, end),
            HotkeyEvent::Cancel => open == Some(HookMode::OneKey) && takes_well_formed(
                evs.drop_first(),
                None,
                end,
            ),
        }
    }
}

/// The reports of a run after one decision: the decision's report (with the
/// mode it entered) in front of the rest.
pub open spec fn with_report(
    ev: Option<HotkeyEvent>,
    after: HookMode,
    rest: Seq<(HotkeyEvent, HookMode)>,
) -> Seq<(HotkeyEvent, HookMode)> {
    match ev {
        Some(e) => seq![(e, after)] + rest,
        None => rest,
    }
}

/// A decision that keeps takes well formed, in front of a well-formed run,
/// gives a well-formed run.
pub proof fn lemma_takes_extend(
    before: HookMode,
    after: HookMode,
    ev: Option<HotkeyEvent>,
    rest: Seq<(HotkeyEvent, HookMode)>,
    end: Option<HookMode>,
)
    requires
        step_keeps_takes(before, after, ev),
        takes_well_formed(rest, open_take(after), end),
    ensures
        takes_well_formed(with_report(ev, after, rest), open_take(before), end),
{
    match ev {
        Some(e) => {
            assert((seq![(e, after)] + rest).drop_first() =~= rest);
        },
        None => {},
    }
}

/// Well-formed takes alternate: press, then release or cancel, then press, …
pub proof fn lemma_takes_alternate(
    evs: Seq<(HotkeyEvent, HookMode)>,
    open: Option<HookMode>,
    end: Option<HookMode>,
)
    requires
        takes_well_formed(evs, open, end),
    ensures
        alternates(evs.map_values(|p: (HotkeyEvent, HookMode)| p.0), open is Some, end is Some),
    decreases evs.len(),
{
    let es = evs.map_values(|p: (HotkeyEvent, HookMode)| p.0);
    if evs.len() > 0 {
        let (e, m) = evs[0];
        let next = match e {
            HotkeyEvent::Press => Some(m),
            _ => None::<HookMode>,
        };
        lemma_takes_alternate(evs.drop_first(), next, end);
        assert(es.drop_first() =~= evs.drop_first().map_values(|p: (HotkeyEvent, HookMode)| p.0));
    }
}

} // verus!
