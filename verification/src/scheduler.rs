//! Full playback: the startup axis, then the loop axis round after round.
//!
//! The schedule of a segment (the startup axis, or one round of the loop) is a
//! list of [`Action`]s computed here; a driver performs them in order (waiting,
//! sleeping, pressing, reporting) and abandons the rest of the list as soon as an
//! aborting action meets a stop request. The [`Scheduler`] decides which segment
//! comes next and how the run ends.
use vstd::prelude::*;

use crate::chart::{
    deref_steps, find_period, skippable_id, steps_of_period, ComboChart, ComboPeriod, ComboStep,
    Lane, PeriodKind,
};
use crate::input::{
    binding_of, default_binding, is_hold_id, is_hold_move, slot_binding, switch_binding, Device,
    DEFAULT_TAP_MS, SWITCH_DELAY_MS,
};
use crate::text::{chars_of, chars_start_with, starts_with, str_eq};

verus! {

/// Playback mode.
#[derive(Debug, Clone, Copy, PartialEq, Eq, Structural)]
pub enum PlaybackMode {
    /// Startup axis, then the loop axis round after round (default).
    Full,
    StartupOnly,
    LoopOnly,
    /// Semi-automatic: the player presses the switch keys, moves are automatic.
    Semi,
}

/// The mode a front end names: `"startup"`, `"loop"`, and full playback for any other name.
pub open spec fn mode_named(name: Seq<char>) -> PlaybackMode {
    if name == "startup"@ {
        PlaybackMode::StartupOnly
    } else if name == "loop"@ {
        PlaybackMode::LoopOnly
    } else {
        PlaybackMode::Full
    }
}

/// The playback mode a front end names (see [`mode_named`]).
pub fn parse_mode(name: &str) -> (r: PlaybackMode)
    ensures
        r == mode_named(name@),
{
    if str_eq(name, "startup") {
        PlaybackMode::StartupOnly
    } else if str_eq(name, "loop") {
        PlaybackMode::LoopOnly
    } else {
        PlaybackMode::Full
    }
}

/// Playback options.
#[derive(Debug, Clone, Copy, PartialEq, Eq, Structural)]
pub struct PlaybackOptions {
    pub mode: PlaybackMode,
    /// Upper bound on loop rounds; `None` = unbounded.
    pub max_loops: Option<u32>,
    /// Wait after a character switch, ms.
    pub switch_delay_ms: u64,
    /// Longest wait in a free-fire period, ms.
    pub free_fire_timeout_ms: u64,
    /// Dry run: no keys, no waits, only the event stream.
    pub dry_run: bool,
}

impl Default for PlaybackOptions {
    fn default() -> (r: PlaybackOptions)
        ensures
            r == (PlaybackOptions {
                mode: PlaybackMode::Full,
                max_loops: None,
                switch_delay_ms: SWITCH_DELAY_MS,
                free_fire_timeout_ms: 10_000,
                dry_run: false,
            }),
    {
        PlaybackOptions {
            mode: PlaybackMode::Full,
            max_loops: None,
            switch_delay_ms: SWITCH_DELAY_MS,
            free_fire_timeout_ms: 10_000,
            dry_run: false,
        }
    }
}

/// Events reported by a playback.
#[derive(Debug, Clone)]
pub enum PlaybackEvent {
    Started { title: String },
    LoopRound { round: u32 },
    Switch { from: Option<u8>, to: u8 },
    FreeFire { wait_ms: i64 },
    StepDone {
        label: String,
        move_id: String,
        planned_ms: i64,
        actual_ms: i128,
        held_ms: u64,
    },
    /// The move has no input binding and is skipped.
    StepSkipped { label: String, move_id: String },
    Stopped { reason: &'static str },
    /// Semi mode: waiting for the player to switch to the next segment's character.
    WaitingSwitch {
        slot: Option<u8>,
        round: u32,
        index: usize,
        total: usize,
        steps: usize,
        approx_ms: i64,
    },
    /// Semi mode: a character segment ended (`completed`, or `switched` by the player).
    SegmentDone { slot: Option<u8>, reason: &'static str },
    /// Semi mode: a digit key of a character not ahead in the chart was ignored.
    KeyIgnored { got: u8, expected: Option<u8> },
}

/// One step of a segment schedule, performed by the driver.
#[derive(Debug)]
pub enum Action {
    /// Abandon the segment if a stop was requested.
    CheckStop,
    /// Wait until this many ms after the playback start (negative = now);
    /// abandon the segment if a stop is requested meanwhile.
    WaitUntil(i64),
    /// Sleep; when `abort` holds, a stop request abandons the segment.
    Sleep { ms: u64, abort: bool },
    /// Press and release a device (the press is cut short by a stop request).
    Tap { dev: Device, hold_ms: u64 },
    /// Press a step's device for `held_ms`, then report `StepDone` with the measured time.
    Press { dev: Device, held_ms: u64, label: String, move_id: String, planned_ms: i64 },
    /// Report an event.
    Emit(PlaybackEvent),
}

/// Press length of a step: hold moves keep their `duration_min` (at least a tap),
/// every other move is a tap.
pub open spec fn hold_ms_spec(s: ComboStep) -> u64 {
    if is_hold_id(s.move_id@) {
        if s.duration_min < DEFAULT_TAP_MS {
            DEFAULT_TAP_MS
        } else {
            s.duration_min as u64
        }
    } else {
        DEFAULT_TAP_MS
    }
}

/// Press length of a step (hold moves: `duration_min`, at least a tap; others: a tap).
pub fn hold_ms(s: &ComboStep) -> (r: u64)
    ensures
        r == hold_ms_spec(*s),
        r >= DEFAULT_TAP_MS,
{
    if is_hold_move(s.move_id.as_str()) {
        if s.duration_min < DEFAULT_TAP_MS as i64 {
            DEFAULT_TAP_MS
        } else {
            s.duration_min as u64
        }
    } else {
        DEFAULT_TAP_MS
    }
}

/// The last main-lane step in time order that is not a recording-control or
/// display-only move (of several with the latest start, the last in chart order).
pub open spec fn last_main_step(steps: Seq<ComboStep>) -> Option<ComboStep>
    decreases steps.len(),
{
    if steps.len() == 0 {
        None
    } else {
        let c = last_main_step(steps.drop_last());
        let s = steps.last();
        if s.lane == Lane::Main && !skippable_id(s.move_id@) && match c {
            Some(p) => p.start_min <= s.start_min,
            None => true,
        } {
            Some(s)
        } else {
            c
        }
    }
}

/// Length of one loop round: the first loop period's length, otherwise the end
/// (`start_min + duration_min`) of the last main-lane step; at least 1 ms.
pub open spec fn loop_len_spec(steps: Seq<ComboStep>, periods: Seq<ComboPeriod>) -> int {
    let raw = match find_period(periods, PeriodKind::LoopAxis) {
        Some(p) => p.end_ms - p.start_ms,
        None => match last_main_step(steps) {
            Some(s) => s.start_min + s.duration_min,
            None => 0,
        },
    };
    if raw < 1 {
        1
    } else {
        raw
    }
}

/// Length of one loop round, ms (see [`loop_len_spec`]).
pub fn loop_len(chart: &ComboChart) -> (r: i128)
    ensures
        r == loop_len_spec(chart.steps@, chart.periods@),
        1 <= r <= 0x1_0000_0000_0000_0000i128,
{
    let raw: i128 = match chart.period(PeriodKind::LoopAxis) {
        Some(p) => p.end_ms as i128 - p.start_ms as i128,
        None => {
            let mut last: Option<&ComboStep> = None;
            let mut i: usize = 0;
            while i < chart.steps.len()
                invariant
                    i <= chart.steps.len(),
                    match last {
                        Some(p) => last_main_step(chart.steps@.take(i as int)) == Some(*p),
                        None => last_main_step(chart.steps@.take(i as int)) is None,
                    },
                decreases chart.steps.len() - i,
            {
                let s = &chart.steps[i];
                assert(chart.steps@.take(i + 1).drop_last() =~= chart.steps@.take(i as int));
                assert(chart.steps@.take(i + 1).last() == *s);
                let later = match last {
                    Some(p) => p.start_min <= s.start_min,
                    None => true,
                };
                if s.lane == Lane::Main && !s.is_skippable() && later {
                    last = Some(s);
                }
                i = i + 1;
            }
            assert(chart.steps@.take(i as int) =~= chart.steps@);
            match last {
                Some(p) => p.start_min as i128 + p.duration_min as i128,
                None => 0,
            }
        },
    };
    if raw < 1 {
        1
    } else {
        raw
    }
}

/// Whether the player sends switch keys itself: only when the chart has no played
/// explicit `switch_*` step (such a chart is trusted with its own switches).
pub open spec fn auto_switch_spec(steps: Seq<ComboStep>) -> bool {
    !exists|i: int|
        0 <= i < steps.len() && !skippable_id(#[trigger] steps[i].move_id@) && starts_with(
            steps[i].move_id@,
            "switch_"@,
        )
}

/// Whether the player sends switch keys itself (see [`auto_switch_spec`]).
pub fn auto_switch(chart: &ComboChart) -> (r: bool)
    ensures
        r == auto_switch_spec(chart.steps@),
{
    let prefix = chars_of("switch_");
    let mut i: usize = 0;
    while i < chart.steps.len()
        invariant
            i <= chart.steps.len(),
            prefix@ == "switch_"@,
            forall|k: int|
                0 <= k < i ==> !(!skippable_id(#[trigger] chart.steps@[k].move_id@) && starts_with(
                    chart.steps@[k].move_id@,
                    "switch_"@,
                )),
        decreases chart.steps.len() - i,
    {
        let s = &chart.steps[i];
        let id = chars_of(s.move_id.as_str());
        if !s.is_skippable() && chars_start_with(&id, &prefix) {
            assert(!skippable_id(chart.steps@[i as int].move_id@));
            return false;
        }
        i = i + 1;
    }
    true
}

/// Number of loop rounds: unbounded (`u32::MAX`) unless limited; a dry run shows at most 2.
pub open spec fn max_rounds_spec(opts: PlaybackOptions) -> u32 {
    if opts.dry_run {
        match opts.max_loops {
            None => 2,
            Some(n) => if n < 2 {
                n
            } else {
                2
            },
        }
    } else {
        match opts.max_loops {
            None => u32::MAX,
            Some(n) => n,
        }
    }
}

/// A time saturated into the `i64` range.
pub open spec fn clamp_i64(t: int) -> i64 {
    if t < i64::MIN {
        i64::MIN
    } else if t > i64::MAX {
        i64::MAX
    } else {
        t as i64
    }
}

fn clamp_to_i64(t: i128) -> (r: i64)
    ensures
        r == clamp_i64(t as int),
{
    if t < i64::MIN as i128 {
        i64::MIN
    } else if t > i64::MAX as i128 {
        i64::MAX
    } else {
        t as i64
    }
}

/// Largest segment offset the scheduler uses (`u32::MAX` rounds of the longest loop).
pub open spec fn base_bound() -> int {
    0x1_0000_0000_0000_0000_0000_0000i128 as int
}

/// A free-fire window of a schedule: non-empty, within the offset bound plus one chart time.
pub open spec fn window_ok(w: (i128, i128)) -> bool {
    &&& w.0 < w.1
    &&& -base_bound() - 0x1_0000_0000_0000_0000i128 <= w.0
    &&& w.1 <= base_bound() + 0x1_0000_0000_0000_0000i128
}

/// Free-fire windows of the chart, shifted by `base` (empty windows dropped), in chart order.
pub open spec fn free_windows(periods: Seq<ComboPeriod>, base: int) -> Seq<(i128, i128)>
    decreases periods.len(),
{
    if periods.len() == 0 {
        Seq::empty()
    } else {
        let w = free_windows(periods.drop_last(), base);
        let p = periods.last();
        if p.kind == PeriodKind::FreeFire && p.end_ms > p.start_ms {
            w.push(((base + p.start_ms) as i128, (base + p.end_ms) as i128))
        } else {
            w
        }
    }
}

/// `at` falls inside one of the windows.
pub open spec fn in_free(windows: Seq<(i128, i128)>, at: int) -> bool {
    exists|k: int| 0 <= k < windows.len() && #[trigger] windows[k].0 <= at && at < windows[k].1
}

/// Wait of a free-fire window: its length, at most the timeout.
pub open spec fn window_wait(w: (i128, i128), opts: PlaybackOptions) -> int {
    if w.1 - w.0 < opts.free_fire_timeout_ms {
        w.1 - w.0
    } else {
        opts.free_fire_timeout_ms as int
    }
}

/// The part of a free-fire window that the timeout cuts off (0 when the window is
/// not longer than the timeout).
pub open spec fn window_cut(w: (i128, i128), opts: PlaybackOptions) -> int {
    (w.1 - w.0) - window_wait(w, opts)
}

/// Largest advance of the timeline that is kept: a larger one already puts every
/// later time of the run before its start, where it is due at once.
pub open spec fn shift_cap() -> int {
    2 * base_bound()
}

/// The advance of the timeline after `cut` more ms were cut off (kept at most [`shift_cap`]).
pub open spec fn add_cut(shift: int, cut: int) -> int {
    if shift + cut > shift_cap() {
        shift_cap()
    } else {
        shift + cut
    }
}

/// Schedule of a free-fire window reached by the timeline, which so far runs `shift`
/// ms ahead of the chart: wait for the window's (advanced) start, report, sleep.
pub open spec fn window_actions(w: (i128, i128), opts: PlaybackOptions, shift: int) -> Seq<Action> {
    let ev = Action::Emit(PlaybackEvent::FreeFire { wait_ms: clamp_i64(window_wait(w, opts)) });
    if opts.dry_run {
        seq![ev]
    } else {
        seq![
            Action::WaitUntil(clamp_i64(w.0 - shift)),
            ev,
            Action::Sleep { ms: window_wait(w, opts) as u64, abort: true },
        ]
    }
}

/// The windows from `wi` on that start no later than `at`, with the index after them
/// and the advance of the timeline after them: each window's cut-off part moves
/// everything after it up.
pub open spec fn window_waits(
    windows: Seq<(i128, i128)>,
    wi: int,
    at: int,
    opts: PlaybackOptions,
    shift: int,
) -> (Seq<Action>, int, int)
    decreases windows.len() - wi,
{
    if 0 <= wi < windows.len() && windows[wi].0 <= at {
        let rest = window_waits(
            windows,
            wi + 1,
            at,
            opts,
            add_cut(shift, window_cut(windows[wi], opts)),
        );
        (window_actions(windows[wi], opts, shift) + rest.0, rest.1, rest.2)
    } else {
        (Seq::empty(), wi, shift)
    }
}

/// Automatic switch before a step: when the step names a slot other than the
/// current one, the switch key (if the slot has one) is tapped, then the switch delay.
pub open spec fn switch_actions(
    s: ComboStep,
    slot: Option<u8>,
    auto: bool,
    opts: PlaybackOptions,
) -> (Seq<Action>, Option<u8>) {
    match s.character_slot {
        Some(n) => if auto && slot != Some(n) {
            match switch_binding(n) {
                Some(dev) => {
                    let ev = Action::Emit(PlaybackEvent::Switch { from: slot, to: n });
                    if opts.dry_run {
                        (seq![ev], Some(n))
                    } else {
                        (
                            seq![
                                ev,
                                Action::Tap { dev, hold_ms: DEFAULT_TAP_MS },
                                Action::Sleep { ms: opts.switch_delay_ms, abort: false },
                            ],
                            Some(n),
                        )
                    }
                },
                None => (Seq::empty(), Some(n)),
            }
        } else {
            (Seq::empty(), slot)
        },
        None => (Seq::empty(), slot),
    }
}

/// The press of a step the chart places at `at` and the timeline reaches at `t`
/// (`at` moved up by the free-fire time cut off so far): skipped without a binding;
/// otherwise the pre-input wait (`t - preheat_ms`) and the press (or, in a dry run,
/// its report), both reporting the chart time `at` as planned.
pub open spec fn press_actions(s: ComboStep, at: int, t: int, opts: PlaybackOptions) -> Seq<Action> {
    match binding_of(s.move_id@) {
        None => seq![Action::Emit(PlaybackEvent::StepSkipped { label: s.label, move_id: s.move_id })],
        Some(dev) => {
            let pre = match s.preheat_ms {
                Some(p) => p as int,
                None => 0,
            };
            let wait = if pre > 0 && !opts.dry_run {
                seq![Action::WaitUntil(clamp_i64(t - pre))]
            } else {
                Seq::empty()
            };
            let press = if opts.dry_run {
                Action::Emit(
                    PlaybackEvent::StepDone {
                        label: s.label,
                        move_id: s.move_id,
                        planned_ms: clamp_i64(at),
                        actual_ms: clamp_i64(at) as i128,
                        held_ms: hold_ms_spec(s),
                    },
                )
            } else {
                Action::Press {
                    dev,
                    held_ms: hold_ms_spec(s),
                    label: s.label,
                    move_id: s.move_id,
                    planned_ms: clamp_i64(at),
                }
            };
            wait.push(press)
        },
    }
}

/// Schedule of one step: stop check; nothing more inside a free-fire window; else the
/// free-fire windows reached, the wait for the step's start (moved up by the advance of
/// the timeline), the switch and the press. Also gives the current slot, the window
/// index and the advance of the timeline afterwards.
pub open spec fn step_actions(
    windows: Seq<(i128, i128)>,
    base: int,
    opts: PlaybackOptions,
    auto: bool,
    s: ComboStep,
    slot: Option<u8>,
    wi: int,
    shift: int,
) -> (Seq<Action>, Option<u8>, int, int) {
    let at = base + s.start_min;
    if in_free(windows, at) {
        (seq![Action::CheckStop], slot, wi, shift)
    } else {
        let ww = window_waits(windows, wi, at, opts, shift);
        let t = at - ww.2;
        let wait_at = if opts.dry_run {
            Seq::empty()
        } else {
            seq![Action::WaitUntil(clamp_i64(t))]
        };
        let sw = switch_actions(s, slot, auto, opts);
        (
            seq![Action::CheckStop] + ww.0 + wait_at + sw.0 + press_actions(s, at, t, opts),
            sw.1,
            ww.1,
            ww.2,
        )
    }
}

/// Schedule of a sequence of steps, with the current slot and the advance of the
/// timeline at the end.
pub open spec fn plan_steps(
    windows: Seq<(i128, i128)>,
    base: int,
    opts: PlaybackOptions,
    auto: bool,
    steps: Seq<ComboStep>,
    slot: Option<u8>,
    wi: int,
    shift: int,
) -> (Seq<Action>, Option<u8>, int)
    decreases steps.len(),
{
    if steps.len() == 0 {
        (Seq::empty(), slot, shift)
    } else {
        let st = step_actions(windows, base, opts, auto, steps[0], slot, wi, shift);
        let rest = plan_steps(windows, base, opts, auto, steps.drop_first(), st.1, st.2, st.3);
        (st.0 + rest.0, rest.1, rest.2)
    }
}

/// Schedule of a segment whose steps are shifted by `base`, from the current slot, on a
/// timeline that runs `shift` ms ahead of the chart (the parts of free-fire periods cut
/// off by the timeout so far); also the slot and the advance after the segment.
pub open spec fn segment_plan(
    chart: ComboChart,
    steps: Seq<ComboStep>,
    base: int,
    opts: PlaybackOptions,
    slot: Option<u8>,
    auto: bool,
    shift: int,
) -> (Seq<Action>, Option<u8>, int) {
    plan_steps(free_windows(chart.periods@, base), base, opts, auto, steps, slot, 0, shift)
}

/// A time of a schedule: within four times the offset bound.
pub open spec fn time_ok(t: int) -> bool {
    -4 * base_bound() <= t <= 4 * base_bound()
}

fn free_windows_of(periods: &Vec<ComboPeriod>, base: i128) -> (r: Vec<(i128, i128)>)
    requires
        -base_bound() <= base <= base_bound(),
    ensures
        r@ == free_windows(periods@, base as int),
{
    let mut out: Vec<(i128, i128)> = Vec::new();
    let mut i: usize = 0;
    while i < periods.len()
        invariant
            i <= periods.len(),
            -base_bound() <= base <= base_bound(),
            out@ == free_windows(periods@.take(i as int), base as int),
        decreases periods.len() - i,
    {
        let p = &periods[i];
        assert(periods@.take(i + 1).drop_last() =~= periods@.take(i as int));
        if p.kind == PeriodKind::FreeFire && p.end_ms > p.start_ms {
            out.push((base + p.start_ms as i128, base + p.end_ms as i128));
        }
        i = i + 1;
    }
    assert(periods@.take(i as int) =~= periods@);
    out
}

fn in_free_window(windows: &Vec<(i128, i128)>, at: i128) -> (r: bool)
    ensures
        r == in_free(windows@, at as int),
{
    let mut k: usize = 0;
    while k < windows.len()
        invariant
            k <= windows.len(),
            forall|j: int| 0 <= j < k ==> !(#[trigger] windows@[j].0 <= at && at < windows@[j].1),
        decreases windows.len() - k,
    {
        if windows[k].0 <= at && at < windows[k].1 {
            assert(windows@[k as int].0 <= at);
            return true;
        }
        k = k + 1;
    }
    false
}

fn window_action_list(w: (i128, i128), opts: &PlaybackOptions, shift: i128) -> (r: (
    Vec<Action>,
    i128,
))
    requires
        window_ok(w),
        0 <= shift <= shift_cap(),
    ensures
        r.0@ == window_actions(w, *opts, shift as int),
        r.1 == add_cut(shift as int, window_cut(w, *opts)),
        0 <= r.1 <= shift_cap(),
{
    let len: i128 = w.1 - w.0;
    let wait: i128 = if len < opts.free_fire_timeout_ms as i128 {
        len
    } else {
        opts.free_fire_timeout_ms as i128
    };
    let cut: i128 = len - wait;
    let next: i128 = if shift > 2 * 0x1_0000_0000_0000_0000_0000_0000i128 - cut {
        2 * 0x1_0000_0000_0000_0000_0000_0000i128
    } else {
        shift + cut
    };
    let ev = Action::Emit(PlaybackEvent::FreeFire { wait_ms: clamp_to_i64(wait) });
    let from: i64 = clamp_to_i64(w.0 - shift);
    if opts.dry_run {
        (vec![ev], next)
    } else {
        (
            vec![
                Action::WaitUntil(from),
                ev,
                Action::Sleep { ms: wait as u64, abort: true },
            ],
            next,
        )
    }
}

fn window_wait_list(
    windows: &Vec<(i128, i128)>,
    wi: usize,
    at: i128,
    opts: &PlaybackOptions,
    shift: i128,
) -> (r: (Vec<Action>, usize, i128))
    requires
        wi <= windows.len(),
        0 <= shift <= shift_cap(),
        forall|k: int| 0 <= k < windows.len() ==> window_ok(#[trigger] windows@[k]),
    ensures
        r.0@ == window_waits(windows@, wi as int, at as int, *opts, shift as int).0,
        r.1 as int == window_waits(windows@, wi as int, at as int, *opts, shift as int).1,
        r.2 as int == window_waits(windows@, wi as int, at as int, *opts, shift as int).2,
        r.1 <= windows.len(),
        0 <= r.2 <= shift_cap(),
{
    let ghost whole = window_waits(windows@, wi as int, at as int, *opts, shift as int);
    let mut acts: Vec<Action> = Vec::new();
    let mut j: usize = wi;
    let mut sh: i128 = shift;
    while j < windows.len() && windows[j].0 <= at
        invariant
            wi <= j <= windows.len(),
            0 <= sh <= shift_cap(),
            forall|k: int| 0 <= k < windows.len() ==> window_ok(#[trigger] windows@[k]),
            acts@ + window_waits(windows@, j as int, at as int, *opts, sh as int).0 == whole.0,
            window_waits(windows@, j as int, at as int, *opts, sh as int).1 == whole.1,
            window_waits(windows@, j as int, at as int, *opts, sh as int).2 == whole.2,
        decreases windows.len() - j,
    {
        let (mut w, sh2) = window_action_list(windows[j], opts, sh);
        let ghost rest = window_waits(windows@, j + 1, at as int, *opts, sh2 as int).0;
        assert(acts@ + (w@ + rest) =~= (acts@ + w@) + rest);
        acts.append(&mut w);
        sh = sh2;
        j = j + 1;
    }
    (acts, j, sh)
}

fn switch_action_list(
    s: &ComboStep,
    slot: Option<u8>,
    auto: bool,
    opts: &PlaybackOptions,
) -> (r: (Vec<Action>, Option<u8>))
    ensures
        r.0@ == switch_actions(*s, slot, auto, *opts).0,
        r.1 == switch_actions(*s, slot, auto, *opts).1,
{
    match s.character_slot {
        Some(n) => {
            if auto && slot != Some(n) {
                match slot_binding(n) {
                    Some(dev) => {
                        let ev = Action::Emit(PlaybackEvent::Switch { from: slot, to: n });
                        if opts.dry_run {
                            (vec![ev], Some(n))
                        } else {
                            (
                                vec![
                                    ev,
                                    Action::Tap { dev, hold_ms: DEFAULT_TAP_MS },
                                    Action::Sleep { ms: opts.switch_delay_ms, abort: false },
                                ],
                                Some(n),
                            )
                        }
                    },
                    None => (Vec::new(), Some(n)),
                }
            } else {
                (Vec::new(), slot)
            }
        },
        None => (Vec::new(), slot),
    }
}

fn press_action_list(s: &ComboStep, at: i128, t: i128, opts: &PlaybackOptions) -> (r: Vec<
    Action,
>)
    requires
        time_ok(at as int),
        time_ok(t as int),
    ensures
        r@ == press_actions(*s, at as int, t as int, *opts),
{
    match default_binding(s.move_id.as_str()) {
        None => vec![
            Action::Emit(
                PlaybackEvent::StepSkipped { label: s.label.clone(), move_id: s.move_id.clone() },
            ),
        ],
        Some(dev) => {
            let pre: i128 = match s.preheat_ms {
                Some(p) => p as i128,
                None => 0,
            };
            let mut out: Vec<Action> = Vec::new();
            if pre > 0 && !opts.dry_run {
                out.push(Action::WaitUntil(clamp_to_i64(t - pre)));
            }
            let held = hold_ms(s);
            let planned = clamp_to_i64(at);
            if opts.dry_run {
                out.push(
                    Action::Emit(
                        PlaybackEvent::StepDone {
                            label: s.label.clone(),
                            move_id: s.move_id.clone(),
                            planned_ms: planned,
                            actual_ms: planned as i128,
                            held_ms: held,
                        },
                    ),
                );
            } else {
                out.push(
                    Action::Press {
                        dev,
                        held_ms: held,
                        label: s.label.clone(),
                        move_id: s.move_id.clone(),
                        planned_ms: planned,
                    },
                );
            }
            out
        },
    }
}

/// The schedule of one segment: its steps shifted by `base`, starting from the
/// current character slot, on a timeline that runs `shift` ms ahead of the chart;
/// also gives the slot current after the segment and the advance after it (every
/// free-fire period longer than the timeout moves the waits of what follows it up by
/// the excess; reported planned times stay the chart's times, `base + start_min`).
pub fn plan_segment(
    chart: &ComboChart,
    steps: &Vec<&ComboStep>,
    base: i128,
    opts: &PlaybackOptions,
    slot: Option<u8>,
    auto: bool,
    shift: i128,
) -> (r: (Vec<Action>, Option<u8>, i128))
    requires
        -base_bound() <= base <= base_bound(),
        0 <= shift <= shift_cap(),
    ensures
        r.0@ == segment_plan(*chart, deref_steps(steps@), base as int, *opts, slot, auto, shift as int).0,
        r.1 == segment_plan(*chart, deref_steps(steps@), base as int, *opts, slot, auto, shift as int).1,
        r.2 as int == segment_plan(*chart, deref_steps(steps@), base as int, *opts, slot, auto, shift as int).2,
        0 <= r.2 <= shift_cap(),
{
    let windows = free_windows_of(&chart.periods, base);
    proof {
        lemma_free_windows_nonempty(chart.periods@, base as int);
    }
    let ghost ws = windows@;
    let ghost all = deref_steps(steps@);
    let ghost whole = plan_steps(ws, base as int, *opts, auto, all, slot, 0, shift as int);
    let mut acts: Vec<Action> = Vec::new();
    let mut cur = slot;
    let mut wi: usize = 0;
    let mut sh: i128 = shift;
    let mut i: usize = 0;
    assert(all.skip(0) =~= all);
    while i < steps.len()
        invariant
            i <= steps.len(),
            wi <= windows.len(),
            0 <= sh <= shift_cap(),
            windows@ == ws,
            all == deref_steps(steps@),
            -base_bound() <= base <= base_bound(),
            forall|k: int| 0 <= k < ws.len() ==> window_ok(#[trigger] ws[k]),
            acts@ + plan_steps(ws, base as int, *opts, auto, all.skip(i as int), cur, wi as int, sh as int).0
                == whole.0,
            plan_steps(ws, base as int, *opts, auto, all.skip(i as int), cur, wi as int, sh as int).1
                == whole.1,
            plan_steps(ws, base as int, *opts, auto, all.skip(i as int), cur, wi as int, sh as int).2
                == whole.2,
        decreases steps.len() - i,
    {
        let s: &ComboStep = steps[i];
        let ghost sk = all.skip(i as int);
        assert(sk[0] == *s);
        assert(sk.drop_first() =~= all.skip(i + 1));
        let ghost st = step_actions(ws, base as int, *opts, auto, *s, cur, wi as int, sh as int);
        let ghost rest = plan_steps(ws, base as int, *opts, auto, all.skip(i + 1), st.1, st.2, st.3);
        let at: i128 = base + s.start_min as i128;
        let mut step: Vec<Action> = vec![Action::CheckStop];
        if !in_free_window(&windows, at) {
            let (mut ww, wi2, sh2) = window_wait_list(&windows, wi, at, opts, sh);
            step.append(&mut ww);
            let t: i128 = at - sh2;
            if !opts.dry_run {
                step.push(Action::WaitUntil(clamp_to_i64(t)));
            }
            let (mut sw, slot2) = switch_action_list(s, cur, auto, opts);
            step.append(&mut sw);
            let mut pr = press_action_list(s, at, t, opts);
            step.append(&mut pr);
            assert(step@ =~= st.0);
            cur = slot2;
            wi = wi2;
            sh = sh2;
        } else {
            assert(step@ =~= st.0);
        }
        assert(acts@ + (step@ + rest.0) =~= (acts@ + step@) + rest.0);
        acts.append(&mut step);
        i = i + 1;
    }
    assert(all.skip(i as int) =~= Seq::<ComboStep>::empty());
    (acts, cur, sh)
}

/// Free-fire windows are never empty, and stay within the offset bound plus one chart time.
pub proof fn lemma_free_windows_nonempty(periods: Seq<ComboPeriod>, base: int)
    requires
        -base_bound() <= base <= base_bound(),
    ensures
        forall|k: int|
            0 <= k < free_windows(periods, base).len() ==> window_ok(
                #[trigger] free_windows(periods, base)[k],
            ),
    decreases periods.len(),
{
    if periods.len() > 0 {
        lemma_free_windows_nonempty(periods.drop_last(), base);
        let w = free_windows(periods.drop_last(), base);
        let p = periods.last();
        if p.kind == PeriodKind::FreeFire && p.end_ms > p.start_ms {
            let x = ((base + p.start_ms) as i128, (base + p.end_ms) as i128);
            assert(window_ok(x));
            assert forall|k: int| 0 <= k < w.push(x).len() implies window_ok(
                #[trigger] w.push(x)[k],
            ) by {
                if k < w.len() {
                    assert(w.push(x)[k] == w[k]);
                }
            }
        }
    }
}

/// Where a full playback stands.
#[derive(Debug, Clone, Copy, PartialEq, Eq, Structural)]
pub enum Stage {
    /// The startup axis is being played.
    Startup,
    /// Loop round `n` (from 0) is being played.
    Looping(u32),
    /// The run has ended.
    Finished,
}

/// The decisions of a full playback between segments.
pub struct Scheduler {
    pub stage: Stage,
    /// Character slot the player believes is on the field.
    pub slot: Option<u8>,
    pub auto_switch: bool,
    pub loop_len: i128,
    pub max_rounds: u32,
    /// How far the timeline runs ahead of the chart, ms: the parts of free-fire
    /// periods cut off by the timeout so far.
    pub shift: i128,
    pub opts: PlaybackOptions,
}

/// Largest loop round length, ms.
pub open spec fn loop_len_bound() -> int {
    0x1_0000_0000_0000_0000i128 as int
}

impl Scheduler {
    /// Every loop round played is below the limit, and offsets stay bounded.
    pub open spec fn wf(&self) -> bool {
        &&& 1 <= self.loop_len <= loop_len_bound()
        &&& self.max_rounds == max_rounds_spec(self.opts)
        &&& 0 <= self.shift <= shift_cap()
        &&& match self.stage {
            Stage::Looping(n) => n < self.max_rounds,
            _ => true,
        }
    }
}

/// Schedule of loop round `round`: the loop steps shifted by `round` loop lengths.
pub open spec fn loop_round_plan(
    chart: ComboChart,
    s: Scheduler,
    slot: Option<u8>,
    round: int,
) -> (Seq<Action>, Option<u8>, int) {
    segment_plan(
        chart,
        steps_of_period(chart.steps@, chart.periods@, PeriodKind::LoopAxis),
        round * s.loop_len,
        s.opts,
        slot,
        s.auto_switch,
        s.shift as int,
    )
}

/// The state a run starts in and its first actions: report the start, then play the
/// startup axis, or (loop-only mode) announce round 1 and play it; a loop-only run
/// limited to no round ends at once.
pub open spec fn start_spec(chart: ComboChart, opts: PlaybackOptions) -> (Scheduler, Seq<Action>) {
    let s0 = Scheduler {
        stage: Stage::Startup,
        slot: None,
        auto_switch: auto_switch_spec(chart.steps@),
        loop_len: loop_len_spec(chart.steps@, chart.periods@) as i128,
        max_rounds: max_rounds_spec(opts),
        shift: 0,
        opts,
    };
    let started = Action::Emit(PlaybackEvent::Started { title: chart.title });
    if opts.mode != PlaybackMode::LoopOnly {
        let p = segment_plan(
            chart,
            steps_of_period(chart.steps@, chart.periods@, PeriodKind::StartupAxis),
            0,
            opts,
            None,
            s0.auto_switch,
            0,
        );
        (Scheduler { slot: p.1, shift: p.2 as i128, ..s0 }, seq![started] + p.0)
    } else if s0.max_rounds == 0 {
        (
            Scheduler { stage: Stage::Finished, ..s0 },
            seq![started, Action::Emit(PlaybackEvent::Stopped { reason: "completed" })],
        )
    } else {
        let p = loop_round_plan(chart, s0, None, 0);
        (
            Scheduler { stage: Stage::Looping(0), slot: p.1, shift: p.2 as i128, ..s0 },
            seq![started, Action::Emit(PlaybackEvent::LoopRound { round: 1 })] + p.0,
        )
    }
}

/// The next state and actions once the current segment was performed (`completed`)
/// or abandoned on a stop request.
pub open spec fn advance_spec(s: Scheduler, chart: ComboChart, completed: bool) -> (
    Scheduler,
    Seq<Action>,
) {
    let done = |reason: &'static str|
        (
            Scheduler { stage: Stage::Finished, ..s },
            seq![Action::Emit(PlaybackEvent::Stopped { reason })],
        );
    if !completed {
        done("manual")
    } else {
        match s.stage {
            Stage::Startup => if s.opts.mode == PlaybackMode::StartupOnly || s.max_rounds == 0 {
                done("completed")
            } else {
                let p = loop_round_plan(chart, s, s.slot, 0);
                (
                    Scheduler { stage: Stage::Looping(0), slot: p.1, shift: p.2 as i128, ..s },
                    seq![Action::Emit(PlaybackEvent::LoopRound { round: 1 })] + p.0,
                )
            },
            Stage::Looping(n) => if n + 1 >= s.max_rounds {
                done("completed")
            } else {
                let p = loop_round_plan(chart, s, s.slot, n + 1);
                (
                    Scheduler {
                        stage: Stage::Looping((n + 1) as u32),
                        slot: p.1,
                        shift: p.2 as i128,
                        ..s
                    },
                    seq![Action::Emit(PlaybackEvent::LoopRound { round: (n + 2) as u32 })] + p.0,
                )
            },
            Stage::Finished => (s, Seq::empty()),
        }
    }
}

fn max_rounds(opts: &PlaybackOptions) -> (r: u32)
    ensures
        r == max_rounds_spec(*opts),
{
    if opts.dry_run {
        match opts.max_loops {
            None => 2,
            Some(n) => if n < 2 {
                n
            } else {
                2
            },
        }
    } else {
        match opts.max_loops {
            None => u32::MAX,
            Some(n) => n,
        }
    }
}

impl Scheduler {
    /// Starts a run: the initial state and the first actions to perform.
    pub fn start(chart: &ComboChart, opts: &PlaybackOptions) -> (r: (Scheduler, Vec<Action>))
        ensures
            r.0 == start_spec(*chart, *opts).0,
            r.1@ == start_spec(*chart, *opts).1,
            r.0.wf(),
    {
        let auto = auto_switch(chart);
        let t = loop_len(chart);
        let max = max_rounds(opts);
        let mut acts: Vec<Action> = vec![
            Action::Emit(PlaybackEvent::Started { title: chart.title.clone() }),
        ];
        if opts.mode != PlaybackMode::LoopOnly {
            let steps = chart.startup_steps();
            let (mut p, slot, sh) = plan_segment(chart, &steps, 0, opts, None, auto, 0);
            acts.append(&mut p);
            let s = Scheduler {
                stage: Stage::Startup,
                slot,
                auto_switch: auto,
                loop_len: t,
                max_rounds: max,
                shift: sh,
                opts: *opts,
            };
            (s, acts)
        } else if max == 0 {
            acts.push(Action::Emit(PlaybackEvent::Stopped { reason: "completed" }));
            let s = Scheduler {
                stage: Stage::Finished,
                slot: None,
                auto_switch: auto,
                loop_len: t,
                max_rounds: max,
                shift: 0,
                opts: *opts,
            };
            (s, acts)
        } else {
            acts.push(Action::Emit(PlaybackEvent::LoopRound { round: 1 }));
            let steps = chart.loop_steps();
            let (mut p, slot, sh) = plan_segment(chart, &steps, 0, opts, None, auto, 0);
            acts.append(&mut p);
            let s = Scheduler {
                stage: Stage::Looping(0),
                slot,
                auto_switch: auto,
                loop_len: t,
                max_rounds: max,
                shift: sh,
                opts: *opts,
            };
            (s, acts)
        }
    }

    /// After the current segment was performed (`completed`) or abandoned on a stop
    /// request: the actions of what comes next, ending the run when it is over.
    pub fn advance(&mut self, chart: &ComboChart, completed: bool) -> (r: Vec<Action>)
        requires
            old(self).wf(),
            old(self).stage != Stage::Finished,
        ensures
            *final(self) == advance_spec(*old(self), *chart, completed).0,
            r@ == advance_spec(*old(self), *chart, completed).1,
            final(self).wf(),
    {
        if !completed {
            self.stage = Stage::Finished;
            return vec![Action::Emit(PlaybackEvent::Stopped { reason: "manual" })];
        }
        match self.stage {
            Stage::Startup => {
                if self.opts.mode == PlaybackMode::StartupOnly || self.max_rounds == 0 {
                    self.stage = Stage::Finished;
                    vec![Action::Emit(PlaybackEvent::Stopped { reason: "completed" })]
                } else {
                    let steps = chart.loop_steps();
                    let (mut p, slot, sh) = plan_segment(
                        chart,
                        &steps,
                        0,
                        &self.opts,
                        self.slot,
                        self.auto_switch,
                        self.shift,
                    );
                    let mut acts = vec![Action::Emit(PlaybackEvent::LoopRound { round: 1 })];
                    acts.append(&mut p);
                    self.stage = Stage::Looping(0);
                    self.slot = slot;
                    self.shift = sh;
                    acts
                }
            },
            Stage::Looping(n) => {
                if n >= self.max_rounds - 1 {
                    self.stage = Stage::Finished;
                    vec![Action::Emit(PlaybackEvent::Stopped { reason: "completed" })]
                } else {
                    let next = n + 1;
                    assert(next as int * self.loop_len <= 0x1_0000_0000i128 * loop_len_bound())
                        by (nonlinear_arith)
                        requires
                            next <= 0x1_0000_0000i128,
                            1 <= self.loop_len <= loop_len_bound(),
                    ;
                    let base: i128 = next as i128 * self.loop_len;
                    let steps = chart.loop_steps();
                    let (mut p, slot, sh) = plan_segment(
                        chart,
                        &steps,
                        base,
                        &self.opts,
                        self.slot,
                        self.auto_switch,
                        self.shift,
                    );
                    let mut acts = vec![Action::Emit(PlaybackEvent::LoopRound { round: next + 1 })];
                    acts.append(&mut p);
                    self.stage = Stage::Looping(next);
                    self.slot = slot;
                    self.shift = sh;
                    acts
                }
            },
            Stage::Finished => Vec::new(),
        }
    }
}

/// The action reports the end of the run.
pub open spec fn is_stop(a: Action) -> bool {
    a matches Action::Emit(PlaybackEvent::Stopped { .. })
}

/// The action neither waits, sleeps nor touches a device.
pub open spec fn is_quiet(a: Action) -> bool {
    a is CheckStop || a is Emit
}

/// No action of the schedule ends the run; in a dry run none of them waits or presses.
pub open spec fn plan_ok(acts: Seq<Action>, dry_run: bool) -> bool {
    forall|i: int| 0 <= i < acts.len() ==> !is_stop(#[trigger] acts[i]) && (dry_run ==> is_quiet(acts[i]))
}

proof fn lemma_plan_ok_add(a: Seq<Action>, b: Seq<Action>, dry_run: bool)
    requires
        plan_ok(a, dry_run),
        plan_ok(b, dry_run),
    ensures
        plan_ok(a + b, dry_run),
{
    assert forall|i: int| 0 <= i < (a + b).len() implies !is_stop(#[trigger] (a + b)[i]) && (dry_run
        ==> is_quiet((a + b)[i])) by {
        if i < a.len() {
            assert((a + b)[i] == a[i]);
        } else {
            assert((a + b)[i] == b[i - a.len()]);
        }
    }
}

proof fn lemma_window_waits_ok(
    windows: Seq<(i128, i128)>,
    wi: int,
    at: int,
    opts: PlaybackOptions,
    shift: int,
)
    ensures
        plan_ok(window_waits(windows, wi, at, opts, shift).0, opts.dry_run),
    decreases windows.len() - wi,
{
    if 0 <= wi < windows.len() && windows[wi].0 <= at {
        let sh2 = add_cut(shift, window_cut(windows[wi], opts));
        lemma_window_waits_ok(windows, wi + 1, at, opts, sh2);
        lemma_plan_ok_add(
            window_actions(windows[wi], opts, shift),
            window_waits(windows, wi + 1, at, opts, sh2).0,
            opts.dry_run,
        );
    }
}

proof fn lemma_plan_steps_ok(
    windows: Seq<(i128, i128)>,
    base: int,
    opts: PlaybackOptions,
    auto: bool,
    steps: Seq<ComboStep>,
    slot: Option<u8>,
    wi: int,
    shift: int,
)
    ensures
        plan_ok(plan_steps(windows, base, opts, auto, steps, slot, wi, shift).0, opts.dry_run),
    decreases steps.len(),
{
    if steps.len() > 0 {
        let s = steps[0];
        let st = step_actions(windows, base, opts, auto, s, slot, wi, shift);
        let at = base + s.start_min;
        if !in_free(windows, at) {
            let ww = window_waits(windows, wi, at, opts, shift);
            lemma_window_waits_ok(windows, wi, at, opts, shift);
            let t = at - ww.2;
            let wait_at = if opts.dry_run {
                Seq::empty()
            } else {
                seq![Action::WaitUntil(clamp_i64(t))]
            };
            let sw = switch_actions(s, slot, auto, opts);
            let pr = press_actions(s, at, t, opts);
            assert(plan_ok(wait_at, opts.dry_run));
            assert(plan_ok(sw.0, opts.dry_run));
            assert(plan_ok(pr, opts.dry_run));
            assert(plan_ok(seq![Action::CheckStop], opts.dry_run));
            lemma_plan_ok_add(seq![Action::CheckStop], ww.0, opts.dry_run);
            lemma_plan_ok_add(seq![Action::CheckStop] + ww.0, wait_at, opts.dry_run);
            lemma_plan_ok_add(seq![Action::CheckStop] + ww.0 + wait_at, sw.0, opts.dry_run);
            lemma_plan_ok_add(seq![Action::CheckStop] + ww.0 + wait_at + sw.0, pr, opts.dry_run);
        } else {
            assert(plan_ok(st.0, opts.dry_run));
        }
        lemma_plan_steps_ok(windows, base, opts, auto, steps.drop_first(), st.1, st.2, st.3);
        lemma_plan_ok_add(
            st.0,
            plan_steps(windows, base, opts, auto, steps.drop_first(), st.1, st.2, st.3).0,
            opts.dry_run,
        );
    }
}

proof fn lemma_window_waits_shift(
    windows: Seq<(i128, i128)>,
    wi: int,
    at: int,
    opts: PlaybackOptions,
    shift: int,
)
    requires
        0 <= shift <= shift_cap(),
        forall|k: int| 0 <= k < windows.len() ==> window_ok(#[trigger] windows[k]),
    ensures
        0 <= window_waits(windows, wi, at, opts, shift).2 <= shift_cap(),
    decreases windows.len() - wi,
{
    if 0 <= wi < windows.len() && windows[wi].0 <= at {
        assert(window_ok(windows[wi]));
        lemma_window_waits_shift(
            windows,
            wi + 1,
            at,
            opts,
            add_cut(shift, window_cut(windows[wi], opts)),
        );
    }
}

proof fn lemma_plan_steps_shift(
    windows: Seq<(i128, i128)>,
    base: int,
    opts: PlaybackOptions,
    auto: bool,
    steps: Seq<ComboStep>,
    slot: Option<u8>,
    wi: int,
    shift: int,
)
    requires
        0 <= shift <= shift_cap(),
        forall|k: int| 0 <= k < windows.len() ==> window_ok(#[trigger] windows[k]),
    ensures
        0 <= plan_steps(windows, base, opts, auto, steps, slot, wi, shift).2 <= shift_cap(),
    decreases steps.len(),
{
    if steps.len() > 0 {
        let st = step_actions(windows, base, opts, auto, steps[0], slot, wi, shift);
        lemma_window_waits_shift(windows, wi, base + steps[0].start_min, opts, shift);
        lemma_plan_steps_shift(windows, base, opts, auto, steps.drop_first(), st.1, st.2, st.3);
    }
}

/// The advance of the timeline after a segment stays within [`shift_cap`].
pub proof fn lemma_segment_shift_bounded(
    chart: ComboChart,
    steps: Seq<ComboStep>,
    base: int,
    opts: PlaybackOptions,
    slot: Option<u8>,
    auto: bool,
    shift: int,
)
    requires
        -base_bound() <= base <= base_bound(),
        0 <= shift <= shift_cap(),
    ensures
        0 <= segment_plan(chart, steps, base, opts, slot, auto, shift).2 <= shift_cap(),
{
    lemma_free_windows_nonempty(chart.periods@, base);
    lemma_plan_steps_shift(free_windows(chart.periods@, base), base, opts, auto, steps, slot, 0, shift);
}

/// A segment schedule never ends the run, and in a dry run it only checks for stops
/// and reports events: no key is sent and nothing waits.
pub proof fn law_segment_plan_quiet(
    chart: ComboChart,
    steps: Seq<ComboStep>,
    base: int,
    opts: PlaybackOptions,
    slot: Option<u8>,
    auto: bool,
    shift: int,
)
    ensures
        plan_ok(segment_plan(chart, steps, base, opts, slot, auto, shift).0, opts.dry_run),
{
    lemma_plan_steps_ok(free_windows(chart.periods@, base), base, opts, auto, steps, slot, 0, shift);
}

/// After a free-fire window the timeline resumes once the window's wait is over: what
/// was due at the window's end is due at its (advanced) start plus the wait, at most
/// the timeout.
pub proof fn law_free_fire_bounded(w: (i128, i128), opts: PlaybackOptions, shift: int)
    requires
        window_ok(w),
        0 <= shift,
        shift + window_cut(w, opts) <= shift_cap(),
    ensures
        w.1 - add_cut(shift, window_cut(w, opts)) == (w.0 - shift) + window_wait(w, opts),
        window_wait(w, opts) <= opts.free_fire_timeout_ms,
        0 <= window_cut(w, opts),
{
}

/// A run reports its start first; its first actions end the run only when a loop-only
/// run is limited to no loop round, and then they are the start and the end report.
pub proof fn law_run_starts(chart: ComboChart, opts: PlaybackOptions)
    ensures
        start_spec(chart, opts).1[0] == Action::Emit(PlaybackEvent::Started { title: chart.title }),
        (start_spec(chart, opts).0.stage == Stage::Finished) == (opts.mode == PlaybackMode::LoopOnly
            && max_rounds_spec(opts) == 0),
        (start_spec(chart, opts).0.stage == Stage::Finished) == (exists|i: int|
            0 <= i < start_spec(chart, opts).1.len() && is_stop(#[trigger] start_spec(chart, opts).1[i])),
{
    let s0 = start_spec(chart, opts).0;
    let acts = start_spec(chart, opts).1;
    if opts.mode != PlaybackMode::LoopOnly {
        let sp = steps_of_period(chart.steps@, chart.periods@, PeriodKind::StartupAxis);
        law_segment_plan_quiet(chart, sp, 0, opts, None, s0.auto_switch, 0);
        let p = segment_plan(chart, sp, 0, opts, None, s0.auto_switch, 0);
        lemma_plan_ok_add(
            seq![Action::Emit(PlaybackEvent::Started { title: chart.title })],
            p.0,
            false,
        );
    } else if max_rounds_spec(opts) == 0 {
        assert(is_stop(acts[1]));
    } else {
        let lp = steps_of_period(chart.steps@, chart.periods@, PeriodKind::LoopAxis);
        let z = Scheduler { stage: Stage::Startup, slot: None, shift: 0, ..s0 };
        law_segment_plan_quiet(chart, lp, 0, opts, None, s0.auto_switch, 0);
        let p = loop_round_plan(chart, z, None, 0);
        assert(p == segment_plan(chart, lp, 0, opts, None, s0.auto_switch, 0));
        lemma_plan_ok_add(
            seq![
                Action::Emit(PlaybackEvent::Started { title: chart.title }),
                Action::Emit(PlaybackEvent::LoopRound { round: 1 }),
            ],
            p.0,
            false,
        );
    }
}

/// The run reports its end exactly when it finishes: a step of a live run emits a
/// stop report iff the run is then over, and then the report is the only action.
/// A stop request always ends the run as a manual stop.
pub proof fn law_single_stop(s: Scheduler, chart: ComboChart, completed: bool)
    requires
        s.stage != Stage::Finished,
    ensures
        (advance_spec(s, chart, completed).0.stage == Stage::Finished) == (exists|i: int|
            0 <= i < advance_spec(s, chart, completed).1.len() && is_stop(
                #[trigger] advance_spec(s, chart, completed).1[i],
            )),
        advance_spec(s, chart, completed).0.stage == Stage::Finished ==> advance_spec(
            s,
            chart,
            completed,
        ).1.len() == 1,
        !completed ==> advance_spec(s, chart, completed).0.stage == Stage::Finished
            && advance_spec(s, chart, completed).1 == seq![
            Action::Emit(PlaybackEvent::Stopped { reason: "manual" }),
        ],
{
    let r = advance_spec(s, chart, completed);
    if r.0.stage == Stage::Finished {
        assert(is_stop(r.1[0]));
    } else {
        let lp = steps_of_period(chart.steps@, chart.periods@, PeriodKind::LoopAxis);
        let n: int = match s.stage {
            Stage::Looping(m) => m + 1,
            _ => 0,
        };
        law_segment_plan_quiet(chart, lp, n * s.loop_len, s.opts, s.slot, s.auto_switch, s.shift as int);
        let p = loop_round_plan(chart, s, s.slot, n);
        let head = seq![Action::Emit(PlaybackEvent::LoopRound { round: (n + 1) as u32 })];
        lemma_plan_ok_add(head, p.0, false);
        assert(r.1 == head + p.0);
    }
}

/// Every loop round played is below the limit: with a limit of 0 no loop round is
/// played, and a dry run plays at most two rounds.
pub proof fn law_rounds_bounded(s: Scheduler, chart: ComboChart, completed: bool)
    requires
        s.wf(),
        s.stage != Stage::Finished,
    ensures
        advance_spec(s, chart, completed).0.wf(),
        advance_spec(s, chart, completed).0.stage matches Stage::Looping(n) ==> n < s.max_rounds,
        s.max_rounds == 0 ==> !(advance_spec(s, chart, completed).0.stage is Looping),
        s.opts.dry_run ==> s.max_rounds <= 2,
{
    let lp = steps_of_period(chart.steps@, chart.periods@, PeriodKind::LoopAxis);
    let n: int = match s.stage {
        Stage::Looping(m) => m + 1,
        _ => 0,
    };
    if n < s.max_rounds {
        assert(n * s.loop_len <= 0x1_0000_0000i128 * loop_len_bound()) by (nonlinear_arith)
            requires
                0 <= n <= 0x1_0000_0000i128,
                1 <= s.loop_len <= loop_len_bound(),
        ;
        assert(0 <= n * s.loop_len) by (nonlinear_arith)
            requires
                0 <= n,
                1 <= s.loop_len,
        ;
        lemma_segment_shift_bounded(
            chart,
            lp,
            n * s.loop_len,
            s.opts,
            s.slot,
            s.auto_switch,
            s.shift as int,
        );
    }
}

/// The action performs or reports a character switch of its own.
pub open spec fn is_auto_switch(a: Action) -> bool {
    a is Tap || a matches Action::Emit(PlaybackEvent::Switch { .. })
}

/// No action of the schedule switches characters by itself.
pub open spec fn switch_free(acts: Seq<Action>) -> bool {
    forall|i: int| 0 <= i < acts.len() ==> !is_auto_switch(#[trigger] acts[i])
}

proof fn lemma_switch_free_add(a: Seq<Action>, b: Seq<Action>)
    requires
        switch_free(a),
        switch_free(b),
    ensures
        switch_free(a + b),
{
    assert forall|i: int| 0 <= i < (a + b).len() implies !is_auto_switch(#[trigger] (a + b)[i]) by {
        if i < a.len() {
            assert((a + b)[i] == a[i]);
        } else {
            assert((a + b)[i] == b[i - a.len()]);
        }
    }
}

proof fn lemma_window_waits_switch_free(
    windows: Seq<(i128, i128)>,
    wi: int,
    at: int,
    opts: PlaybackOptions,
    shift: int,
)
    ensures
        switch_free(window_waits(windows, wi, at, opts, shift).0),
    decreases windows.len() - wi,
{
    if 0 <= wi < windows.len() && windows[wi].0 <= at {
        let sh2 = add_cut(shift, window_cut(windows[wi], opts));
        lemma_window_waits_switch_free(windows, wi + 1, at, opts, sh2);
        let w = window_actions(windows[wi], opts, shift);
        assert(switch_free(w));
        lemma_switch_free_add(w, window_waits(windows, wi + 1, at, opts, sh2).0);
    }
}

proof fn lemma_plan_steps_switch_free(
    windows: Seq<(i128, i128)>,
    base: int,
    opts: PlaybackOptions,
    steps: Seq<ComboStep>,
    slot: Option<u8>,
    wi: int,
    shift: int,
)
    ensures
        switch_free(plan_steps(windows, base, opts, false, steps, slot, wi, shift).0),
        plan_steps(windows, base, opts, false, steps, slot, wi, shift).1 == slot,
    decreases steps.len(),
{
    if steps.len() > 0 {
        let s = steps[0];
        let st = step_actions(windows, base, opts, false, s, slot, wi, shift);
        let at = base + s.start_min;
        if !in_free(windows, at) {
            let ww = window_waits(windows, wi, at, opts, shift);
            lemma_window_waits_switch_free(windows, wi, at, opts, shift);
            let t = at - ww.2;
            let wait_at = if opts.dry_run {
                Seq::empty()
            } else {
                seq![Action::WaitUntil(clamp_i64(t))]
            };
            let sw = switch_actions(s, slot, false, opts);
            let pr = press_actions(s, at, t, opts);
            assert(sw.0 =~= Seq::<Action>::empty());
            assert(switch_free(wait_at));
            assert(switch_free(sw.0));
            assert(switch_free(pr));
            assert(switch_free(seq![Action::CheckStop]));
            lemma_switch_free_add(seq![Action::CheckStop], ww.0);
            lemma_switch_free_add(seq![Action::CheckStop] + ww.0, wait_at);
            lemma_switch_free_add(seq![Action::CheckStop] + ww.0 + wait_at, sw.0);
            lemma_switch_free_add(seq![Action::CheckStop] + ww.0 + wait_at + sw.0, pr);
        } else {
            assert(switch_free(st.0));
        }
        lemma_plan_steps_switch_free(windows, base, opts, steps.drop_first(), st.1, st.2, st.3);
        lemma_switch_free_add(
            st.0,
            plan_steps(windows, base, opts, false, steps.drop_first(), st.1, st.2, st.3).0,
        );
    }
}

/// Without automatic switching (a chart that switches with its own `switch_*` steps) a
/// segment schedule taps no switch key and reports no switch, and the character slot the
/// player believes is on the field stays as it was.
pub proof fn law_no_auto_switch_keeps_slot(
    chart: ComboChart,
    steps: Seq<ComboStep>,
    base: int,
    opts: PlaybackOptions,
    slot: Option<u8>,
    shift: int,
)
    ensures
        forall|i: int|
            0 <= i < segment_plan(chart, steps, base, opts, slot, false, shift).0.len()
                ==> !is_auto_switch(#[trigger] segment_plan(chart, steps, base, opts, slot, false, shift).0[i]),
        segment_plan(chart, steps, base, opts, slot, false, shift).1 == slot,
{
    lemma_plan_steps_switch_free(free_windows(chart.periods@, base), base, opts, steps, slot, 0, shift);
}

/// Press length of a move: a hold move is held for its `duration_min` (whatever its
/// `duration_max`), but at least a tap; any other move is a tap.
pub proof fn law_hold_length(s: ComboStep)
    ensures
        is_hold_id(s.move_id@) && s.duration_min >= DEFAULT_TAP_MS ==> hold_ms_spec(s)
            == s.duration_min,
        is_hold_id(s.move_id@) && s.duration_min < DEFAULT_TAP_MS ==> hold_ms_spec(s)
            == DEFAULT_TAP_MS,
        !is_hold_id(s.move_id@) ==> hold_ms_spec(s) == DEFAULT_TAP_MS,
        forall|d: i64| hold_ms_spec(s) == #[trigger] hold_ms_spec(ComboStep { duration_max: d, ..s }),
{
}

} // verus!
