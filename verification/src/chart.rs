//! Combo chart model (field for field the wwcombo `ComboChart`, version 3).
//!
//! Times are whole milliseconds. Parsing the JSON file is done outside this
//! library, which then hands the chart over in this form.
use std::collections::HashMap;
use vstd::prelude::*;

use crate::text::{chars_of, chars_eq};

verus! {

/// Whether a step occupies the combo's progression (a semantic flag, not a track).
#[derive(Debug, Clone, Copy, PartialEq, Eq, Structural)]
pub enum Lane {
    Main,
    Independent,
}

/// The kind of a chart period.
#[derive(Debug, Clone, Copy, PartialEq, Eq, Structural)]
pub enum PeriodKind {
    DraftPeriod,
    FreeFire,
    StartupAxis,
    LoopAxis,
}

/// One recorded sample of a step.
#[derive(Debug, Clone)]
pub struct ComboStepSample {
    pub recording_id: String,
    pub start_time: i64,
    pub duration: i64,
}

/// Community metadata of a shared chart.
#[derive(Debug, Clone)]
pub struct ComboCommunityMetadata {
    pub id: String,
    pub name: String,
    pub tags: Vec<String>,
    pub description: String,
    pub characters: Vec<String>,
    pub rounds: u32,
    pub link: String,
    pub wheelchair_eligible: bool,
    pub exported_at: i64,
}

/// One move of a chart.
#[derive(Debug, Clone)]
pub struct ComboStep {
    pub id: String,
    pub move_id: String,
    pub label: String,
    pub custom_label: Option<bool>,
    /// Character slot (1-4) performing the move.
    pub character_slot: Option<u8>,
    pub workshop_lane: Option<String>,
    pub lane: Lane,
    pub independent: bool,
    pub start_min: i64,
    pub start_max: i64,
    pub duration_min: i64,
    pub duration_max: i64,
    /// Pre-input: the press moves `preheat_ms` ahead of `start_min`.
    pub preheat_ms: Option<i64>,
    pub recovery_ms: Option<i64>,
    pub manual_free: Option<bool>,
    pub free: Option<bool>,
    pub note: Option<String>,
    pub color: Option<String>,
    pub advances_step: bool,
    pub samples: Vec<ComboStepSample>,
}

/// A time period of a chart (startup, loop, free fire, draft).
#[derive(Debug, Clone)]
pub struct ComboPeriod {
    pub id: String,
    pub kind: PeriodKind,
    pub label: Option<String>,
    pub character_slot: Option<u8>,
    pub lane: Option<Lane>,
    pub start_ms: i64,
    pub end_ms: i64,
    pub loop_index: Option<u32>,
}

/// Timing patch of a step (editor save): located by id, min and max written together.
#[derive(Debug, Clone)]
pub struct StepPatch {
    pub id: String,
    pub start_min: i64,
    pub duration_min: i64,
}

/// A combo chart.
#[derive(Debug, Clone)]
pub struct ComboChart {
    pub id: String,
    pub title: String,
    pub character_count: Option<u8>,
    pub character: Option<String>,
    pub author: Option<String>,
    pub tags: Vec<String>,
    pub community: Option<ComboCommunityMetadata>,
    pub content_labels: Option<HashMap<String, String>>,
    pub timeline_duration_ms: Option<i64>,
    pub version: u32,
    pub created_at: i64,
    pub updated_at: i64,
    pub start_trigger_move_id: Option<String>,
    pub stop_trigger_move_id: Option<String>,
    pub steps: Vec<ComboStep>,
    pub periods: Vec<ComboPeriod>,
}

impl Default for Lane {
    fn default() -> (r: Lane)
        ensures
            r == Lane::Main,
    {
        Lane::Main
    }
}

impl Default for ComboStep {
    fn default() -> (r: ComboStep)
        ensures
            r.id@ == Seq::<char>::empty(),
            r.move_id@ == Seq::<char>::empty(),
            r.label@ == Seq::<char>::empty(),
            r.custom_label is None,
            r.character_slot is None,
            r.workshop_lane is None,
            r.lane == Lane::Main,
            !r.independent,
            r.start_min == 0,
            r.start_max == 0,
            r.duration_min == 0,
            r.duration_max == 0,
            r.preheat_ms is None,
            r.recovery_ms is None,
            r.manual_free is None,
            r.free is None,
            r.note is None,
            r.color is None,
            !r.advances_step,
            r.samples@ == Seq::<ComboStepSample>::empty(),
    {
        ComboStep {
            id: String::new(),
            move_id: String::new(),
            label: String::new(),
            custom_label: None,
            character_slot: None,
            workshop_lane: None,
            lane: Lane::Main,
            independent: false,
            start_min: 0,
            start_max: 0,
            duration_min: 0,
            duration_max: 0,
            preheat_ms: None,
            recovery_ms: None,
            manual_free: None,
            free: None,
            note: None,
            color: None,
            advances_step: false,
            samples: Vec::new(),
        }
    }
}

/// Recording-control and display-only moves, which playback skips.
pub open spec fn skippable_id(id: Seq<char>) -> bool {
    id == "start_challenge"@ || id == "stop_recording"@ || id == "empty_action"@
}

/// The first period of `kind`, if any.
pub open spec fn find_period(ps: Seq<ComboPeriod>, kind: PeriodKind) -> Option<ComboPeriod>
    decreases ps.len(),
{
    if ps.len() == 0 {
        None
    } else if ps[0].kind == kind {
        Some(ps[0])
    } else {
        find_period(ps.drop_first(), kind)
    }
}

/// The `[start, end)` window of the first period of `kind`.
pub open spec fn period_range(ps: Seq<ComboPeriod>, kind: PeriodKind) -> Option<(i64, i64)> {
    match find_period(ps, kind) {
        Some(p) => Some((p.start_ms, p.end_ms)),
        None => None,
    }
}

/// A step starts inside the window (every step is inside a missing window).
pub open spec fn in_range(s: ComboStep, range: Option<(i64, i64)>) -> bool {
    match range {
        Some((lo, hi)) => lo <= s.start_min && s.start_min < hi,
        None => true,
    }
}

/// `t` lies inside a draft period of the chart.
pub open spec fn in_draft(periods: Seq<ComboPeriod>, t: i64) -> bool {
    exists|k: int|
        0 <= k < periods.len() && (#[trigger] periods[k]).kind == PeriodKind::DraftPeriod
            && periods[k].start_ms <= t && t < periods[k].end_ms
}

/// A step the player performs: neither a recording-control or display-only move nor
/// a step that starts inside a draft period.
pub open spec fn is_played(s: ComboStep, periods: Seq<ComboPeriod>) -> bool {
    !skippable_id(s.move_id@) && !in_draft(periods, s.start_min)
}

/// The steps that are played (see [`is_played`]) and start inside the window, in chart order.
pub open spec fn playable(
    steps: Seq<ComboStep>,
    periods: Seq<ComboPeriod>,
    range: Option<(i64, i64)>,
) -> Seq<ComboStep>
    decreases steps.len(),
{
    if steps.len() == 0 {
        steps
    } else if is_played(steps.last(), periods) && in_range(steps.last(), range) {
        playable(steps.drop_last(), periods, range).push(steps.last())
    } else {
        playable(steps.drop_last(), periods, range)
    }
}

/// Where a step starting at `key` goes in a start-ordered sequence: after every
/// step that starts no later (so equal starts keep their chart order).
pub open spec fn insert_pos(sorted: Seq<ComboStep>, key: i64) -> int
    decreases sorted.len(),
{
    if sorted.len() == 0 {
        0
    } else if sorted.last().start_min <= key {
        sorted.len() as int
    } else {
        insert_pos(sorted.drop_last(), key)
    }
}

/// Stable ordering of steps by start time.
pub open spec fn sort_by_start(s: Seq<ComboStep>) -> Seq<ComboStep>
    decreases s.len(),
{
    if s.len() == 0 {
        s
    } else {
        let rest = sort_by_start(s.drop_last());
        rest.insert(insert_pos(rest, s.last().start_min), s.last())
    }
}

/// Ordered by start time.
pub open spec fn start_ordered(s: Seq<ComboStep>) -> bool {
    forall|i: int, j: int| 0 <= i < j < s.len() ==> s[i].start_min <= s[j].start_min
}

/// The steps behind a sequence of step references.
pub open spec fn deref_steps(v: Seq<&ComboStep>) -> Seq<ComboStep> {
    v.map_values(|r: &ComboStep| *r)
}

/// The played steps of a period in play order; every played step when the chart has no such period.
pub open spec fn steps_of_period(
    steps: Seq<ComboStep>,
    periods: Seq<ComboPeriod>,
    kind: PeriodKind,
) -> Seq<ComboStep> {
    sort_by_start(playable(steps, periods, period_range(periods, kind)))
}

fn is_text(cs: &Vec<char>, lit: &str) -> (r: bool)
    ensures
        r == (cs@ == lit@),
{
    let cl = chars_of(lit);
    chars_eq(cs, &cl)
}

fn in_draft_period(periods: &Vec<ComboPeriod>, t: i64) -> (r: bool)
    ensures
        r == in_draft(periods@, t),
{
    let mut k: usize = 0;
    while k < periods.len()
        invariant
            k <= periods.len(),
            forall|j: int|
                0 <= j < k ==> !((#[trigger] periods@[j]).kind == PeriodKind::DraftPeriod
                    && periods@[j].start_ms <= t && t < periods@[j].end_ms),
        decreases periods.len() - k,
    {
        let p = &periods[k];
        if p.kind == PeriodKind::DraftPeriod && p.start_ms <= t && t < p.end_ms {
            assert(periods@[k as int] == *p);
            return true;
        }
        k = k + 1;
    }
    false
}

impl ComboStep {
    /// Recording-control and display-only moves are skipped by the player.
    pub fn is_skippable(&self) -> (r: bool)
        ensures
            r == skippable_id(self.move_id@),
    {
        let id = chars_of(self.move_id.as_str());
        is_text(&id, "start_challenge") || is_text(&id, "stop_recording") || is_text(
            &id,
            "empty_action",
        )
    }
}

impl ComboChart {
    /// The first period of the given kind.
    pub fn period(&self, kind: PeriodKind) -> (r: Option<&ComboPeriod>)
        ensures
            match r {
                Some(p) => find_period(self.periods@, kind) == Some(*p),
                None => find_period(self.periods@, kind) is None,
            },
    {
        let mut i: usize = 0;
        assert(self.periods@.skip(0) =~= self.periods@);
        while i < self.periods.len()
            invariant
                i <= self.periods.len(),
                find_period(self.periods@, kind) == find_period(self.periods@.skip(i as int), kind),
            decreases self.periods.len() - i,
        {
            assert(self.periods@.skip(i as int)[0] == self.periods@[i as int]);
            assert(self.periods@.skip(i as int).drop_first() =~= self.periods@.skip(i + 1));
            if self.periods[i].kind == kind {
                return Some(&self.periods[i]);
            }
            i = i + 1;
        }
        assert(self.periods@.skip(i as int) =~= Seq::<ComboPeriod>::empty());
        None
    }

    /// Startup steps (played, ordered by start); all played steps when the chart has no startup period.
    pub fn startup_steps(&self) -> (r: Vec<&ComboStep>)
        ensures
            deref_steps(r@) == steps_of_period(self.steps@, self.periods@, PeriodKind::StartupAxis),
            start_ordered(deref_steps(r@)),
    {
        self.steps_in_period(PeriodKind::StartupAxis)
    }

    /// Loop steps (played, ordered by start); all played steps when the chart has no loop period.
    pub fn loop_steps(&self) -> (r: Vec<&ComboStep>)
        ensures
            deref_steps(r@) == steps_of_period(self.steps@, self.periods@, PeriodKind::LoopAxis),
            start_ordered(deref_steps(r@)),
    {
        self.steps_in_period(PeriodKind::LoopAxis)
    }

    /// The played steps (neither skippable nor inside a draft period) whose start lies in
    /// the first period of `kind` (all played steps without such a period), stably ordered
    /// by start. Lanes do not split the timeline.
    pub fn steps_in_period(&self, kind: PeriodKind) -> (r: Vec<&ComboStep>)
        ensures
            deref_steps(r@) == steps_of_period(self.steps@, self.periods@, kind),
            start_ordered(deref_steps(r@)),
    {
        let range: Option<(i64, i64)> = match self.period(kind) {
            Some(p) => Some((p.start_ms, p.end_ms)),
            None => None,
        };
        assert(range == period_range(self.periods@, kind));
        let mut out: Vec<&ComboStep> = Vec::new();
        let mut i: usize = 0;
        while i < self.steps.len()
            invariant
                i <= self.steps.len(),
                deref_steps(out@) == sort_by_start(
                    playable(self.steps@.take(i as int), self.periods@, range),
                ),
            decreases self.steps.len() - i,
        {
            let s = &self.steps[i];
            let ghost prefix = self.steps@.take(i as int);
            assert(self.steps@.take(i + 1).drop_last() =~= prefix);
            assert(self.steps@.take(i + 1).last() == *s);
            let keep = !s.is_skippable() && !in_draft_period(&self.periods, s.start_min) && match range {
                Some((lo, hi)) => lo <= s.start_min && s.start_min < hi,
                None => true,
            };
            if keep {
                let key = s.start_min;
                let mut k: usize = out.len();
                assert(deref_steps(out@).take(k as int) =~= deref_steps(out@));
                while k > 0 && out[k - 1].start_min > key
                    invariant
                        k <= out.len(),
                        insert_pos(deref_steps(out@), key) == insert_pos(
                            deref_steps(out@).take(k as int),
                            key,
                        ),
                    decreases k,
                {
                    assert(deref_steps(out@).take(k as int).drop_last() =~= deref_steps(
                        out@,
                    ).take(k - 1));
                    k = k - 1;
                }
                assert(insert_pos(deref_steps(out@), key) == k as int) by {
                    assert(deref_steps(out@).take(k as int).len() == k);
                    if k > 0 {
                        assert(deref_steps(out@).take(k as int).last() == *out@[k - 1]);
                    }
                };
                let ghost before = out@;
                out.insert(k, s);
                assert(deref_steps(out@) =~= deref_steps(before).insert(k as int, *s));
                let ghost pl = playable(prefix, self.periods@, range);
                assert(pl.push(*s).drop_last() =~= pl);
                assert(playable(self.steps@.take(i + 1), self.periods@, range) == pl.push(*s));
            } else {
                assert(playable(self.steps@.take(i + 1), self.periods@, range) == playable(
                    prefix,
                    self.periods@,
                    range,
                ));
            }
            i = i + 1;
        }
        assert(self.steps@.take(i as int) =~= self.steps@);
        proof {
            lemma_sort_by_start_ordered(playable(self.steps@, self.periods@, range));
        }
        out
    }
}

/// In a start-ordered sequence, the insert position splits the steps into those
/// starting no later than `key` and those starting after it.
pub proof fn lemma_insert_pos_splits(sorted: Seq<ComboStep>, key: i64)
    requires
        start_ordered(sorted),
    ensures
        0 <= insert_pos(sorted, key) <= sorted.len(),
        forall|i: int| 0 <= i < insert_pos(sorted, key) ==> sorted[i].start_min <= key,
        forall|i: int| insert_pos(sorted, key) <= i < sorted.len() ==> sorted[i].start_min > key,
    decreases sorted.len(),
{
    if sorted.len() > 0 {
        let d = sorted.drop_last();
        assert(start_ordered(d));
        if sorted.last().start_min > key {
            lemma_insert_pos_splits(d, key);
            assert forall|i: int| insert_pos(sorted, key) <= i < sorted.len() implies sorted[i].start_min
                > key by {
                if i < d.len() {
                    assert(sorted[i] == d[i]);
                }
            }
            assert forall|i: int| 0 <= i < insert_pos(sorted, key) implies sorted[i].start_min
                <= key by {
                assert(sorted[i] == d[i]);
            }
        } else {
            assert forall|i: int| 0 <= i < insert_pos(sorted, key) implies sorted[i].start_min
                <= key by {
                if i < sorted.len() - 1 {
                    assert(sorted[i].start_min <= sorted[sorted.len() - 1].start_min);
                }
            }
        }
    }
}

/// Stable insertion keeps a sequence ordered by start.
pub proof fn lemma_sort_by_start_ordered(s: Seq<ComboStep>)
    ensures
        start_ordered(sort_by_start(s)),
        sort_by_start(s).len() == s.len(),
        sort_by_start(s).to_multiset() == s.to_multiset(),
    decreases s.len(),
{
    broadcast use vstd::seq_lib::to_multiset_insert, vstd::seq_lib::to_multiset_build;

    if s.len() > 0 {
        let rest = sort_by_start(s.drop_last());
        lemma_sort_by_start_ordered(s.drop_last());
        let x = s.last();
        let k = insert_pos(rest, x.start_min);
        lemma_insert_pos_splits(rest, x.start_min);
        rest.insert_ensures(k, x);
        let r = rest.insert(k, x);
        assert forall|i: int, j: int| 0 <= i < j < r.len() implies r[i].start_min
            <= r[j].start_min by {
            if j < k {
            } else if j == k {
            } else if i < k {
                assert(r[j] == rest[j - 1]);
            } else if i == k {
                assert(r[j] == rest[j - 1]);
            } else {
                assert(r[j] == rest[j - 1]);
                assert(r[i] == rest[i - 1]);
            }
        }
        assert(s.drop_last().push(x) =~= s);
    }
}

proof fn lemma_playable_members(
    steps: Seq<ComboStep>,
    periods: Seq<ComboPeriod>,
    range: Option<(i64, i64)>,
)
    ensures
        forall|i: int|
            0 <= i < playable(steps, periods, range).len() ==> is_played(
                #[trigger] playable(steps, periods, range)[i],
                periods,
            ) && in_range(playable(steps, periods, range)[i], range),
        forall|i: int|
            0 <= i < playable(steps, periods, range).len() ==> steps.contains(
                #[trigger] playable(steps, periods, range)[i],
            ),
    decreases steps.len(),
{
    if steps.len() > 0 {
        lemma_playable_members(steps.drop_last(), periods, range);
        let p = playable(steps, periods, range);
        let prev = playable(steps.drop_last(), periods, range);
        assert forall|i: int| 0 <= i < p.len() implies steps.contains(#[trigger] p[i]) by {
            if i < prev.len() {
                assert(p[i] == prev[i]);
                let j = choose|j: int| 0 <= j < steps.drop_last().len() && steps.drop_last()[j] == p[i];
                assert(steps[j] == p[i]);
            } else {
                assert(steps[steps.len() - 1] == p[i]);
            }
        }
    }
}

/// Playback never plays a recording-control or display-only move nor a step that starts
/// inside a draft period, plays only steps of the chart, and plays only steps that start
/// inside the period (when the chart has it).
pub proof fn law_period_steps_playable(
    steps: Seq<ComboStep>,
    periods: Seq<ComboPeriod>,
    kind: PeriodKind,
)
    ensures
        forall|i: int|
            0 <= i < steps_of_period(steps, periods, kind).len() ==> {
                let s = #[trigger] steps_of_period(steps, periods, kind)[i];
                &&& !skippable_id(s.move_id@)
                &&& !in_draft(periods, s.start_min)
                &&& in_range(s, period_range(periods, kind))
                &&& steps.contains(s)
            },
        steps_of_period(steps, periods, kind).to_multiset() == playable(
            steps,
            periods,
            period_range(periods, kind),
        ).to_multiset(),
{
    let range = period_range(periods, kind);
    let p = playable(steps, periods, range);
    lemma_playable_members(steps, periods, range);
    lemma_sort_by_start_ordered(p);
    let r = sort_by_start(p);
    assert forall|i: int| 0 <= i < r.len() implies {
        let s = #[trigger] r[i];
        &&& !skippable_id(s.move_id@)
        &&& !in_draft(periods, s.start_min)
        &&& in_range(s, range)
        &&& steps.contains(s)
    } by {
        assert(r.to_multiset().count(r[i]) > 0) by {
            broadcast use vstd::seq_lib::group_to_multiset_ensures;
            assert(r.contains(r[i]));
        }
        assert(p.contains(r[i])) by {
            broadcast use vstd::seq_lib::group_to_multiset_ensures;
        }
    }
}

/// The step is played by the rules of the chart: not a recording-control or display-only
/// move, not starting inside a draft period, starting inside the first period of `kind`
/// (anywhere, when the chart has none). Its lane plays no part.
pub open spec fn selected_by_rules(s: ComboStep, periods: Seq<ComboPeriod>, kind: PeriodKind) -> bool {
    &&& !skippable_id(s.move_id@)
    &&& !(exists|k: int|
        0 <= k < periods.len() && (#[trigger] periods[k]).kind == PeriodKind::DraftPeriod
            && periods[k].start_ms <= s.start_min && s.start_min < periods[k].end_ms)
    &&& match find_period(periods, kind) {
        Some(p) => p.start_ms <= s.start_min && s.start_min < p.end_ms,
        None => true,
    }
}

proof fn lemma_playable_count(
    steps: Seq<ComboStep>,
    periods: Seq<ComboPeriod>,
    range: Option<(i64, i64)>,
    s: ComboStep,
)
    requires
        is_played(s, periods),
        in_range(s, range),
    ensures
        playable(steps, periods, range).to_multiset().count(s) == steps.to_multiset().count(s),
    decreases steps.len(),
{
    broadcast use vstd::seq_lib::to_multiset_build;

    if steps.len() > 0 {
        let d = steps.drop_last();
        lemma_playable_count(d, periods, range, s);
        assert(d.push(steps.last()) =~= steps);
    }
}

/// Every step that the rules select is played exactly as often as the chart holds it,
/// whatever its lane (lanes do not split the timeline), and nothing else is played.
pub proof fn law_period_keeps_every_selected_step(
    steps: Seq<ComboStep>,
    periods: Seq<ComboPeriod>,
    kind: PeriodKind,
    s: ComboStep,
)
    ensures
        selected_by_rules(s, periods, kind) ==> steps_of_period(steps, periods, kind).to_multiset().count(
            s,
        ) == steps.to_multiset().count(s),
        !selected_by_rules(s, periods, kind) ==> steps_of_period(steps, periods, kind).to_multiset().count(
            s,
        ) == 0,
{
    let range = period_range(periods, kind);
    let p = playable(steps, periods, range);
    lemma_sort_by_start_ordered(p);
    if selected_by_rules(s, periods, kind) {
        lemma_playable_count(steps, periods, range, s);
    } else {
        lemma_playable_members(steps, periods, range);
        broadcast use vstd::seq_lib::group_to_multiset_ensures;

        if p.to_multiset().count(s) > 0 {
            assert(p.contains(s));
            let i = choose|i: int| 0 <= i < p.len() && p[i] == s;
            assert(is_played(p[i], periods) && in_range(p[i], range));
        }
    }
}

} // verus!
