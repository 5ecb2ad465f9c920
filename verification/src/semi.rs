//! Semi-automatic playback: the player presses the switch keys (digits 1-4),
//! the moves are played automatically.
//!
//! The chart is cut into character segments. The player's switch key is the
//! synchronisation signal: while waiting, a key matching a coming segment starts
//! it (segment-relative times); while a segment plays, a digit key cuts it short
//! and jumps. [`SemiRun`] holds these decisions; a driver waits for keys, plays
//! segments by their [`SemiAction`] schedule and reports back.
use vstd::prelude::*;

use crate::chart::{deref_steps, steps_of_period, ComboChart, ComboPeriod, ComboStep, PeriodKind};
use crate::input::{binding_of, default_binding, Device};
use crate::scheduler::{clamp_i64, hold_ms, hold_ms_spec, PlaybackEvent, PlaybackOptions};
use crate::text::{chars_of, chars_start_with, starts_with};

verus! {

/// A character segment: a run of moves between switches (or slot changes).
#[derive(Debug)]
pub struct Segment<'a> {
    /// Slot whose digit key starts the segment; `None` = any digit key.
    pub slot: Option<u8>,
    /// Start of the segment on its period's timeline, ms.
    pub start_ms: i64,
    /// The segment's steps with their times relative to the segment start, ms.
    pub steps: Vec<(&'a ComboStep, i128)>,
    /// Estimated length: end of the last step minus the segment start, ms.
    pub approx_ms: i128,
}

/// The value of a segment.
#[verifier::ext_equal]
pub struct SegmentView {
    pub slot: Option<u8>,
    pub start_ms: i64,
    pub steps: Seq<(ComboStep, i128)>,
    pub approx_ms: i128,
}

impl<'a> View for Segment<'a> {
    type V = SegmentView;

    open spec fn view(&self) -> SegmentView {
        SegmentView {
            slot: self.slot,
            start_ms: self.start_ms,
            steps: self.steps@.map_values(|p: (&ComboStep, i128)| (*p.0, p.1)),
            approx_ms: self.approx_ms,
        }
    }
}

/// The values of a sequence of segments.
pub open spec fn seg_views<'a>(v: Seq<Segment<'a>>) -> Seq<SegmentView> {
    v.map_values(|g: Segment<'a>| g@)
}

/// The values of a sequence of segment references.
pub open spec fn seg_ref_views<'a>(v: Seq<&Segment<'a>>) -> Seq<SegmentView> {
    v.map_values(|g: &Segment<'a>| g@)
}

/// A segment with slot `None` accepts every key, otherwise only its own slot's.
pub open spec fn seg_matches(seg: SegmentView, slot: u8) -> bool {
    seg.slot is None || seg.slot == Some(slot)
}

impl<'a> Segment<'a> {
    /// Whether the slot key `slot` starts this segment (a segment without slot accepts any key).
    pub fn matches(&self, slot: u8) -> (r: bool)
        ensures
            r == seg_matches(self@, slot),
    {
        match self.slot {
            None => true,
            Some(s) => s == slot,
        }
    }
}

/// Decimal digit.
pub open spec fn is_digit(c: char) -> bool {
    '0' <= c && c <= '9'
}

/// Value of a sequence of decimal digits.
pub open spec fn digits_value(d: Seq<char>) -> int
    decreases d.len(),
{
    if d.len() == 0 {
        0
    } else {
        10 * digits_value(d.drop_last()) + (d.last() as int - '0' as int)
    }
}

/// Every character is a decimal digit.
pub open spec fn all_digits(d: Seq<char>) -> bool {
    forall|i: int| 0 <= i < d.len() ==> is_digit(#[trigger] d[i])
}

/// `u8` parsing as std does it: an optional `+`, then at least one decimal digit,
/// value at most 255.
pub open spec fn parse_u8_spec(t: Seq<char>) -> Option<u8> {
    let d = if t.len() > 0 && t[0] == '+' {
        t.skip(1)
    } else {
        t
    };
    if d.len() > 0 && all_digits(d) && digits_value(d) <= 255 {
        Some(digits_value(d) as u8)
    } else {
        None
    }
}

/// The slot of a `switch_<n>` move id (`n` in 1..4).
pub open spec fn switch_slot_spec(id: Seq<char>) -> Option<u8> {
    if starts_with(id, "switch_"@) {
        match parse_u8_spec(id.skip("switch_"@.len() as int)) {
            Some(n) => if 1 <= n && n <= 4 {
                Some(n)
            } else {
                None
            },
            None => None,
        }
    } else {
        None
    }
}

/// Digit values never shrink when more digits follow.
pub proof fn lemma_digits_value_grows(d: Seq<char>, k: int)
    requires
        0 <= k <= d.len(),
        all_digits(d),
    ensures
        digits_value(d.take(k)) <= digits_value(d),
        0 <= digits_value(d.take(k)),
    decreases d.len(),
{
    if d.len() > 0 {
        assert(all_digits(d.drop_last()));
        if k == d.len() {
            assert(d.take(k) =~= d);
            lemma_digits_value_grows(d.drop_last(), 0);
            assert(d.drop_last().take(0) =~= d.take(0));
        } else {
            lemma_digits_value_grows(d.drop_last(), k);
            assert(d.drop_last().take(k) =~= d.take(k));
            lemma_digits_value_grows(d.drop_last(), d.len() - 1);
            assert(d.drop_last().take(d.len() - 1) =~= d.drop_last());
            assert(is_digit(d[d.len() - 1]));
        }
    } else {
        assert(d.take(k) =~= d);
    }
}

/// Parses `t[start..]` as a `u8` the way std does.
fn parse_u8_from(t: &Vec<char>, start: usize) -> (r: Option<u8>)
    requires
        start <= t.len(),
    ensures
        r == parse_u8_spec(t@.skip(start as int)),
{
    let ghost tail = t@.skip(start as int);
    let mut i = start;
    if i < t.len() && t[i] == '+' {
        i = i + 1;
    }
    let ghost d = t@.skip(i as int);
    assert(d =~= (if tail.len() > 0 && tail[0] == '+' {
        tail.skip(1)
    } else {
        tail
    }));
    let first = i;
    let mut v: u32 = 0;
    while i < t.len()
        invariant
            first <= i <= t.len(),
            d == t@.skip(first as int),
            tail == t@.skip(start as int),
            d == (if tail.len() > 0 && tail[0] == '+' {
                tail.skip(1)
            } else {
                tail
            }),
            all_digits(t@.subrange(first as int, i as int)),
            v as int == digits_value(t@.subrange(first as int, i as int)),
            v <= 255,
        decreases t.len() - i,
    {
        let c = t[i];
        assert(t@.subrange(first as int, i + 1).drop_last() =~= t@.subrange(
            first as int,
            i as int,
        ));
        if !('0' <= c && c <= '9') {
            assert(d[i - first] == c);
            assert(!all_digits(d));
            return None;
        }
        v = v * 10 + (c as u32 - '0' as u32);
        i = i + 1;
        assert(all_digits(t@.subrange(first as int, i as int)));
        assert(v as int == digits_value(t@.subrange(first as int, i as int)));
        if v > 255 {
            proof {
                let p = t@.subrange(first as int, i as int);
                assert(p =~= d.take(i - first));
                if all_digits(d) {
                    lemma_digits_value_grows(d, i - first);
                }
            }
            return None;
        }
    }
    assert(t@.subrange(first as int, i as int) =~= d);
    if i == first {
        None
    } else {
        Some(v as u8)
    }
}

/// The slot of a `switch_<n>` move id: `"switch_2"` gives 2; ids of other forms, or
/// numbers outside 1..4, give none.
pub fn switch_slot_from_move_id(id: &str) -> (r: Option<u8>)
    ensures
        r == switch_slot_spec(id@),
{
    let cs = chars_of(id);
    let prefix = chars_of("switch_");
    if !chars_start_with(&cs, &prefix) {
        return None;
    }
    match parse_u8_from(&cs, prefix.len()) {
        Some(n) => if 1 <= n && n <= 4 {
            Some(n)
        } else {
            None
        },
        None => None,
    }
}

/// An explicit switch move.
pub open spec fn is_switch_id(id: Seq<char>) -> bool {
    starts_with(id, "switch_"@)
}

/// A fresh segment opened by step `s`.
pub open spec fn new_segment(s: ComboStep) -> SegmentView {
    SegmentView {
        slot: match s.character_slot {
            Some(n) => Some(n),
            None => switch_slot_spec(s.move_id@),
        },
        start_ms: s.start_min,
        steps: Seq::empty(),
        approx_ms: 0,
    }
}

/// `seg` with step `s` appended at its relative time, the estimate extended to its end.
pub open spec fn append_step(seg: SegmentView, s: ComboStep) -> SegmentView {
    let dur: int = if s.duration_min < 0 {
        0
    } else {
        s.duration_min as int
    };
    let end = s.start_min + dur - seg.start_ms;
    SegmentView {
        steps: seg.steps.push((s, (s.start_min - seg.start_ms) as i128)),
        approx_ms: if seg.approx_ms < end {
            end as i128
        } else {
            seg.approx_ms
        },
        ..seg
    }
}

/// Step `s` opens a new segment: it is a switch move, it is the first step, or both
/// it and the current segment name a slot and the slots differ.
pub open spec fn opens_segment(segs: Seq<SegmentView>, s: ComboStep) -> bool {
    ||| is_switch_id(s.move_id@)
    ||| segs.len() == 0
    ||| (segs.last().slot is Some && s.character_slot is Some && segs.last().slot
        != s.character_slot)
}

/// The segments after step `s` is taken in; switch moves open a segment but are not part of it.
pub open spec fn add_step(segs: Seq<SegmentView>, s: ComboStep) -> Seq<SegmentView> {
    if opens_segment(segs, s) {
        if is_switch_id(s.move_id@) {
            segs.push(new_segment(s))
        } else {
            segs.push(append_step(new_segment(s), s))
        }
    } else {
        segs.update(segs.len() - 1, append_step(segs.last(), s))
    }
}

/// Character segments of a timeline.
pub open spec fn segments_of(steps: Seq<ComboStep>) -> Seq<SegmentView>
    decreases steps.len(),
{
    if steps.len() == 0 {
        Seq::empty()
    } else {
        add_step(segments_of(steps.drop_last()), steps.last())
    }
}

fn append_to<'a>(seg: &mut Segment<'a>, s: &'a ComboStep)
    ensures
        final(seg)@ == append_step(old(seg)@, *s),
{
    let dur: i128 = if s.duration_min < 0 {
        0
    } else {
        s.duration_min as i128
    };
    let end: i128 = s.start_min as i128 + dur - seg.start_ms as i128;
    let ghost before = seg.steps@;
    seg.steps.push((s, s.start_min as i128 - seg.start_ms as i128));
    assert(seg.steps@.map_values(|p: (&ComboStep, i128)| (*p.0, p.1)) =~= before.map_values(
        |p: (&ComboStep, i128)| (*p.0, p.1),
    ).push((*s, (s.start_min - old(seg).start_ms) as i128)));
    if seg.approx_ms < end {
        seg.approx_ms = end;
    }
}

/// Cuts a timeline into character segments. A segment starts at an explicit switch
/// move (`switch_N`, which is not itself part of it) or where the step's slot differs
/// from the segment's; steps without a slot stay in the current segment.
pub fn segment_steps<'a>(steps: &[&'a ComboStep]) -> (r: Vec<Segment<'a>>)
    ensures
        seg_views(r@) == segments_of(deref_steps(steps@)),
{
    let ghost all = deref_steps(steps@);
    let prefix = chars_of("switch_");
    let mut segs: Vec<Segment<'a>> = Vec::new();
    let mut i: usize = 0;
    while i < steps.len()
        invariant
            i <= steps.len(),
            all == deref_steps(steps@),
            prefix@ == "switch_"@,
            seg_views(segs@) == segments_of(all.take(i as int)),
        decreases steps.len() - i,
    {
        let s: &'a ComboStep = steps[i];
        let ghost before = seg_views(segs@);
        assert(all.take(i + 1).drop_last() =~= all.take(i as int));
        assert(all.take(i + 1).last() == *s);
        let id = chars_of(s.move_id.as_str());
        let is_switch = chars_start_with(&id, &prefix);
        let n = segs.len();
        let slot_changed = if n == 0 {
            false
        } else {
            match (segs[n - 1].slot, s.character_slot) {
                (Some(a), Some(b)) => a != b,
                _ => false,
            }
        };
        if is_switch || slot_changed || n == 0 {
            let slot = match s.character_slot {
                Some(c) => Some(c),
                None => switch_slot_from_move_id(s.move_id.as_str()),
            };
            let mut seg = Segment { slot, start_ms: s.start_min, steps: Vec::new(), approx_ms: 0 };
            assert(seg@.steps =~= Seq::<(ComboStep, i128)>::empty());
            assert(seg@ == new_segment(*s));
            if !is_switch {
                append_to(&mut seg, s);
            }
            segs.push(seg);
            assert(seg_views(segs@) =~= add_step(before, *s));
        } else {
            let last = segs.pop().unwrap();
            let mut last = last;
            assert(last@ == before.last());
            append_to(&mut last, s);
            segs.push(last);
            assert(seg_views(segs@) =~= add_step(before, *s));
        }
        i = i + 1;
    }
    assert(all.take(i as int) =~= all);
    segs
}

/// The first segment of `queue` from index `from` on that `slot` starts.
pub open spec fn first_match(queue: Seq<SegmentView>, from: int, slot: u8) -> Option<int>
    decreases queue.len() - from,
{
    if from < 0 || from >= queue.len() {
        None
    } else if seg_matches(queue[from], slot) {
        Some(from)
    } else {
        first_match(queue, from + 1, slot)
    }
}

/// `first_match` finds the first matching segment at or after `from`, or tells that there is none.
pub proof fn lemma_first_match(queue: Seq<SegmentView>, from: int, slot: u8)
    requires
        0 <= from <= queue.len(),
    ensures
        match first_match(queue, from, slot) {
            Some(j) => from <= j < queue.len() && seg_matches(queue[j], slot) && forall|k: int|
                from <= k < j ==> !seg_matches(#[trigger] queue[k], slot),
            None => forall|k: int| from <= k < queue.len() ==> !seg_matches(#[trigger] queue[k], slot),
        },
    decreases queue.len() - from,
{
    if from < queue.len() && !seg_matches(queue[from], slot) {
        lemma_first_match(queue, from + 1, slot);
    }
}

/// Index of the first segment in `queue[from..]` that the slot key `slot` starts.
pub fn find_from<'a>(queue: &[&Segment<'a>], from: usize, slot: u8) -> (r: Option<usize>)
    requires
        from <= queue@.len(),
    ensures
        r matches Some(j) ==> first_match(seg_ref_views(queue@), from as int, slot) == Some(
            j as int,
        ),
        r is None ==> first_match(seg_ref_views(queue@), from as int, slot) is None,
{
    let ghost q = seg_ref_views(queue@);
    let mut j = from;
    while j < queue.len()
        invariant
            from <= j <= queue@.len(),
            q == seg_ref_views(queue@),
            first_match(q, from as int, slot) == first_match(q, j as int, slot),
        decreases queue@.len() - j,
    {
        if queue[j].matches(slot) {
            return Some(j);
        }
        j = j + 1;
    }
    None
}

/// One step of a segment's schedule, performed by the driver; times are ms after the
/// key press that started the segment.
#[derive(Debug)]
pub enum SemiAction {
    /// Wait until the time; a stop request or a digit key ends the segment.
    WaitUntil(u64),
    /// Report an event.
    Emit(PlaybackEvent),
    /// Press the device until `until_ms` (a stop request or a digit key cuts the hold
    /// short), release it, report `StepDone` with the measured time, and end the
    /// segment if the hold was cut short.
    Hold { dev: Device, until_ms: u64, held_ms: u64, label: String, move_id: String, planned_ms: i64 },
}

/// A time saturated into the `u64` range.
pub open spec fn clamp_u64(t: int) -> u64 {
    if t < 0 {
        0
    } else if t > u64::MAX {
        u64::MAX
    } else {
        t as u64
    }
}

fn clamp_to_u64(t: i128) -> (r: u64)
    ensures
        r == clamp_u64(t as int),
{
    if t < 0 {
        0
    } else if t > u64::MAX as i128 {
        u64::MAX
    } else {
        t as u64
    }
}

fn clamp_ms(t: i128) -> (r: i64)
    ensures
        r == clamp_i64(t as int),
{
    if t < i64::MIN as i128 {
        i64::MIN
    } else if t > i64::MAX as i128 {
        i64::MAX
    } else {
        t as i64
    }
}

/// Whether an absolute time falls inside a free-fire period of the chart.
pub open spec fn in_free_period(periods: Seq<ComboPeriod>, at: int) -> bool {
    exists|k: int|
        0 <= k < periods.len() && (#[trigger] periods[k]).kind == PeriodKind::FreeFire
            && periods[k].start_ms <= at && at < periods[k].end_ms
}

/// Schedule of one segment step: nothing inside a free-fire period; else wait for
/// the press time (`rel - preheat_ms`), then the press (or its report in a dry run),
/// or a skip report for a move without binding.
pub open spec fn semi_step_actions(
    periods: Seq<ComboPeriod>,
    seg_start: int,
    step: (ComboStep, i128),
    dry_run: bool,
) -> Seq<SemiAction> {
    let s = step.0;
    let rel = step.1 as int;
    if in_free_period(periods, seg_start + rel) {
        Seq::empty()
    } else {
        let pre = match s.preheat_ms {
            Some(p) => p as int,
            None => 0,
        };
        let press_at = rel - pre;
        let wait = seq![SemiAction::WaitUntil(clamp_u64(press_at))];
        match binding_of(s.move_id@) {
            None => wait.push(
                SemiAction::Emit(PlaybackEvent::StepSkipped { label: s.label, move_id: s.move_id }),
            ),
            Some(dev) => if dry_run {
                wait.push(
                    SemiAction::Emit(
                        PlaybackEvent::StepDone {
                            label: s.label,
                            move_id: s.move_id,
                            planned_ms: clamp_i64(rel),
                            actual_ms: clamp_i64(rel) as i128,
                            held_ms: hold_ms_spec(s),
                        },
                    ),
                )
            } else {
                wait.push(
                    SemiAction::Hold {
                        dev,
                        until_ms: clamp_u64(press_at + hold_ms_spec(s)),
                        held_ms: hold_ms_spec(s),
                        label: s.label,
                        move_id: s.move_id,
                        planned_ms: clamp_i64(rel),
                    },
                )
            },
        }
    }
}

/// Schedule of a sequence of segment steps.
pub open spec fn semi_steps_actions(
    periods: Seq<ComboPeriod>,
    seg_start: int,
    steps: Seq<(ComboStep, i128)>,
    dry_run: bool,
) -> Seq<SemiAction>
    decreases steps.len(),
{
    if steps.len() == 0 {
        Seq::empty()
    } else {
        semi_step_actions(periods, seg_start, steps[0], dry_run) + semi_steps_actions(
            periods,
            seg_start,
            steps.drop_first(),
            dry_run,
        )
    }
}

/// Segment steps have times within two chart times of each other.
pub open spec fn steps_bounded(steps: Seq<(ComboStep, i128)>) -> bool {
    forall|k: int|
        0 <= k < steps.len() ==> -0x2_0000_0000_0000_0000i128 <= (#[trigger] steps[k]).1
            <= 0x2_0000_0000_0000_0000i128
}

fn in_free_period_exec(periods: &Vec<ComboPeriod>, at: i128) -> (r: bool)
    ensures
        r == in_free_period(periods@, at as int),
{
    let mut k: usize = 0;
    while k < periods.len()
        invariant
            k <= periods.len(),
            forall|j: int|
                0 <= j < k ==> !((#[trigger] periods@[j]).kind == PeriodKind::FreeFire
                    && periods@[j].start_ms <= at && at < periods@[j].end_ms),
        decreases periods.len() - k,
    {
        let p = &periods[k];
        if p.kind == PeriodKind::FreeFire && p.start_ms as i128 <= at && at < p.end_ms as i128 {
            assert(periods@[k as int].kind == PeriodKind::FreeFire);
            return true;
        }
        k = k + 1;
    }
    false
}

/// The schedule of a segment: its steps at their segment-relative times, the steps
/// inside free-fire periods left to the player.
pub fn plan_semi_segment(chart: &ComboChart, seg: &Segment, dry_run: bool) -> (r: Vec<SemiAction>)
    requires
        steps_bounded(seg@.steps),
    ensures
        r@ == semi_steps_actions(chart.periods@, seg.start_ms as int, seg@.steps, dry_run),
{
    let ghost all = seg@.steps;
    let mut acts: Vec<SemiAction> = Vec::new();
    let mut i: usize = 0;
    assert(all.skip(0) =~= all);
    while i < seg.steps.len()
        invariant
            i <= seg.steps.len(),
            all == seg@.steps,
            steps_bounded(all),
            acts@ + semi_steps_actions(chart.periods@, seg.start_ms as int, all.skip(i as int), dry_run)
                == semi_steps_actions(chart.periods@, seg.start_ms as int, all, dry_run),
        decreases seg.steps.len() - i,
    {
        let (s, rel) = seg.steps[i];
        let ghost sk = all.skip(i as int);
        assert(sk[0] == all[i as int]);
        assert(all[i as int] == (*s, rel));
        assert(sk.drop_first() =~= all.skip(i + 1));
        let ghost one = semi_step_actions(chart.periods@, seg.start_ms as int, (*s, rel), dry_run);
        let ghost rest = semi_steps_actions(
            chart.periods@,
            seg.start_ms as int,
            all.skip(i + 1),
            dry_run,
        );
        assert(-0x2_0000_0000_0000_0000i128 <= rel <= 0x2_0000_0000_0000_0000i128);
        let mut step: Vec<SemiAction> = Vec::new();
        if !in_free_period_exec(&chart.periods, seg.start_ms as i128 + rel) {
            let pre: i128 = match s.preheat_ms {
                Some(p) => p as i128,
                None => 0,
            };
            let press_at: i128 = rel - pre;
            step.push(SemiAction::WaitUntil(clamp_to_u64(press_at)));
            match default_binding(s.move_id.as_str()) {
                None => {
                    step.push(
                        SemiAction::Emit(
                            PlaybackEvent::StepSkipped {
                                label: s.label.clone(),
                                move_id: s.move_id.clone(),
                            },
                        ),
                    );
                },
                Some(dev) => {
                    let held = hold_ms(s);
                    let planned = clamp_ms(rel);
                    if dry_run {
                        step.push(
                            SemiAction::Emit(
                                PlaybackEvent::StepDone {
                                    label: s.label.clone(),
                                    move_id: s.move_id.clone(),
                                    planned_ms: planned,
                                    actual_ms: planned as i128,
                                    held_ms: held,
                                },
                            ),
                        );
                    } else {
                        step.push(
                            SemiAction::Hold {
                                dev,
                                until_ms: clamp_to_u64(press_at + held as i128),
                                held_ms: held,
                                label: s.label.clone(),
                                move_id: s.move_id.clone(),
                                planned_ms: planned,
                            },
                        );
                    }
                },
            }
        }
        assert(step@ =~= one);
        assert(acts@ + (step@ + rest) =~= (acts@ + step@) + rest);
        acts.append(&mut step);
        i = i + 1;
    }
    assert(all.skip(i as int) =~= Seq::<(ComboStep, i128)>::empty());
    acts
}

/// Every segment has at most one chart time between its start and each step.
pub proof fn lemma_segments_bounded(steps: Seq<ComboStep>)
    ensures
        forall|g: int|
            0 <= g < segments_of(steps).len() ==> steps_bounded(#[trigger] segments_of(steps)[g].steps),
        segments_of(steps).len() <= steps.len(),
    decreases steps.len(),
{
    if steps.len() > 0 {
        let prev = segments_of(steps.drop_last());
        lemma_segments_bounded(steps.drop_last());
        let s = steps.last();
        let segs = segments_of(steps);
        assert forall|g: int| 0 <= g < segs.len() implies steps_bounded(#[trigger] segs[g].steps) by {
            if g < prev.len() && !(g == prev.len() - 1 && !opens_segment(prev, s)) {
                assert(segs[g] == prev[g]);
            } else {
                let base = if opens_segment(prev, s) {
                    new_segment(s)
                } else {
                    prev.last()
                };
                assert(steps_bounded(base.steps)) by {
                    if !opens_segment(prev, s) {
                        assert(prev.last() == prev[prev.len() - 1]);
                    }
                }
                let a = append_step(base, s);
                assert(steps_bounded(a.steps)) by {
                    assert forall|k: int| 0 <= k < a.steps.len() implies -0x2_0000_0000_0000_0000i128
                        <= (#[trigger] a.steps[k]).1 <= 0x2_0000_0000_0000_0000i128 by {
                        if k < base.steps.len() {
                            assert(a.steps[k] == base.steps[k]);
                        }
                    }
                }
            }
        }
    }
}

/// Phase of a semi-automatic run.
#[derive(Debug, Clone, Copy, PartialEq, Eq, Structural)]
pub enum SemiPhase {
    /// Waiting for the player's switch key for the current segment.
    Waiting,
    /// The current segment is being played.
    Playing,
    Finished,
}

/// Where a semi-automatic run stands.
#[derive(Debug, Clone, Copy, PartialEq, Eq, Structural)]
pub struct SemiCtl {
    /// Round: 0 = startup segments followed by loop segments, later rounds = loop segments.
    pub round: u32,
    /// Current segment in the round's queue.
    pub index: usize,
    /// Slot of the segment last started.
    pub cur_slot: Option<u8>,
    pub phase: SemiPhase,
}

/// How the playing of a segment ended.
#[derive(Debug, Clone, Copy, PartialEq, Eq, Structural)]
pub enum SegEnd {
    Completed,
    /// Cut short by the player's slot key.
    Switched(u8),
    Stopped,
}

/// What the driver reports to the run.
#[derive(Debug, Clone, Copy, PartialEq, Eq, Structural)]
pub enum SemiInput {
    /// A slot key (while waiting).
    Key(u8),
    /// A stop request (while waiting).
    Stop,
    /// The current segment was played (while playing).
    Ended(SegEnd),
}

/// What the run asks the driver to do next.
#[derive(Debug, Clone, Copy, PartialEq, Eq, Structural)]
pub enum SemiRequest {
    /// Wait for a slot key; in a dry run nobody presses keys, and `auto` is the key to act on.
    WaitKey { auto: Option<u8> },
    /// Play the current segment.
    Play,
    /// The run is over.
    Done,
}

/// The segments of a run.
pub struct SemiQueues {
    pub startup: Seq<SegmentView>,
    pub loops: Seq<SegmentView>,
    /// Round limit; `None` = no limit.
    pub max_rounds: Option<u64>,
    pub dry_run: bool,
}

/// Round `round` is within the limit (always, without one).
pub open spec fn round_open(q: SemiQueues, round: int) -> bool {
    match q.max_rounds {
        None => true,
        Some(m) => round < m,
    }
}

/// A round number, kept at most `u32::MAX` (only a run without limit gets that far).
pub open spec fn sat_round(round: int) -> u32 {
    if round > u32::MAX {
        u32::MAX
    } else {
        round as u32
    }
}

/// The segments played in round `round`.
pub open spec fn queue_of(q: SemiQueues, round: int) -> Seq<SegmentView> {
    if round == 0 {
        q.startup + q.loops
    } else {
        q.loops
    }
}

/// A live run points at a segment of a round below the limit.
pub open spec fn semi_ctl_ok(q: SemiQueues, ctl: SemiCtl) -> bool {
    match ctl.phase {
        SemiPhase::Finished => true,
        _ => round_open(q, ctl.round as int) && ctl.index < queue_of(q, ctl.round as int).len(),
    }
}

/// Wait for the key of segment `idx`: announce it, and in a dry run act on its own key
/// (slot 1 for a segment without slot).
pub open spec fn waiting_at(q: SemiQueues, round: u32, idx: int, cur: Option<u8>) -> (
    SemiCtl,
    Seq<PlaybackEvent>,
    SemiRequest,
) {
    let qu = queue_of(q, round as int);
    let seg = qu[idx];
    (
        SemiCtl { round, index: idx as usize, cur_slot: cur, phase: SemiPhase::Waiting },
        seq![
            PlaybackEvent::WaitingSwitch {
                slot: seg.slot,
                round: sat_round(round + 1),
                index: (idx + 1) as usize,
                total: qu.len() as usize,
                steps: seg.steps.len() as usize,
                approx_ms: clamp_i64(seg.approx_ms as int),
            },
        ],
        SemiRequest::WaitKey {
            auto: if q.dry_run {
                Some(
                    match seg.slot {
                        Some(n) => n,
                        None => 1,
                    },
                )
            } else {
                None
            },
        },
    )
}

/// End the run with the given reason.
pub open spec fn semi_finish(ctl: SemiCtl, reason: &'static str) -> (
    SemiCtl,
    Seq<PlaybackEvent>,
    SemiRequest,
) {
    (
        SemiCtl { phase: SemiPhase::Finished, ..ctl },
        seq![PlaybackEvent::Stopped { reason }],
        SemiRequest::Done,
    )
}

/// Start round `round`: wait for its first segment, or end the run (completed) when the
/// round limit is reached or the round has no segments.
pub open spec fn begin_round(q: SemiQueues, round: int, cur: Option<u8>) -> (
    SemiCtl,
    Seq<PlaybackEvent>,
    SemiRequest,
) {
    if round_open(q, round) && queue_of(q, round).len() > 0 {
        waiting_at(q, sat_round(round), 0, cur)
    } else {
        semi_finish(
            SemiCtl { round: sat_round(round), index: 0, cur_slot: cur, phase: SemiPhase::Waiting },
            "completed",
        )
    }
}

/// Play segment `j`: report the switch from the current slot and make it current.
pub open spec fn play_at(q: SemiQueues, ctl: SemiCtl, j: int) -> (
    SemiCtl,
    Seq<PlaybackEvent>,
    SemiRequest,
) {
    let seg = queue_of(q, ctl.round as int)[j];
    (
        SemiCtl { index: j as usize, cur_slot: seg.slot, phase: SemiPhase::Playing, ..ctl },
        seq![
            PlaybackEvent::Switch {
                from: ctl.cur_slot,
                to: match seg.slot {
                    Some(n) => n,
                    None => 0,
                },
            },
        ],
        SemiRequest::Play,
    )
}

/// Prefix an event to a transition.
pub open spec fn with_event(
    ev: PlaybackEvent,
    t: (SemiCtl, Seq<PlaybackEvent>, SemiRequest),
) -> (SemiCtl, Seq<PlaybackEvent>, SemiRequest) {
    (t.0, seq![ev] + t.1, t.2)
}

/// The input fits the phase: keys while waiting, segment ends while playing, stops while live.
pub open spec fn input_fits(ctl: SemiCtl, input: SemiInput) -> bool {
    match input {
        SemiInput::Key(_) => ctl.phase == SemiPhase::Waiting,
        SemiInput::Stop => ctl.phase != SemiPhase::Finished,
        SemiInput::Ended(_) => ctl.phase == SemiPhase::Playing,
    }
}

/// One decision of a semi-automatic run.
///
/// - A stop ends the run (`manual`).
/// - While waiting, a key matching the current segment plays it; a key matching a later
///   segment of the round jumps there and plays it; any other key is ignored (reported)
///   and the wait goes on.
/// - A completed segment leads to the wait for the next one, or to the next round.
/// - A segment cut short by a key: the same segment's key replays it at once, a later
///   segment's key waits for that segment, any other key waits for the same segment again.
pub open spec fn semi_next(q: SemiQueues, ctl: SemiCtl, input: SemiInput) -> (
    SemiCtl,
    Seq<PlaybackEvent>,
    SemiRequest,
) {
    let qu = queue_of(q, ctl.round as int);
    let idx = ctl.index as int;
    let seg = qu[idx];
    match input {
        SemiInput::Stop => semi_finish(ctl, "manual"),
        SemiInput::Key(k) => if seg_matches(seg, k) {
            play_at(q, ctl, idx)
        } else {
            match first_match(qu, idx + 1, k) {
                Some(j) => play_at(q, ctl, j),
                None => with_event(
                    PlaybackEvent::KeyIgnored { got: k, expected: seg.slot },
                    waiting_at(q, ctl.round, idx, ctl.cur_slot),
                ),
            }
        },
        SemiInput::Ended(SegEnd::Stopped) => semi_finish(ctl, "manual"),
        SemiInput::Ended(SegEnd::Completed) => with_event(
            PlaybackEvent::SegmentDone { slot: seg.slot, reason: "completed" },
            if idx + 1 < qu.len() {
                waiting_at(q, ctl.round, idx + 1, ctl.cur_slot)
            } else {
                begin_round(q, ctl.round + 1, ctl.cur_slot)
            },
        ),
        SemiInput::Ended(SegEnd::Switched(k)) => with_event(
            PlaybackEvent::SegmentDone { slot: seg.slot, reason: "switched" },
            match first_match(qu, idx, k) {
                Some(j) => if j == idx {
                    (ctl, Seq::empty(), SemiRequest::Play)
                } else {
                    waiting_at(q, ctl.round, j, ctl.cur_slot)
                },
                None => waiting_at(q, ctl.round, idx, ctl.cur_slot),
            },
        ),
    }
}

/// A semi-automatic run over the segments of a chart.
pub struct SemiRun<'a> {
    pub startup: Vec<Segment<'a>>,
    pub loops: Vec<Segment<'a>>,
    /// Round limit; `None` = no limit.
    pub max_rounds: Option<u64>,
    pub dry_run: bool,
    pub ctl: SemiCtl,
}

/// The first transition of a run: report the start, then wait for the first segment,
/// or end at once (completed) when the chart has no segments.
pub open spec fn semi_start_spec(q: SemiQueues, title: String) -> (
    SemiCtl,
    Seq<PlaybackEvent>,
    SemiRequest,
) {
    let ctl0 = SemiCtl { round: 0, index: 0, cur_slot: None, phase: SemiPhase::Waiting };
    with_event(
        PlaybackEvent::Started { title },
        if q.startup.len() == 0 && q.loops.len() == 0 {
            semi_finish(ctl0, "completed")
        } else {
            begin_round(q, 0, None)
        },
    )
}

impl<'a> SemiRun<'a> {
    pub open spec fn queues(&self) -> SemiQueues {
        SemiQueues {
            startup: seg_views(self.startup@),
            loops: seg_views(self.loops@),
            max_rounds: self.max_rounds,
            dry_run: self.dry_run,
        }
    }

    /// The run points at an existing segment, round 0 fits in memory, and every segment
    /// keeps its steps within one chart time of its start.
    pub open spec fn wf(&self) -> bool {
        &&& semi_ctl_ok(self.queues(), self.ctl)
        &&& self.startup@.len() + self.loops@.len() <= usize::MAX
        &&& forall|g: int|
            0 <= g < self.startup@.len() ==> steps_bounded(#[trigger] self.startup@[g]@.steps)
        &&& forall|g: int|
            0 <= g < self.loops@.len() ==> steps_bounded(#[trigger] self.loops@[g]@.steps)
    }

    fn queue_len(&self, round: u32) -> (r: usize)
        requires
            self.startup@.len() + self.loops@.len() <= usize::MAX,
        ensures
            r == queue_of(self.queues(), round as int).len(),
    {
        if round == 0 {
            self.startup.len() + self.loops.len()
        } else {
            self.loops.len()
        }
    }

    fn segment_at(&self, round: u32, i: usize) -> (r: &Segment<'a>)
        requires
            self.wf(),
            i < queue_of(self.queues(), round as int).len(),
        ensures
            r@ == queue_of(self.queues(), round as int)[i as int],
            steps_bounded(r@.steps),
    {
        if round == 0 && i < self.startup.len() {
            &self.startup[i]
        } else if round == 0 {
            &self.loops[i - self.startup.len()]
        } else {
            &self.loops[i]
        }
    }

    fn queue_refs(&self, round: u32) -> (r: Vec<&Segment<'a>>)
        requires
            self.wf(),
        ensures
            seg_ref_views(r@) == queue_of(self.queues(), round as int),
    {
        let n = self.queue_len(round);
        let mut out: Vec<&Segment<'a>> = Vec::new();
        let mut i: usize = 0;
        while i < n
            invariant
                self.wf(),
                n == queue_of(self.queues(), round as int).len(),
                i <= n,
                seg_ref_views(out@) == queue_of(self.queues(), round as int).take(i as int),
            decreases n - i,
        {
            let g = self.segment_at(round, i);
            let ghost old_out = out@;
            out.push(g);
            assert(seg_ref_views(out@) =~= seg_ref_views(old_out).push(g@));
            assert(queue_of(self.queues(), round as int).take(i + 1) =~= queue_of(
                self.queues(),
                round as int,
            ).take(i as int).push(queue_of(self.queues(), round as int)[i as int]));
            i = i + 1;
        }
        assert(queue_of(self.queues(), round as int).take(n as int) =~= queue_of(
            self.queues(),
            round as int,
        ));
        out
    }

    /// The segment being waited for or played.
    pub fn current(&self) -> (r: &Segment<'a>)
        requires
            self.wf(),
            self.ctl.phase != SemiPhase::Finished,
        ensures
            r@ == queue_of(self.queues(), self.ctl.round as int)[self.ctl.index as int],
            steps_bounded(r@.steps),
    {
        self.segment_at(self.ctl.round, self.ctl.index)
    }

    fn wait_at(&mut self, round: u32, idx: usize, cur: Option<u8>) -> (r: (
        Vec<PlaybackEvent>,
        SemiRequest,
    ))
        requires
            old(self).wf(),
            round_open(old(self).queues(), round as int),
            idx < queue_of(old(self).queues(), round as int).len(),
        ensures
            final(self).ctl == waiting_at(old(self).queues(), round, idx as int, cur).0,
            r.0@ == waiting_at(old(self).queues(), round, idx as int, cur).1,
            r.1 == waiting_at(old(self).queues(), round, idx as int, cur).2,
            final(self).queues() == old(self).queues(),
            final(self).startup@ == old(self).startup@,
            final(self).loops@ == old(self).loops@,
    {
        let total = self.queue_len(round);
        let seg = self.segment_at(round, idx);
        let ev = PlaybackEvent::WaitingSwitch {
            slot: seg.slot,
            round: if round == u32::MAX {
                u32::MAX
            } else {
                round + 1
            },
            index: idx + 1,
            total,
            steps: seg.steps.len(),
            approx_ms: clamp_ms(seg.approx_ms),
        };
        let auto = if self.dry_run {
            Some(
                match seg.slot {
                    Some(n) => n,
                    None => 1,
                },
            )
        } else {
            None
        };
        self.ctl = SemiCtl { round, index: idx, cur_slot: cur, phase: SemiPhase::Waiting };
        (vec![ev], SemiRequest::WaitKey { auto })
    }

    fn finish(&mut self, reason: &'static str) -> (r: (Vec<PlaybackEvent>, SemiRequest))
        ensures
            final(self).ctl == semi_finish(old(self).ctl, reason).0,
            r.0@ == semi_finish(old(self).ctl, reason).1,
            r.1 == semi_finish(old(self).ctl, reason).2,
            final(self).startup@ == old(self).startup@,
            final(self).loops@ == old(self).loops@,
            final(self).max_rounds == old(self).max_rounds,
            final(self).dry_run == old(self).dry_run,
    {
        self.ctl = SemiCtl { phase: SemiPhase::Finished, ..self.ctl };
        (vec![PlaybackEvent::Stopped { reason }], SemiRequest::Done)
    }

    fn begin(&mut self, round: u64, cur: Option<u8>) -> (r: (Vec<PlaybackEvent>, SemiRequest))
        requires
            old(self).wf(),
            round <= u32::MAX as u64 + 1,
        ensures
            final(self).ctl == begin_round(old(self).queues(), round as int, cur).0,
            r.0@ == begin_round(old(self).queues(), round as int, cur).1,
            r.1 == begin_round(old(self).queues(), round as int, cur).2,
            final(self).startup@ == old(self).startup@,
            final(self).loops@ == old(self).loops@,
            final(self).max_rounds == old(self).max_rounds,
            final(self).dry_run == old(self).dry_run,
    {
        let r32: u32 = if round > u32::MAX as u64 {
            u32::MAX
        } else {
            round as u32
        };
        let open = match self.max_rounds {
            None => true,
            Some(m) => round < m,
        };
        assert(queue_of(self.queues(), r32 as int) == queue_of(self.queues(), round as int));
        if open && self.queue_len(r32) > 0 {
            self.wait_at(r32, 0, cur)
        } else {
            self.ctl = SemiCtl { round: r32, index: 0, cur_slot: cur, phase: SemiPhase::Waiting };
            self.finish("completed")
        }
    }

    fn play(&mut self, j: usize) -> (r: (Vec<PlaybackEvent>, SemiRequest))
        requires
            old(self).wf(),
            old(self).ctl.phase != SemiPhase::Finished,
            j < queue_of(old(self).queues(), old(self).ctl.round as int).len(),
        ensures
            final(self).ctl == play_at(old(self).queues(), old(self).ctl, j as int).0,
            r.0@ == play_at(old(self).queues(), old(self).ctl, j as int).1,
            r.1 == play_at(old(self).queues(), old(self).ctl, j as int).2,
            final(self).startup@ == old(self).startup@,
            final(self).loops@ == old(self).loops@,
            final(self).max_rounds == old(self).max_rounds,
            final(self).dry_run == old(self).dry_run,
    {
        let seg = self.segment_at(self.ctl.round, j);
        let slot = seg.slot;
        let ev = PlaybackEvent::Switch {
            from: self.ctl.cur_slot,
            to: match slot {
                Some(n) => n,
                None => 0,
            },
        };
        self.ctl = SemiCtl { index: j, cur_slot: slot, phase: SemiPhase::Playing, ..self.ctl };
        (vec![ev], SemiRequest::Play)
    }

    /// Starts a semi-automatic run over the chart's startup and loop segments. Round 0
    /// plays the startup segments and then the loop segments; each later round plays the
    /// loop segments; `1 + max_loops` rounds in all, and no limit without `max_loops`.
    pub fn start(chart: &'a ComboChart, opts: &PlaybackOptions) -> (r: (
        SemiRun<'a>,
        Vec<PlaybackEvent>,
        SemiRequest,
    ))
        requires
            chart.steps@.len() <= usize::MAX / 2,
        ensures
            seg_views(r.0.startup@) == segments_of(
                steps_of_period(chart.steps@, chart.periods@, PeriodKind::StartupAxis),
            ),
            seg_views(r.0.loops@) == segments_of(
                steps_of_period(chart.steps@, chart.periods@, PeriodKind::LoopAxis),
            ),
            r.0.max_rounds == match opts.max_loops {
                Some(n) => Some((n + 1) as u64),
                None => None::<u64>,
            },
            r.0.dry_run == opts.dry_run,
            r.0.ctl == semi_start_spec(r.0.queues(), chart.title).0,
            r.1@ == semi_start_spec(r.0.queues(), chart.title).1,
            r.2 == semi_start_spec(r.0.queues(), chart.title).2,
            r.0.wf(),
    {
        let su = chart.startup_steps();
        let lo = chart.loop_steps();
        let startup = segment_steps(su.as_slice());
        let loops = segment_steps(lo.as_slice());
        proof {
            let sp = steps_of_period(chart.steps@, chart.periods@, PeriodKind::StartupAxis);
            let lp = steps_of_period(chart.steps@, chart.periods@, PeriodKind::LoopAxis);
            lemma_segments_bounded(sp);
            lemma_segments_bounded(lp);
            lemma_period_steps_len(chart.steps@, chart.periods@, PeriodKind::StartupAxis);
            lemma_period_steps_len(chart.steps@, chart.periods@, PeriodKind::LoopAxis);
            assert forall|g: int| 0 <= g < startup@.len() implies steps_bounded(
                #[trigger] startup@[g]@.steps,
            ) by {
                assert(seg_views(startup@)[g] == startup@[g]@);
            }
            assert forall|g: int| 0 <= g < loops@.len() implies steps_bounded(
                #[trigger] loops@[g]@.steps,
            ) by {
                assert(seg_views(loops@)[g] == loops@[g]@);
            }
        }
        let max_rounds: Option<u64> = match opts.max_loops {
            Some(n) => Some(n as u64 + 1),
            None => None,
        };
        let empty = startup.len() == 0 && loops.len() == 0;
        let mut run = SemiRun {
            startup,
            loops,
            max_rounds,
            dry_run: opts.dry_run,
            ctl: SemiCtl { round: 0, index: 0, cur_slot: None, phase: SemiPhase::Waiting },
        };
        let mut events = vec![PlaybackEvent::Started { title: chart.title.clone() }];
        let (mut evs, req) = if empty {
            run.finish("completed")
        } else {
            run.begin(0, None)
        };
        events.append(&mut evs);
        (run, events, req)
    }

    /// Takes in what the driver reports and decides what comes next (see [`semi_next`]).
    pub fn step(&mut self, input: SemiInput) -> (r: (Vec<PlaybackEvent>, SemiRequest))
        requires
            old(self).wf(),
            input_fits(old(self).ctl, input),
        ensures
            final(self).ctl == semi_next(old(self).queues(), old(self).ctl, input).0,
            r.0@ == semi_next(old(self).queues(), old(self).ctl, input).1,
            r.1 == semi_next(old(self).queues(), old(self).ctl, input).2,
            final(self).queues() == old(self).queues(),
            final(self).wf(),
    {
        let ghost q = self.queues();
        let round = self.ctl.round;
        let idx = self.ctl.index;
        let cur = self.ctl.cur_slot;
        match input {
            SemiInput::Stop => self.finish("manual"),
            SemiInput::Ended(SegEnd::Stopped) => self.finish("manual"),
            SemiInput::Key(k) => {
                let seg = self.segment_at(round, idx);
                let expected = seg.slot;
                if seg.matches(k) {
                    self.play(idx)
                } else {
                    let queue = self.queue_refs(round);
                    match find_from(queue.as_slice(), idx + 1, k) {
                        Some(j) => {
                            proof {
                                lemma_first_match(queue_of(q, round as int), idx + 1, k);
                            }
                            self.play(j)
                        },
                        None => {
                            let (mut evs, req) = self.wait_at(round, idx, cur);
                            let mut out = vec![PlaybackEvent::KeyIgnored { got: k, expected }];
                            out.append(&mut evs);
                            (out, req)
                        },
                    }
                }
            },
            SemiInput::Ended(SegEnd::Completed) => {
                let n = self.queue_len(round);
                let slot = self.segment_at(round, idx).slot;
                let (mut evs, req) = if idx + 1 < n {
                    self.wait_at(round, idx + 1, cur)
                } else {
                    self.begin(round as u64 + 1, cur)
                };
                let mut out = vec![PlaybackEvent::SegmentDone { slot, reason: "completed" }];
                out.append(&mut evs);
                (out, req)
            },
            SemiInput::Ended(SegEnd::Switched(k)) => {
                let slot = self.segment_at(round, idx).slot;
                let queue = self.queue_refs(round);
                let found = find_from(queue.as_slice(), idx, k);
                proof {
                    lemma_first_match(queue_of(q, round as int), idx as int, k);
                }
                let (mut evs, req) = match found {
                    Some(j) => {
                        if j == idx {
                            (Vec::new(), SemiRequest::Play)
                        } else {
                            self.wait_at(round, j, cur)
                        }
                    },
                    None => self.wait_at(round, idx, cur),
                };
                let mut out = vec![PlaybackEvent::SegmentDone { slot, reason: "switched" }];
                out.append(&mut evs);
                (out, req)
            },
        }
    }
}

/// The played steps of a period are no more than the chart's steps.
pub proof fn lemma_period_steps_len(
    steps: Seq<ComboStep>,
    periods: Seq<ComboPeriod>,
    kind: PeriodKind,
)
    ensures
        steps_of_period(steps, periods, kind).len() <= steps.len(),
{
    let range = crate::chart::period_range(periods, kind);
    crate::chart::lemma_sort_by_start_ordered(crate::chart::playable(steps, periods, range));
    lemma_playable_len(steps, periods, range);
}

proof fn lemma_playable_len(
    steps: Seq<ComboStep>,
    periods: Seq<ComboPeriod>,
    range: Option<(i64, i64)>,
)
    ensures
        crate::chart::playable(steps, periods, range).len() <= steps.len(),
    decreases steps.len(),
{
    if steps.len() > 0 {
        lemma_playable_len(steps.drop_last(), periods, range);
    }
}

/// The steps of a sequence of segments, segment after segment.
pub open spec fn segment_contents(segs: Seq<SegmentView>) -> Seq<ComboStep>
    decreases segs.len(),
{
    if segs.len() == 0 {
        Seq::empty()
    } else {
        segment_contents(segs.drop_last()) + segs.last().steps.map_values(
            |p: (ComboStep, i128)| p.0,
        )
    }
}

/// The steps of a timeline that are not switch moves, in order.
pub open spec fn non_switch_steps(steps: Seq<ComboStep>) -> Seq<ComboStep>
    decreases steps.len(),
{
    if steps.len() == 0 {
        Seq::empty()
    } else if is_switch_id(steps.last().move_id@) {
        non_switch_steps(steps.drop_last())
    } else {
        non_switch_steps(steps.drop_last()).push(steps.last())
    }
}

/// Segmentation loses and reorders nothing: the segments, read one after the other,
/// hold exactly the timeline's steps other than the switch moves, in timeline order.
pub proof fn law_segments_cover_steps(steps: Seq<ComboStep>)
    ensures
        segment_contents(segments_of(steps)) == non_switch_steps(steps),
    decreases steps.len(),
{
    if steps.len() > 0 {
        law_segments_cover_steps(steps.drop_last());
        let prev = segments_of(steps.drop_last());
        let s = steps.last();
        let segs = segments_of(steps);
        let f = |p: (ComboStep, i128)| p.0;
        if opens_segment(prev, s) {
            assert(segs.drop_last() =~= prev);
            if is_switch_id(s.move_id@) {
                assert(segs.last().steps.map_values(f) =~= Seq::<ComboStep>::empty());
                assert(segment_contents(segs) =~= segment_contents(prev));
            } else {
                assert(segs.last().steps.map_values(f) =~= seq![s]);
                assert(segment_contents(segs) =~= segment_contents(prev).push(s));
            }
        } else {
            let last = prev.last();
            assert(segs.drop_last() =~= prev.drop_last());
            assert(segs.last().steps.map_values(f) =~= last.steps.map_values(f).push(s));
            assert(segment_contents(prev) == segment_contents(prev.drop_last())
                + last.steps.map_values(f));
            assert(segment_contents(segs) =~= segment_contents(prev).push(s));
        }
    }
}

/// Each step of a segment carries its start time relative to the segment's start.
pub proof fn law_segment_relative_times(steps: Seq<ComboStep>)
    ensures
        forall|g: int, k: int|
            0 <= g < segments_of(steps).len() && 0 <= k < segments_of(steps)[g].steps.len()
                ==> #[trigger] segments_of(steps)[g].steps[k].1 == segments_of(steps)[g].steps[k].0.start_min
                - segments_of(steps)[g].start_ms,
    decreases steps.len(),
{
    if steps.len() > 0 {
        law_segment_relative_times(steps.drop_last());
        let prev = segments_of(steps.drop_last());
        let s = steps.last();
        let segs = segments_of(steps);
        assert forall|g: int, k: int| 0 <= g < segs.len() && 0 <= k < segs[g].steps.len() implies
            #[trigger] segs[g].steps[k].1 == segs[g].steps[k].0.start_min - segs[g].start_ms by {
            if g < prev.len() && !(g == prev.len() - 1 && !opens_segment(prev, s)) {
                assert(segs[g] == prev[g]);
            } else if !opens_segment(prev, s) {
                assert(prev.last() == prev[prev.len() - 1]);
                if k < prev.last().steps.len() {
                    assert(segs[g].steps[k] == prev[g].steps[k]);
                }
            }
        }
    }
}

/// A segment that names a slot holds only steps of that slot or of no slot.
pub proof fn law_segment_slot_consistent(steps: Seq<ComboStep>)
    ensures
        forall|g: int, k: int|
            0 <= g < segments_of(steps).len() && 0 <= k < segments_of(steps)[g].steps.len()
                && segments_of(steps)[g].slot is Some
                && (#[trigger] segments_of(steps)[g].steps[k]).0.character_slot is Some
                ==> segments_of(steps)[g].steps[k].0.character_slot == segments_of(steps)[g].slot,
    decreases steps.len(),
{
    if steps.len() > 0 {
        law_segment_slot_consistent(steps.drop_last());
        let prev = segments_of(steps.drop_last());
        let s = steps.last();
        let segs = segments_of(steps);
        assert forall|g: int, k: int|
            0 <= g < segs.len() && 0 <= k < segs[g].steps.len() && segs[g].slot is Some && (
            #[trigger] segs[g].steps[k]).0.character_slot is Some implies segs[g].steps[k].0.character_slot
            == segs[g].slot by {
            if g < prev.len() && !(g == prev.len() - 1 && !opens_segment(prev, s)) {
                assert(segs[g] == prev[g]);
            } else if !opens_segment(prev, s) {
                assert(prev.last() == prev[prev.len() - 1]);
                if k < prev.last().steps.len() {
                    assert(segs[g].steps[k] == prev[g].steps[k]);
                }
            }
        }
    }
}

/// A stop request ends a live run at once, reporting a manual stop.
pub proof fn law_semi_stop_ends_run(q: SemiQueues, ctl: SemiCtl)
    requires
        ctl.phase != SemiPhase::Finished,
    ensures
        semi_next(q, ctl, SemiInput::Stop) == (
            SemiCtl { phase: SemiPhase::Finished, ..ctl },
            seq![PlaybackEvent::Stopped { reason: "manual" }],
            SemiRequest::Done,
        ),
{
}

/// The key of the segment waited for starts that segment.
pub proof fn law_semi_matching_key_plays(q: SemiQueues, ctl: SemiCtl, k: u8)
    requires
        ctl.phase == SemiPhase::Waiting,
        semi_ctl_ok(q, ctl),
        seg_matches(queue_of(q, ctl.round as int)[ctl.index as int], k),
    ensures
        semi_next(q, ctl, SemiInput::Key(k)).0.phase == SemiPhase::Playing,
        semi_next(q, ctl, SemiInput::Key(k)).0.index == ctl.index,
        semi_next(q, ctl, SemiInput::Key(k)).0.round == ctl.round,
        semi_next(q, ctl, SemiInput::Key(k)).2 == SemiRequest::Play,
{
}

/// In a dry run the key the run asks to act on always starts the segment waited for,
/// so a dry run never ignores a key and plays the segments in chart order.
pub proof fn law_semi_dry_run_follows_chart(q: SemiQueues, round: u32, idx: int, cur: Option<u8>)
    requires
        q.dry_run,
        round_open(q, round as int),
        0 <= idx < queue_of(q, round as int).len(),
        queue_of(q, round as int).len() <= usize::MAX,
    ensures
        waiting_at(q, round, idx, cur).2 matches SemiRequest::WaitKey { auto: Some(k) } && semi_next(
            q,
            waiting_at(q, round, idx, cur).0,
            SemiInput::Key(k),
        ) == play_at(q, waiting_at(q, round, idx, cur).0, idx),
{
    let w = waiting_at(q, round, idx, cur);
    assert(w.0.index as int == idx);
}

/// While a segment plays, the player's key for a later segment of the round cuts it
/// short and moves the run to that segment; the segment's own key replays it.
pub proof fn law_semi_switch_jumps(q: SemiQueues, ctl: SemiCtl, k: u8)
    requires
        ctl.phase == SemiPhase::Playing,
        semi_ctl_ok(q, ctl),
        queue_of(q, ctl.round as int).len() <= usize::MAX,
    ensures
        ({
            let qu = queue_of(q, ctl.round as int);
            let next = semi_next(q, ctl, SemiInput::Ended(SegEnd::Switched(k)));
            match first_match(qu, ctl.index as int, k) {
                Some(j) => if j == ctl.index {
                    next.0 == ctl && next.2 == SemiRequest::Play
                } else {
                    next.0.phase == SemiPhase::Waiting && next.0.index == j && ctl.index < j
                },
                None => next.0.phase == SemiPhase::Waiting && next.0.index == ctl.index,
            }
        }),
{
    let qu = queue_of(q, ctl.round as int);
    lemma_first_match(qu, ctl.index as int, k);
}

/// Without a round limit, a run with loop segments ends only on a stop: every other
/// input leads to another wait or play, round after round.
pub proof fn law_semi_unlimited_never_completes(q: SemiQueues, ctl: SemiCtl, input: SemiInput)
    requires
        q.max_rounds is None,
        q.loops.len() > 0,
        semi_ctl_ok(q, ctl),
        ctl.phase != SemiPhase::Finished,
        input_fits(ctl, input),
        input != SemiInput::Stop,
        input != SemiInput::Ended(SegEnd::Stopped),
    ensures
        semi_next(q, ctl, input).0.phase != SemiPhase::Finished,
        semi_ctl_ok(q, semi_next(q, ctl, input).0),
{
    let qu = queue_of(q, ctl.round as int);
    match input {
        SemiInput::Key(k) => {
            lemma_first_match(qu, ctl.index + 1, k);
        },
        SemiInput::Ended(SegEnd::Switched(k)) => {
            lemma_first_match(qu, ctl.index as int, k);
        },
        _ => {},
    }
}

/// The event announces the wait for a segment with this slot at this (1-based) index.
pub open spec fn announces_wait(ev: PlaybackEvent, slot: Option<u8>, index: int) -> bool {
    ev matches PlaybackEvent::WaitingSwitch { slot: s, index: i, .. } && s == slot && i == index
}

/// The event reports a character switch.
pub open spec fn is_switch_event(ev: PlaybackEvent) -> bool {
    ev is Switch
}

/// The request asks the driver for a slot key.
pub open spec fn asks_for_key(r: SemiRequest) -> bool {
    r is WaitKey
}

/// A segment that completes and is not the last of its round hands over to the player:
/// the run then waits, in the same round, for the switch key of the next segment. It
/// reports the segment as completed and announces the next one, and switches nothing
/// and plays nothing by itself (outside a dry run nobody is pressed for).
pub proof fn law_semi_completed_segment_waits(q: SemiQueues, ctl: SemiCtl)
    requires
        ctl.phase == SemiPhase::Playing,
        semi_ctl_ok(q, ctl),
        ctl.index + 1 < queue_of(q, ctl.round as int).len(),
        queue_of(q, ctl.round as int).len() <= usize::MAX,
    ensures
        semi_next(q, ctl, SemiInput::Ended(SegEnd::Completed)).0.phase == SemiPhase::Waiting,
        semi_next(q, ctl, SemiInput::Ended(SegEnd::Completed)).0.round == ctl.round,
        semi_next(q, ctl, SemiInput::Ended(SegEnd::Completed)).0.index == ctl.index + 1,
        semi_next(q, ctl, SemiInput::Ended(SegEnd::Completed)).0.cur_slot == ctl.cur_slot,
        asks_for_key(semi_next(q, ctl, SemiInput::Ended(SegEnd::Completed)).2),
        !q.dry_run ==> semi_next(q, ctl, SemiInput::Ended(SegEnd::Completed)).2 == (
        SemiRequest::WaitKey { auto: None }),
        semi_next(q, ctl, SemiInput::Ended(SegEnd::Completed)).1.len() == 2,
        semi_next(q, ctl, SemiInput::Ended(SegEnd::Completed)).1[0] == (PlaybackEvent::SegmentDone {
            slot: queue_of(q, ctl.round as int)[ctl.index as int].slot,
            reason: "completed",
        }),
        announces_wait(
            semi_next(q, ctl, SemiInput::Ended(SegEnd::Completed)).1[1],
            queue_of(q, ctl.round as int)[ctl.index + 1].slot,
            ctl.index + 2,
        ),
        forall|i: int|
            0 <= i < semi_next(q, ctl, SemiInput::Ended(SegEnd::Completed)).1.len()
                ==> !is_switch_event(#[trigger] semi_next(q, ctl, SemiInput::Ended(SegEnd::Completed)).1[i]),
{
    let r = semi_next(q, ctl, SemiInput::Ended(SegEnd::Completed));
    assert forall|i: int| 0 <= i < r.1.len() implies !is_switch_event(#[trigger] r.1[i]) by {
        if i != 0 {
            assert(i == 1);
        }
    }
}

} // verus!
