use smartkey::chart::{ComboChart, ComboPeriod, ComboStep, PeriodKind};
use smartkey::input::Device;
use smartkey::scheduler::{PlaybackEvent, PlaybackOptions};
use smartkey::semi::{
    find_from, plan_semi_segment, segment_steps, switch_slot_from_move_id, SegEnd, Segment,
    SemiAction, SemiInput, SemiPhase, SemiRequest, SemiRun,
};

fn step(id: &str, move_id: &str, slot: Option<u8>, start: i64) -> ComboStep {
    ComboStep {
        id: id.into(),
        move_id: move_id.into(),
        label: move_id.into(),
        character_slot: slot,
        start_min: start,
        duration_min: 100,
        ..Default::default()
    }
}

fn chart(steps: Vec<ComboStep>, periods: Vec<ComboPeriod>) -> ComboChart {
    ComboChart {
        id: "c".into(),
        title: "chart".into(),
        character_count: None,
        character: None,
        author: None,
        tags: vec![],
        community: None,
        content_labels: None,
        timeline_duration_ms: None,
        version: 0,
        created_at: 0,
        updated_at: 0,
        start_trigger_move_id: None,
        stop_trigger_move_id: None,
        steps,
        periods,
    }
}

fn period(kind: PeriodKind, start: i64, end: i64) -> ComboPeriod {
    ComboPeriod {
        id: "p".into(),
        kind,
        label: None,
        character_slot: None,
        lane: None,
        start_ms: start,
        end_ms: end,
        loop_index: None,
    }
}

#[test]
fn segments_split_by_switch_and_slot_change() {
    let steps = vec![
        step("a", "basic_attack", Some(1), 0),
        step("b", "resonance_skill", Some(1), 500),
        step("c", "switch_2", Some(2), 1000),
        step("d", "basic_attack", Some(2), 1200),
        step("e", "heavy_attack", Some(2), 1500),
        step("f", "basic_attack", Some(3), 2000),
        step("g", "echo_skill", None, 2200),
    ];
    let refs: Vec<&ComboStep> = steps.iter().collect();
    let segs = segment_steps(&refs);
    assert_eq!(segs.len(), 3);
    assert_eq!(segs[0].slot, Some(1));
    assert_eq!(segs[0].steps.len(), 2);
    assert_eq!(segs[0].steps[0].1, 0);
    assert_eq!(segs[0].approx_ms, 600);

    assert_eq!(segs[1].slot, Some(2));
    assert_eq!(segs[1].steps.len(), 2);
    assert_eq!(segs[1].steps[0].0.id, "d");
    assert_eq!(segs[1].steps[0].1, 200);

    assert_eq!(segs[2].slot, Some(3));
    assert_eq!(segs[2].steps.len(), 2);
    assert_eq!(segs[2].steps[1].0.id, "g");
}

#[test]
fn none_slot_follows_and_matches_any() {
    let steps = vec![
        step("a", "basic_attack", None, 0),
        step("b", "resonance_skill", None, 300),
    ];
    let refs: Vec<&ComboStep> = steps.iter().collect();
    let segs = segment_steps(&refs);
    assert_eq!(segs.len(), 1);
    assert_eq!(segs[0].slot, None);
    assert_eq!(segs[0].steps.len(), 2);
    assert!(segs[0].matches(1) && segs[0].matches(4));
}

#[test]
fn switch_move_id_slot_parsed() {
    assert_eq!(switch_slot_from_move_id("switch_3"), Some(3));
    assert_eq!(switch_slot_from_move_id("switch_9"), None);
    assert_eq!(switch_slot_from_move_id("basic_attack"), None);
}

#[test]
fn find_from_skips_non_matching() {
    let steps = vec![
        step("a", "basic_attack", Some(1), 0),
        step("b", "switch_2", Some(2), 100),
        step("c", "basic_attack", Some(2), 200),
        step("d", "switch_3", Some(3), 300),
        step("e", "basic_attack", Some(3), 400),
    ];
    let refs: Vec<&ComboStep> = steps.iter().collect();
    let segs = segment_steps(&refs);
    let queue: Vec<&Segment> = segs.iter().collect();
    assert_eq!(find_from(&queue, 0, 2), Some(1));
    assert_eq!(find_from(&queue, 2, 3), Some(2));
    assert_eq!(find_from(&queue, 1, 4), None);
}

#[test]
fn switch_slot_parsing_follows_u8_grammar() {
    assert_eq!(switch_slot_from_move_id("switch_+2"), Some(2));
    assert_eq!(switch_slot_from_move_id("switch_04"), Some(4));
    assert_eq!(switch_slot_from_move_id("switch_0"), None);
    assert_eq!(switch_slot_from_move_id("switch_"), None);
    assert_eq!(switch_slot_from_move_id("switch_+"), None);
    assert_eq!(switch_slot_from_move_id("switch_-1"), None);
    assert_eq!(switch_slot_from_move_id("switch_1x"), None);
    assert_eq!(switch_slot_from_move_id("switch_256"), None);
    assert_eq!(switch_slot_from_move_id("switch_0000000001"), Some(1));
    assert_eq!(switch_slot_from_move_id("Switch_1"), None);
}

#[test]
fn switch_without_slot_takes_slot_from_its_id() {
    let steps = vec![
        step("a", "basic_attack", None, 0),
        step("b", "switch_4", None, 100),
        step("c", "skill", None, 250),
    ];
    let refs: Vec<&ComboStep> = steps.iter().collect();
    let segs = segment_steps(&refs);
    assert_eq!(segs.len(), 2);
    assert_eq!(segs[1].slot, Some(4));
    assert_eq!(segs[1].start_ms, 100);
    assert_eq!(segs[1].steps.len(), 1);
    assert_eq!(segs[1].steps[0].1, 150);
    assert_eq!(segs[1].approx_ms, 250);
}

#[test]
fn negative_duration_counts_as_zero_in_estimate() {
    let mut s = step("a", "basic_attack", Some(1), 100);
    s.duration_min = -50;
    let steps = vec![s];
    let refs: Vec<&ComboStep> = steps.iter().collect();
    let segs = segment_steps(&refs);
    assert_eq!(segs[0].approx_ms, 0);
}

#[test]
fn semi_segment_plan_waits_then_presses() {
    let mut s1 = step("a", "heavy_attack", Some(1), 1000);
    s1.preheat_ms = Some(80);
    s1.duration_min = 600;
    let s2 = step("b", "unknown_move", Some(1), 1500);
    let s3 = step("c", "skill", Some(1), 2500);
    let c = chart(vec![s1, s2, s3], vec![period(PeriodKind::FreeFire, 2400, 2600)]);
    let refs: Vec<&ComboStep> = c.steps.iter().collect();
    let segs = segment_steps(&refs);
    let plan = plan_semi_segment(&c, &segs[0], false);
    assert_eq!(plan.len(), 4);
    assert!(matches!(plan[0], SemiAction::WaitUntil(0)));
    match &plan[1] {
        SemiAction::Hold { dev, until_ms, held_ms, planned_ms, .. } => {
            assert_eq!(*dev, Device::MouseLeft);
            assert_eq!(*until_ms, 520);
            assert_eq!(*held_ms, 600);
            assert_eq!(*planned_ms, 0);
        }
        other => panic!("unexpected {:?}", other),
    }
    assert!(matches!(plan[2], SemiAction::WaitUntil(500)));
    assert!(matches!(&plan[3], SemiAction::Emit(PlaybackEvent::StepSkipped { move_id, .. }) if move_id == "unknown_move"));

    let dry = plan_semi_segment(&c, &segs[0], true);
    assert_eq!(dry.len(), 4);
    assert!(matches!(&dry[1], SemiAction::Emit(PlaybackEvent::StepDone { planned_ms: 0, actual_ms: 0, held_ms: 600, .. })));
}

fn semi_chart() -> ComboChart {
    chart(
        vec![
            step("a", "basic_attack", Some(1), 0),
            step("b", "switch_2", Some(2), 100),
            step("c", "skill", Some(2), 200),
            step("d", "basic_attack", Some(1), 1000),
            step("e", "skill", Some(3), 1200),
        ],
        vec![
            period(PeriodKind::StartupAxis, 0, 1000),
            period(PeriodKind::LoopAxis, 1000, 2000),
        ],
    )
}

#[test]
fn semi_dry_run_plays_every_segment_in_order() {
    let c = semi_chart();
    let opts = PlaybackOptions { max_loops: Some(1), dry_run: true, ..Default::default() };
    let (mut run, events, mut req) = SemiRun::start(&c, &opts);
    assert!(matches!(&events[0], PlaybackEvent::Started { title } if title == "chart"));
    assert!(matches!(events[1], PlaybackEvent::WaitingSwitch { slot: Some(1), round: 1, index: 1, total: 4, steps: 1, .. }));
    let mut played: Vec<(u32, usize)> = Vec::new();
    let mut ended = false;
    for _ in 0..50 {
        match req {
            SemiRequest::WaitKey { auto: Some(k) } => {
                let (evs, r) = run.step(SemiInput::Key(k));
                assert!(!evs.iter().any(|e| matches!(e, PlaybackEvent::KeyIgnored { .. })));
                req = r;
            }
            SemiRequest::Play => {
                played.push((run.ctl.round, run.ctl.index));
                let (_, r) = run.step(SemiInput::Ended(SegEnd::Completed));
                req = r;
            }
            SemiRequest::Done => {
                ended = true;
                break;
            }
            SemiRequest::WaitKey { auto: None } => panic!("dry run must name its key"),
        }
    }
    assert!(ended);
    assert_eq!(played, vec![(0, 0), (0, 1), (0, 2), (0, 3), (1, 0), (1, 1)]);
    assert_eq!(run.ctl.phase, SemiPhase::Finished);
}

#[test]
fn semi_keys_jump_ignore_and_stop() {
    let c = semi_chart();
    let opts = PlaybackOptions { max_loops: Some(0), ..Default::default() };
    let (mut run, _, req) = SemiRun::start(&c, &opts);
    assert_eq!(req, SemiRequest::WaitKey { auto: None });
    // A key of a later segment jumps there.
    let (evs, req) = run.step(SemiInput::Key(3));
    assert_eq!(req, SemiRequest::Play);
    assert_eq!(run.ctl.index, 3);
    assert!(matches!(evs[0], PlaybackEvent::Switch { from: None, to: 3 }));
    // Cut short by the key of an earlier slot no longer ahead: wait for the same segment.
    let (evs, req) = run.step(SemiInput::Ended(SegEnd::Switched(2)));
    assert!(matches!(evs[0], PlaybackEvent::SegmentDone { slot: Some(3), reason: "switched" }));
    assert_eq!(req, SemiRequest::WaitKey { auto: None });
    assert_eq!(run.ctl.index, 3);
    // A key with no segment ahead is ignored.
    let (evs, _) = run.step(SemiInput::Key(4));
    assert!(matches!(evs[0], PlaybackEvent::KeyIgnored { got: 4, expected: Some(3) }));
    assert_eq!(run.ctl.phase, SemiPhase::Waiting);
    // Replay of the same segment by its own key while playing.
    let (_, req) = run.step(SemiInput::Key(3));
    assert_eq!(req, SemiRequest::Play);
    let (evs, req) = run.step(SemiInput::Ended(SegEnd::Switched(3)));
    assert_eq!(evs.len(), 1);
    assert_eq!(req, SemiRequest::Play);
    // A stop ends the run.
    let (evs, req) = run.step(SemiInput::Stop);
    assert!(matches!(evs[0], PlaybackEvent::Stopped { reason: "manual" }));
    assert_eq!(req, SemiRequest::Done);
}

#[test]
fn semi_empty_chart_completes_at_once() {
    let c = chart(vec![step("a", "empty_action", Some(1), 0)], vec![]);
    let opts = PlaybackOptions { max_loops: Some(3), ..Default::default() };
    let (_, events, req) = SemiRun::start(&c, &opts);
    assert_eq!(events.len(), 2);
    assert!(matches!(events[1], PlaybackEvent::Stopped { reason: "completed" }));
    assert_eq!(req, SemiRequest::Done);
}

#[test]
fn semi_without_round_limit_keeps_replaying_the_loop() {
    let c = semi_chart();
    let opts = PlaybackOptions { dry_run: true, ..Default::default() };
    assert_eq!(opts.max_loops, None);
    let (mut run, _, mut req) = SemiRun::start(&c, &opts);
    assert_eq!(run.max_rounds, None);
    let mut plays = 0;
    for _ in 0..400 {
        match req {
            SemiRequest::WaitKey { auto: Some(k) } => {
                let (_, r) = run.step(SemiInput::Key(k));
                req = r;
            }
            SemiRequest::Play => {
                plays += 1;
                let (evs, r) = run.step(SemiInput::Ended(SegEnd::Completed));
                assert!(!evs.iter().any(|e| matches!(e, PlaybackEvent::Stopped { .. })));
                req = r;
            }
            other => panic!("an unlimited run must go on, got {:?}", other),
        }
    }
    assert!(plays > 100);
    assert!(run.ctl.round > 50);
    let (evs, req) = run.step(SemiInput::Stop);
    assert!(matches!(evs[0], PlaybackEvent::Stopped { reason: "manual" }));
    assert_eq!(req, SemiRequest::Done);
}
