use smartkey::chart::{ComboChart, ComboPeriod, ComboStep, Lane, PeriodKind};
use smartkey::input::{Device, SC_2, SC_E};
use smartkey::scheduler::{
    auto_switch, hold_ms, loop_len, parse_mode, plan_segment, Action, PlaybackEvent, PlaybackMode,
    PlaybackOptions, Scheduler, Stage,
};

fn step(id: &str, move_id: &str, slot: Option<u8>, start: i64, dur: i64) -> ComboStep {
    ComboStep {
        id: id.into(),
        move_id: move_id.into(),
        label: id.into(),
        character_slot: slot,
        start_min: start,
        duration_min: dur,
        ..Default::default()
    }
}

fn period(kind: PeriodKind, start: i64, end: i64) -> ComboPeriod {
    ComboPeriod {
        id: "p".into(),
        kind,
        label: None,
        character_slot: None,
        lane: None,
        start_ms: start,
        end_ms: end,
        loop_index: None,
    }
}

fn chart(steps: Vec<ComboStep>, periods: Vec<ComboPeriod>) -> ComboChart {
    ComboChart {
        id: "c".into(),
        title: "demo".into(),
        character_count: None,
        character: None,
        author: None,
        tags: vec![],
        community: None,
        content_labels: None,
        timeline_duration_ms: None,
        version: 0,
        created_at: 0,
        updated_at: 0,
        start_trigger_move_id: None,
        stop_trigger_move_id: None,
        steps,
        periods,
    }
}

fn events(acts: &[Action]) -> Vec<&PlaybackEvent> {
    acts.iter()
        .filter_map(|a| match a {
            Action::Emit(e) => Some(e),
            _ => None,
        })
        .collect()
}

#[test]
fn default_options() {
    let o = PlaybackOptions::default();
    assert_eq!(o.mode, PlaybackMode::Full);
    assert_eq!(o.max_loops, None);
    assert_eq!(o.switch_delay_ms, 300);
    assert_eq!(o.free_fire_timeout_ms, 10_000);
    assert!(!o.dry_run);
}

#[test]
fn hold_lengths() {
    assert_eq!(hold_ms(&step("a", "heavy_attack", None, 0, 500)), 500);
    assert_eq!(hold_ms(&step("a", "skill_hold", None, 0, 10)), 40);
    assert_eq!(hold_ms(&step("a", "skill", None, 0, 500)), 40);
}

#[test]
fn loop_length_rules() {
    let c = chart(vec![step("a", "skill", None, 100, 200)], vec![period(PeriodKind::LoopAxis, 1000, 4000)]);
    assert_eq!(loop_len(&c), 3000);
    let c = chart(
        vec![step("a", "skill", None, 100, 200), step("b", "empty_action", None, 900, 900), step("c", "echo", None, 0, 50)],
        vec![],
    );
    assert_eq!(loop_len(&c), 300);
    let c = chart(vec![], vec![period(PeriodKind::LoopAxis, 5, 5)]);
    assert_eq!(loop_len(&c), 1);
    let c = chart(vec![step("a", "skill", None, -100, 20)], vec![]);
    assert_eq!(loop_len(&c), 1);
}

#[test]
fn loop_length_follows_the_last_main_lane_step() {
    let mut side = step("i", "echo", None, 0, 500);
    side.lane = Lane::Independent;
    let c = chart(vec![step("m", "skill", None, 0, 100), side], vec![]);
    assert_eq!(loop_len(&c), 100);
    // The last main step in time order counts, even when an earlier one ends later.
    let c = chart(vec![step("a", "skill", None, 0, 900), step("b", "echo", None, 200, 50)], vec![]);
    assert_eq!(loop_len(&c), 250);
    // Of two main steps with the same start, the later one in the chart counts.
    let c = chart(vec![step("a", "skill", None, 300, 10), step("b", "echo", None, 300, 40)], vec![]);
    assert_eq!(loop_len(&c), 340);
}

#[test]
fn auto_switch_only_without_switch_steps() {
    assert!(auto_switch(&chart(vec![step("a", "skill", Some(1), 0, 0)], vec![])));
    assert!(!auto_switch(&chart(vec![step("a", "switch_2", Some(2), 0, 0)], vec![])));
    assert!(auto_switch(&chart(vec![step("a", "switch", Some(2), 0, 0)], vec![])));
}

#[test]
fn mode_names() {
    assert_eq!(parse_mode("startup"), PlaybackMode::StartupOnly);
    assert_eq!(parse_mode("loop"), PlaybackMode::LoopOnly);
    assert_eq!(parse_mode("full"), PlaybackMode::Full);
    assert_eq!(parse_mode(""), PlaybackMode::Full);
}

#[test]
fn real_plan_of_a_segment() {
    let mut heavy = step("h", "heavy_attack", Some(1), 100, 500);
    heavy.preheat_ms = Some(30);
    let c = chart(
        vec![heavy, step("e", "skill", Some(2), 900, 0), step("x", "mystery", None, 1200, 0)],
        vec![period(PeriodKind::FreeFire, 400, 700)],
    );
    let steps: Vec<&ComboStep> = c.steps.iter().collect();
    let opts = PlaybackOptions { free_fire_timeout_ms: 250, ..Default::default() };
    let (acts, slot, shift) = plan_segment(&c, &steps, 0, &opts, Some(1), true, 0);
    assert_eq!(slot, Some(2));
    // The timeout cuts 50 ms off the free-fire period: what follows moves up by 50 ms.
    assert_eq!(shift, 50);
    let expect = vec![
        "CheckStop", "WaitUntil(100)", "WaitUntil(70)", "Press",
        "CheckStop", "WaitUntil(400)", "FreeFire(250)", "Sleep(250,true)", "WaitUntil(850)",
        "Switch", "Tap", "Sleep(300,false)", "Press",
        "CheckStop", "WaitUntil(1150)", "Skipped",
    ];
    let got: Vec<String> = acts
        .iter()
        .map(|a| match a {
            Action::CheckStop => "CheckStop".to_string(),
            Action::WaitUntil(t) => format!("WaitUntil({t})"),
            Action::Sleep { ms, abort } => format!("Sleep({ms},{abort})"),
            Action::Tap { .. } => "Tap".to_string(),
            Action::Press { .. } => "Press".to_string(),
            Action::Emit(PlaybackEvent::FreeFire { wait_ms }) => format!("FreeFire({wait_ms})"),
            Action::Emit(PlaybackEvent::Switch { .. }) => "Switch".to_string(),
            Action::Emit(PlaybackEvent::StepSkipped { .. }) => "Skipped".to_string(),
            Action::Emit(e) => format!("{:?}", e),
        })
        .collect();
    assert_eq!(got, expect);
    match &acts[3] {
        Action::Press { dev, held_ms, planned_ms, .. } => {
            assert_eq!(*dev, Device::MouseLeft);
            assert_eq!(*held_ms, 500);
            assert_eq!(*planned_ms, 100);
        }
        _ => unreachable!(),
    }
    match &acts[10] {
        Action::Tap { dev, hold_ms } => {
            assert_eq!(*dev, Device::Key(SC_2));
            assert_eq!(*hold_ms, 40);
        }
        _ => unreachable!(),
    }
    match &acts[12] {
        Action::Press { dev, planned_ms, .. } => {
            assert_eq!(*dev, Device::Key(SC_E));
            // Reached 50 ms early, reported at its chart time.
            assert_eq!(*planned_ms, 900);
        }
        _ => unreachable!(),
    }
}

#[test]
fn free_fire_timeout_ends_the_pause() {
    let c = chart(
        vec![step("a", "skill", None, 0, 0), step("b", "echo", None, 20000, 0)],
        vec![period(PeriodKind::FreeFire, 5000, 20000)],
    );
    let steps: Vec<&ComboStep> = c.steps.iter().collect();
    let (acts, _, shift) = plan_segment(&c, &steps, 0, &PlaybackOptions::default(), None, true, 0);
    assert_eq!(shift, 5000);
    let waits: Vec<i64> = acts
        .iter()
        .filter_map(|a| match a {
            Action::WaitUntil(t) => Some(*t),
            _ => None,
        })
        .collect();
    // Start of the pause at 5 s, 10 s of free fire, then the next step at once (15 s).
    assert_eq!(waits, vec![0, 5000, 15000]);
    assert!(acts.iter().any(|a| matches!(a, Action::Sleep { ms: 10000, abort: true })));
    // A run carries the advance on: a later segment starts from it.
    let (acts, _, shift) = plan_segment(&c, &steps, 30000, &PlaybackOptions::default(), None, true, shift);
    assert_eq!(shift, 10000);
    assert!(matches!(acts[1], Action::WaitUntil(25000)));
}

#[test]
fn free_fire_within_the_timeout_moves_nothing() {
    let c = chart(
        vec![step("b", "echo", None, 900, 0)],
        vec![period(PeriodKind::FreeFire, 400, 700)],
    );
    let steps: Vec<&ComboStep> = c.steps.iter().collect();
    let (acts, _, shift) = plan_segment(&c, &steps, 0, &PlaybackOptions::default(), None, true, 0);
    assert_eq!(shift, 0);
    assert!(acts.iter().any(|a| matches!(a, Action::WaitUntil(900))));
}

#[test]
fn steps_inside_free_fire_are_left_to_the_player() {
    let c = chart(vec![step("a", "skill", None, 450, 0)], vec![period(PeriodKind::FreeFire, 400, 700)]);
    let steps: Vec<&ComboStep> = c.steps.iter().collect();
    let (acts, _, _) = plan_segment(&c, &steps, 0, &PlaybackOptions::default(), None, true, 0);
    assert_eq!(acts.len(), 1);
    assert!(matches!(acts[0], Action::CheckStop));
}

#[test]
fn dry_run_full_playback_runs_two_rounds() {
    let c = chart(
        vec![step("s", "skill", Some(1), 0, 100), step("l", "echo", Some(1), 1000, 100)],
        vec![period(PeriodKind::StartupAxis, 0, 1000), period(PeriodKind::LoopAxis, 1000, 1500)],
    );
    let opts = PlaybackOptions { dry_run: true, ..Default::default() };
    let (mut sch, acts) = Scheduler::start(&c, &opts);
    assert!(acts.iter().all(|a| matches!(a, Action::CheckStop | Action::Emit(_))));
    let ev = events(&acts);
    assert!(matches!(ev[0], PlaybackEvent::Started { title } if title == "demo"));
    assert!(matches!(ev[1], PlaybackEvent::Switch { from: None, to: 1 }));
    assert!(matches!(ev[2], PlaybackEvent::StepDone { planned_ms: 0, actual_ms: 0, held_ms: 40, .. }));
    assert_eq!(sch.stage, Stage::Startup);

    let acts = sch.advance(&c, true);
    let ev = events(&acts);
    assert!(matches!(ev[0], PlaybackEvent::LoopRound { round: 1 }));
    assert!(matches!(ev[1], PlaybackEvent::StepDone { planned_ms: 1000, .. }));
    assert_eq!(sch.stage, Stage::Looping(0));

    let acts = sch.advance(&c, true);
    let ev = events(&acts);
    assert!(matches!(ev[0], PlaybackEvent::LoopRound { round: 2 }));
    assert!(matches!(ev[1], PlaybackEvent::StepDone { planned_ms: 1500, .. }));

    let acts = sch.advance(&c, true);
    let ev = events(&acts);
    assert_eq!(ev.len(), 1);
    assert!(matches!(ev[0], PlaybackEvent::Stopped { reason: "completed" }));
    assert_eq!(sch.stage, Stage::Finished);
}

#[test]
fn stop_request_ends_the_run_as_manual() {
    let c = chart(vec![step("s", "skill", None, 0, 100)], vec![]);
    let (mut sch, _) = Scheduler::start(&c, &PlaybackOptions::default());
    let acts = sch.advance(&c, false);
    assert_eq!(acts.len(), 1);
    assert!(matches!(acts[0], Action::Emit(PlaybackEvent::Stopped { reason: "manual" })));
    assert_eq!(sch.stage, Stage::Finished);
}

#[test]
fn startup_only_and_loop_only() {
    let c = chart(vec![step("s", "skill", None, 0, 100)], vec![]);
    let opts = PlaybackOptions { mode: PlaybackMode::StartupOnly, ..Default::default() };
    let (mut sch, _) = Scheduler::start(&c, &opts);
    let acts = sch.advance(&c, true);
    assert!(matches!(acts[0], Action::Emit(PlaybackEvent::Stopped { reason: "completed" })));

    let opts = PlaybackOptions { mode: PlaybackMode::LoopOnly, max_loops: Some(1), ..Default::default() };
    let (mut sch, acts) = Scheduler::start(&c, &opts);
    assert!(matches!(acts[1], Action::Emit(PlaybackEvent::LoopRound { round: 1 })));
    assert_eq!(sch.stage, Stage::Looping(0));
    let acts = sch.advance(&c, true);
    assert!(matches!(acts[0], Action::Emit(PlaybackEvent::Stopped { reason: "completed" })));
}

#[test]
fn loop_limit_zero_plays_no_loop_round() {
    let c = chart(vec![], vec![]);
    let opts = PlaybackOptions { max_loops: Some(0), dry_run: true, ..Default::default() };
    let (mut sch, acts) = Scheduler::start(&c, &opts);
    let mut all: Vec<String> = events(&acts).iter().map(|e| format!("{:?}", e)).collect();
    let acts = sch.advance(&c, true);
    all.extend(events(&acts).iter().map(|e| format!("{:?}", e)));
    assert_eq!(all, vec![
        "Started { title: \"demo\" }".to_string(),
        "Stopped { reason: \"completed\" }".to_string(),
    ]);
    assert_eq!(sch.stage, Stage::Finished);

    let c = chart(vec![step("s", "skill", None, 0, 100)], vec![]);
    let opts = PlaybackOptions { mode: PlaybackMode::LoopOnly, max_loops: Some(0), ..Default::default() };
    let (sch, acts) = Scheduler::start(&c, &opts);
    assert_eq!(acts.len(), 2);
    assert!(matches!(acts[0], Action::Emit(PlaybackEvent::Started { .. })));
    assert!(matches!(acts[1], Action::Emit(PlaybackEvent::Stopped { reason: "completed" })));
    assert_eq!(sch.stage, Stage::Finished);
}

#[test]
fn loop_rounds_shift_by_the_loop_length() {
    let c = chart(vec![step("l", "skill", None, 200, 0)], vec![period(PeriodKind::LoopAxis, 0, 1000)]);
    let opts = PlaybackOptions { mode: PlaybackMode::LoopOnly, max_loops: Some(3), ..Default::default() };
    let (mut sch, _) = Scheduler::start(&c, &opts);
    let acts = sch.advance(&c, true);
    assert!(matches!(acts[0], Action::Emit(PlaybackEvent::LoopRound { round: 2 })));
    assert!(acts.iter().any(|a| matches!(a, Action::Press { planned_ms: 1200, .. })));
    let acts = sch.advance(&c, true);
    assert!(acts.iter().any(|a| matches!(a, Action::Press { planned_ms: 2200, .. })));
    let acts = sch.advance(&c, true);
    assert!(matches!(acts[0], Action::Emit(PlaybackEvent::Stopped { reason: "completed" })));
}

#[test]
fn dry_run_reports_chart_times_after_a_cut_free_fire() {
    let c = chart(
        vec![step("A", "tool", None, 25000, 0), step("B", "echo", None, 5000, 0)],
        vec![period(PeriodKind::FreeFire, 0, 20000)],
    );
    let steps = c.startup_steps();
    let opts = PlaybackOptions { dry_run: true, ..Default::default() };
    let (acts, _, shift) = plan_segment(&c, &steps, 0, &opts, None, true, 0);
    assert_eq!(shift, 10000);
    let ev = events(&acts);
    assert_eq!(ev.len(), 2);
    assert!(matches!(ev[0], PlaybackEvent::FreeFire { wait_ms: 10000 }));
    assert!(matches!(
        ev[1],
        PlaybackEvent::StepDone { planned_ms: 25000, actual_ms: 25000, held_ms: 40, .. }
    ));
    match ev[1] {
        PlaybackEvent::StepDone { label, move_id, .. } => {
            assert_eq!(label, "A");
            assert_eq!(move_id, "tool");
        }
        _ => unreachable!(),
    }
    // Outside a dry run the wait is moved up, the reported plan is not.
    let (acts, _, _) = plan_segment(&c, &steps, 0, &PlaybackOptions::default(), None, true, 0);
    assert!(acts.iter().any(|a| matches!(a, Action::WaitUntil(15000))));
    assert!(acts.iter().any(|a| matches!(a, Action::Press { planned_ms: 25000, .. })));
}
