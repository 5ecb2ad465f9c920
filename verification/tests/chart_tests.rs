use smartkey::chart::{ComboChart, ComboPeriod, ComboStep, Lane, PeriodKind};

fn step(id: &str, move_id: &str, start: i64) -> ComboStep {
    ComboStep { id: id.into(), move_id: move_id.into(), label: id.into(), start_min: start, ..Default::default() }
}

fn period(kind: PeriodKind, start: i64, end: i64) -> ComboPeriod {
    ComboPeriod {
        id: format!("{:?}", kind),
        kind,
        label: None,
        character_slot: None,
        lane: None,
        start_ms: start,
        end_ms: end,
        loop_index: None,
    }
}

fn chart(steps: Vec<ComboStep>, periods: Vec<ComboPeriod>) -> ComboChart {
    ComboChart {
        id: "c".into(),
        title: "t".into(),
        character_count: Some(3),
        character: None,
        author: None,
        tags: vec![],
        community: None,
        content_labels: None,
        timeline_duration_ms: None,
        version: 1,
        created_at: 0,
        updated_at: 0,
        start_trigger_move_id: None,
        stop_trigger_move_id: None,
        steps,
        periods,
    }
}

fn ids(v: &[&ComboStep]) -> Vec<String> {
    v.iter().map(|s| s.id.clone()).collect()
}

#[test]
fn skippable_moves() {
    assert!(step("a", "start_challenge", 0).is_skippable());
    assert!(step("a", "stop_recording", 0).is_skippable());
    assert!(step("a", "empty_action", 0).is_skippable());
    assert!(!step("a", "basic_attack", 0).is_skippable());
    assert!(!step("a", "empty_actions", 0).is_skippable());
}

#[test]
fn default_step_is_blank() {
    let s = ComboStep::default();
    assert_eq!(s.lane, Lane::Main);
    assert_eq!(s.start_min, 0);
    assert!(s.move_id.is_empty());
    assert!(s.samples.is_empty());
}

#[test]
fn period_finds_first_of_kind() {
    let c = chart(
        vec![],
        vec![
            period(PeriodKind::FreeFire, 5, 6),
            period(PeriodKind::LoopAxis, 100, 200),
            period(PeriodKind::LoopAxis, 300, 400),
        ],
    );
    assert_eq!(c.period(PeriodKind::LoopAxis).unwrap().start_ms, 100);
    assert!(c.period(PeriodKind::StartupAxis).is_none());
}

#[test]
fn period_steps_are_filtered_and_stably_ordered() {
    let c = chart(
        vec![
            step("late", "skill", 900),
            step("skip", "start_challenge", 100),
            step("first", "basic_attack", 200),
            step("tie_a", "echo", 500),
            step("out", "skill", 1000),
            step("tie_b", "tool", 500),
            step("before", "skill", -1),
        ],
        vec![period(PeriodKind::StartupAxis, 0, 1000), period(PeriodKind::LoopAxis, 1000, 2000)],
    );
    assert_eq!(ids(&c.startup_steps()), vec!["first", "tie_a", "tie_b", "late"]);
    assert_eq!(ids(&c.loop_steps()), vec!["out"]);
}

#[test]
fn without_period_every_played_step_counts() {
    let c = chart(vec![step("b", "skill", 20), step("a", "skill", 10), step("x", "empty_action", 0)], vec![]);
    assert_eq!(ids(&c.startup_steps()), vec!["a", "b"]);
    assert_eq!(ids(&c.loop_steps()), vec!["a", "b"]);
}

#[test]
fn steps_inside_draft_periods_are_skipped() {
    let c = chart(
        vec![
            step("keep", "skill", 100),
            step("draft", "skill", 300),
            step("draft_end", "echo", 400),
            step("second_draft", "tool", 700),
            step("after", "skill", 500),
        ],
        vec![
            period(PeriodKind::DraftPeriod, 300, 500),
            period(PeriodKind::StartupAxis, 0, 1000),
            period(PeriodKind::DraftPeriod, 650, 800),
        ],
    );
    assert_eq!(ids(&c.startup_steps()), vec!["keep", "after"]);
    // Without a loop period every played step counts, still without the draft ones.
    assert_eq!(ids(&c.loop_steps()), vec!["keep", "after"]);
}
