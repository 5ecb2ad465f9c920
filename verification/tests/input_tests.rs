use smartkey::input::{
    default_binding, is_hold_move, release_all, slot_binding, track, wait_until_interruptible,
    Device, HeldKeys, SC_1, SC_E, SC_F, SC_LSHIFT, SC_Q, SC_R, SC_SPACE, SC_T,
};
use smartkey::listener::{is_reported, slot_of};

#[test]
fn default_table() {
    assert_eq!(default_binding("basic_attack"), Some(Device::MouseLeft));
    assert_eq!(default_binding("heavy_attack"), Some(Device::MouseLeft));
    assert_eq!(default_binding("skill_hold"), Some(Device::Key(SC_E)));
    assert_eq!(default_binding("echo"), Some(Device::Key(SC_Q)));
    assert_eq!(default_binding("liberation_hold"), Some(Device::Key(SC_R)));
    assert_eq!(default_binding("tool"), Some(Device::Key(SC_T)));
    assert_eq!(default_binding("dodge"), Some(Device::Key(SC_LSHIFT)));
    assert_eq!(default_binding("jump_hold"), Some(Device::Key(SC_SPACE)));
    assert_eq!(default_binding("switch_1"), Some(Device::Key(SC_1)));
    assert_eq!(default_binding("finisher"), Some(Device::Key(SC_F)));
    assert_eq!(default_binding("empty_action"), None);
    assert_eq!(default_binding("resonance_skill"), None);
    assert_eq!(default_binding("switch_5"), None);
}

#[test]
fn hold_moves() {
    assert!(is_hold_move("skill_hold"));
    assert!(is_hold_move("heavy_attack"));
    assert!(is_hold_move("_hold"));
    assert!(!is_hold_move("skill"));
    assert!(!is_hold_move("hold"));
}

#[test]
fn switch_keys_match_the_table() {
    for n in 1..=4u8 {
        assert_eq!(slot_binding(n), default_binding(&format!("switch_{n}")));
    }
    assert_eq!(slot_binding(0), None);
    assert_eq!(slot_binding(5), None);
}

#[test]
fn digit_keys_select_slots() {
    assert_eq!(slot_of(0x31), Some(1));
    assert_eq!(slot_of(0x34), Some(4));
    assert_eq!(slot_of(0x30), None);
    assert_eq!(slot_of(0x35), None);
}

#[test]
fn hook_reports_physical_key_presses_only() {
    assert!(is_reported(0, 0x0100, 0));
    assert!(is_reported(0, 0x0104, 0x20));
    assert!(!is_reported(0, 0x0100, 0x10));
    assert!(!is_reported(0, 0x0101, 0));
    assert!(!is_reported(1, 0x0100, 0));
}

#[test]
fn ledger_tracks_and_releases() {
    let mut keys = HeldKeys::new();
    track(&mut keys, Device::MouseLeft, true);
    track(&mut keys, Device::Key(SC_E), true);
    track(&mut keys, Device::MouseLeft, true);
    assert_eq!(keys.held, vec![Device::MouseLeft, Device::Key(SC_E)]);
    track(&mut keys, Device::MouseLeft, false);
    assert_eq!(keys.held, vec![Device::Key(SC_E)]);
    track(&mut keys, Device::MouseRight, false);
    assert_eq!(keys.held, vec![Device::Key(SC_E)]);
    track(&mut keys, Device::MouseRight, true);
    let stuck = release_all(&mut keys);
    assert_eq!(stuck, vec![Device::Key(SC_E), Device::MouseRight]);
    assert!(keys.held.is_empty());
}

#[test]
fn wait_decisions() {
    assert_eq!(wait_until_interruptible(0, 100), Some(100));
    assert_eq!(wait_until_interruptible(1_500_000, 100), Some(99));
    assert_eq!(wait_until_interruptible(1, 1), Some(1));
    assert_eq!(wait_until_interruptible(2_000_000, 3), Some(1));
    assert_eq!(wait_until_interruptible(100_000_000, 100), None);
    assert_eq!(wait_until_interruptible(200_000_000, 100), None);
    assert_eq!(wait_until_interruptible(0, -5), None);
    assert_eq!(wait_until_interruptible(0, i64::MAX), Some(i64::MAX as u64));
}

#[test]
fn hold_variants_bind_like_their_tap_moves() {
    for b in ["skill", "echo", "liberation", "dodge", "jump"] {
        let hold = format!("{b}_hold");
        assert_eq!(default_binding(&hold), default_binding(b));
        assert!(default_binding(b).is_some());
    }
    assert_eq!(default_binding("heavy_attack"), default_binding("basic_attack"));
}
