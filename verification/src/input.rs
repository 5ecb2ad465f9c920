//! Input devices, the default move → device table, the held-device ledger used
//! for the emergency key release, and the deadline arithmetic of interruptible waits.
use vstd::prelude::*;

use crate::text::{chars_end_with, chars_of, chars_eq, ends_with};

verus! {

// Set-1 scan codes.
pub const SC_1: u16 = 0x02;
pub const SC_2: u16 = 0x03;
pub const SC_3: u16 = 0x04;
pub const SC_4: u16 = 0x05;
pub const SC_E: u16 = 0x12;
pub const SC_Q: u16 = 0x10;
pub const SC_R: u16 = 0x13;
pub const SC_T: u16 = 0x14;
pub const SC_F: u16 = 0x21;
pub const SC_LSHIFT: u16 = 0x2A;
pub const SC_SPACE: u16 = 0x39;

/// Default press length of a tap, ms.
pub const DEFAULT_TAP_MS: u64 = 40;

/// Wait after a character switch, ms.
pub const SWITCH_DELAY_MS: u64 = 300;

/// A physical input: a keyboard key by scan code, or a mouse button.
#[derive(Debug, Clone, Copy, PartialEq, Eq, Structural, Hash)]
pub enum Device {
    Key(u16),
    MouseLeft,
    MouseRight,
}

/// The default keyboard/mouse table for move ids (the right-button dodge binding is not part of it).
pub open spec fn binding_of(id: Seq<char>) -> Option<Device> {
    if id == "basic_attack"@ || id == "heavy_attack"@ {
        Some(Device::MouseLeft)
    } else if id == "skill"@ || id == "skill_hold"@ {
        Some(Device::Key(SC_E))
    } else if id == "echo"@ || id == "echo_hold"@ {
        Some(Device::Key(SC_Q))
    } else if id == "liberation"@ || id == "liberation_hold"@ {
        Some(Device::Key(SC_R))
    } else if id == "tool"@ {
        Some(Device::Key(SC_T))
    } else if id == "dodge"@ || id == "dodge_hold"@ {
        Some(Device::Key(SC_LSHIFT))
    } else if id == "jump"@ || id == "jump_hold"@ {
        Some(Device::Key(SC_SPACE))
    } else if id == "switch_1"@ {
        Some(Device::Key(SC_1))
    } else if id == "switch_2"@ {
        Some(Device::Key(SC_2))
    } else if id == "switch_3"@ {
        Some(Device::Key(SC_3))
    } else if id == "switch_4"@ {
        Some(Device::Key(SC_4))
    } else if id == "finisher"@ {
        Some(Device::Key(SC_F))
    } else {
        None
    }
}

/// Moves whose press length matters in game: every `*_hold` move and the heavy attack.
pub open spec fn is_hold_id(id: Seq<char>) -> bool {
    ends_with(id, "_hold"@) || id == "heavy_attack"@
}

/// The device of the `switch_<slot>` move.
pub open spec fn switch_binding(slot: u8) -> Option<Device> {
    if slot == 1 {
        Some(Device::Key(SC_1))
    } else if slot == 2 {
        Some(Device::Key(SC_2))
    } else if slot == 3 {
        Some(Device::Key(SC_3))
    } else if slot == 4 {
        Some(Device::Key(SC_4))
    } else {
        None
    }
}

fn is_text(cs: &Vec<char>, lit: &str) -> (r: bool)
    ensures
        r == (cs@ == lit@),
{
    let cl = chars_of(lit);
    chars_eq(cs, &cl)
}

/// The default device of a move id; `None` for moves without a binding.
pub fn default_binding(move_id: &str) -> (r: Option<Device>)
    ensures
        r == binding_of(move_id@),
{
    let id = chars_of(move_id);
    if is_text(&id, "basic_attack") || is_text(&id, "heavy_attack") {
        Some(Device::MouseLeft)
    } else if is_text(&id, "skill") || is_text(&id, "skill_hold") {
        Some(Device::Key(SC_E))
    } else if is_text(&id, "echo") || is_text(&id, "echo_hold") {
        Some(Device::Key(SC_Q))
    } else if is_text(&id, "liberation") || is_text(&id, "liberation_hold") {
        Some(Device::Key(SC_R))
    } else if is_text(&id, "tool") {
        Some(Device::Key(SC_T))
    } else if is_text(&id, "dodge") || is_text(&id, "dodge_hold") {
        Some(Device::Key(SC_LSHIFT))
    } else if is_text(&id, "jump") || is_text(&id, "jump_hold") {
        Some(Device::Key(SC_SPACE))
    } else if is_text(&id, "switch_1") {
        Some(Device::Key(SC_1))
    } else if is_text(&id, "switch_2") {
        Some(Device::Key(SC_2))
    } else if is_text(&id, "switch_3") {
        Some(Device::Key(SC_3))
    } else if is_text(&id, "switch_4") {
        Some(Device::Key(SC_4))
    } else if is_text(&id, "finisher") {
        Some(Device::Key(SC_F))
    } else {
        None
    }
}

/// Whether the press length of a move matters (hold variants and the heavy attack).
pub fn is_hold_move(move_id: &str) -> (r: bool)
    ensures
        r == is_hold_id(move_id@),
{
    let id = chars_of(move_id);
    let suffix = chars_of("_hold");
    chars_end_with(&id, &suffix) || is_text(&id, "heavy_attack")
}

/// The device of the `switch_<slot>` move (number keys `1`..`4`).
pub fn slot_binding(slot: u8) -> (r: Option<Device>)
    ensures
        r == switch_binding(slot),
{
    if slot == 1 {
        Some(Device::Key(SC_1))
    } else if slot == 2 {
        Some(Device::Key(SC_2))
    } else if slot == 3 {
        Some(Device::Key(SC_3))
    } else if slot == 4 {
        Some(Device::Key(SC_4))
    } else {
        None
    }
}

/// The devices currently held down, each listed once.
pub struct HeldKeys {
    pub held: Vec<Device>,
}

/// No device is listed twice.
pub open spec fn no_duplicates(s: Seq<Device>) -> bool {
    forall|i: int, j: int| 0 <= i < j < s.len() ==> s[i] != s[j]
}

/// `s` without any occurrence of `dev`, order kept.
pub open spec fn without(s: Seq<Device>, dev: Device) -> Seq<Device>
    decreases s.len(),
{
    if s.len() == 0 {
        s
    } else if s.last() == dev {
        without(s.drop_last(), dev)
    } else {
        without(s.drop_last(), dev).push(s.last())
    }
}

/// The ledger after `dev` went down (`down`) or up.
pub open spec fn after_track(s: Seq<Device>, dev: Device, down: bool) -> Seq<Device> {
    if down {
        if s.contains(dev) {
            s
        } else {
            s.push(dev)
        }
    } else {
        without(s, dev)
    }
}

impl HeldKeys {
    /// An empty ledger.
    pub fn new() -> (r: HeldKeys)
        ensures
            r.held@ == Seq::<Device>::empty(),
            r.wf(),
    {
        HeldKeys { held: Vec::new() }
    }

    /// Every device is listed once.
    pub open spec fn wf(&self) -> bool {
        no_duplicates(self.held@)
    }
}

fn contains_device(v: &Vec<Device>, dev: Device) -> (r: bool)
    ensures
        r == v@.contains(dev),
{
    let mut i: usize = 0;
    while i < v.len()
        invariant
            i <= v.len(),
            forall|k: int| 0 <= k < i ==> v@[k] != dev,
        decreases v.len() - i,
    {
        if v[i] == dev {
            assert(v@[i as int] == dev);
            return true;
        }
        i = i + 1;
    }
    false
}

/// Records that `dev` went down (added once) or up (every entry removed).
pub fn track(keys: &mut HeldKeys, dev: Device, down: bool)
    ensures
        final(keys).held@ == after_track(old(keys).held@, dev, down),
        old(keys).wf() ==> final(keys).wf(),
{
    proof {
        if old(keys).wf() {
            law_track(old(keys).held@, dev, down);
        }
    }
    if down {
        if !contains_device(&keys.held, dev) {
            keys.held.push(dev);
        }
    } else {
        let mut kept: Vec<Device> = Vec::new();
        let mut i: usize = 0;
        while i < keys.held.len()
            invariant
                i <= keys.held.len(),
                kept@ == without(keys.held@.take(i as int), dev),
            decreases keys.held.len() - i,
        {
            let d = keys.held[i];
            assert(keys.held@.take(i + 1).drop_last() =~= keys.held@.take(i as int));
            if d != dev {
                kept.push(d);
            }
            i = i + 1;
        }
        assert(keys.held@.take(i as int) =~= keys.held@);
        keys.held = kept;
    }
}

/// Empties the ledger and hands back every device that was held, for the caller to lift.
pub fn release_all(keys: &mut HeldKeys) -> (stuck: Vec<Device>)
    ensures
        stuck@ == old(keys).held@,
        final(keys).held@ == Seq::<Device>::empty(),
{
    let mut stuck: Vec<Device> = Vec::new();
    std::mem::swap(&mut stuck, &mut keys.held);
    stuck
}

/// Nanoseconds per millisecond.
pub const NANOS_PER_MS: u128 = 1_000_000;

/// What an interruptible wait for `target_ms` after the playback start does when
/// `elapsed_ns` have passed: `None` when the deadline has been reached (negative
/// targets count as 0), else the milliseconds left to sleep, rounded up so that the
/// sleep never ends before the deadline.
pub open spec fn wait_decision(elapsed_ns: u128, target_ms: i64) -> Option<u64> {
    let target_ns = (if target_ms < 0 { 0 } else { target_ms as int }) * NANOS_PER_MS;
    if target_ns <= elapsed_ns {
        None
    } else {
        Some(((target_ns - elapsed_ns + NANOS_PER_MS - 1) / NANOS_PER_MS as int) as u64)
    }
}

/// Decides an interruptible wait until `target_ms` after the playback start, given the
/// time elapsed so far: `None` = the deadline has passed, `Some(ms)` = sleep that long,
/// which reaches the deadline and overshoots it by less than a millisecond.
pub fn wait_until_interruptible(elapsed_ns: u128, target_ms: i64) -> (r: Option<u64>)
    ensures
        r == wait_decision(elapsed_ns, target_ms),
        r is None <==> (if target_ms < 0 { 0 } else { target_ms as int }) * NANOS_PER_MS
            <= elapsed_ns,
        r matches Some(ms) ==> {
            let left = (if target_ms < 0 { 0 } else { target_ms as int }) * NANOS_PER_MS
                - elapsed_ns;
            &&& left <= (ms as int) * NANOS_PER_MS
            &&& (ms as int) * NANOS_PER_MS < left + NANOS_PER_MS
        },
{
    let t: u128 = if target_ms < 0 {
        0
    } else {
        target_ms as u128
    };
    assert(t * NANOS_PER_MS <= 9223372036854775807u128 * 1_000_000u128) by (nonlinear_arith)
        requires
            t <= 9223372036854775807u128,
    ;
    let target_ns: u128 = t * NANOS_PER_MS;
    if target_ns <= elapsed_ns {
        None
    } else {
        let gap: u128 = target_ns - elapsed_ns;
        let left: u128 = (gap + (NANOS_PER_MS - 1)) / NANOS_PER_MS;
        assert(left <= t) by (nonlinear_arith)
            requires
                gap <= t * 1_000_000,
                left == (gap + 999_999) / 1_000_000,
                t >= 1,
        ;
        assert(gap <= left * 1_000_000 && left * 1_000_000 < gap + 1_000_000) by (nonlinear_arith)
            requires
                left == (gap + 999_999) / 1_000_000,
                gap >= 1,
        ;
        Some(left as u64)
    }
}

/// Digit character of a character slot 1..4.
pub open spec fn slot_digit(n: u8) -> char {
    if n == 1 {
        '1'
    } else if n == 2 {
        '2'
    } else if n == 3 {
        '3'
    } else {
        '4'
    }
}

/// The switch move of slot `n` (1 to 4) and the automatic switch to slot `n` both press
/// the digit key `n`, whose scan code is `n + 1`; other slots have no switch key.
pub proof fn law_switch_keys_are_digits(n: u8)
    ensures
        1 <= n <= 4 ==> switch_binding(n) == Some(Device::Key((n + 1) as u16)),
        1 <= n <= 4 ==> binding_of("switch_"@.push(slot_digit(n))) == Some(
            Device::Key((n + 1) as u16),
        ),
        !(1 <= n <= 4) ==> switch_binding(n) is None,
{
    if 1 <= n <= 4 {
        law_switch_binding_matches_table(n);
    }
}

/// A hold variant uses the same input as its tap move, and that input exists: each of
/// `skill`, `echo`, `liberation`, `dodge` and `jump` with `_hold` appended binds like
/// the move itself, and the heavy attack binds like the basic attack.
pub proof fn law_hold_variant_same_input(b: Seq<char>)
    requires
        b == "skill"@ || b == "echo"@ || b == "liberation"@ || b == "dodge"@ || b == "jump"@,
    ensures
        binding_of(b + "_hold"@) == binding_of(b),
        binding_of(b) is Some,
        binding_of("heavy_attack"@) == binding_of("basic_attack"@),
        binding_of("basic_attack"@) is Some,
{
    reveal_strlit("basic_attack");
    reveal_strlit("heavy_attack");
    reveal_strlit("skill");
    reveal_strlit("skill_hold");
    reveal_strlit("echo");
    reveal_strlit("echo_hold");
    reveal_strlit("liberation");
    reveal_strlit("liberation_hold");
    reveal_strlit("tool");
    reveal_strlit("dodge");
    reveal_strlit("dodge_hold");
    reveal_strlit("jump");
    reveal_strlit("jump_hold");
    reveal_strlit("_hold");
    let h = b + "_hold"@;
    if b == "skill"@ {
        assert(h =~= "skill_hold"@);
    } else if b == "echo"@ {
        assert(h =~= "echo_hold"@);
    } else if b == "liberation"@ {
        assert(h =~= "liberation_hold"@);
        assert(b[0] != "skill_hold"@[0]);
    } else if b == "dodge"@ {
        assert(h =~= "dodge_hold"@);
        assert(b[0] != "skill"@[0]);
        assert(h[0] != "skill_hold"@[0]);
        assert(h[0] != "liberation"@[0]);
    } else {
        assert(h =~= "jump_hold"@);
        assert(b[0] != "echo"@[0]);
        assert(b[0] != "tool"@[0]);
        assert(h[0] != "echo_hold"@[0]);
    }
}

/// The switch key of slot `n` is the default binding of the move `switch_<n>`.
pub proof fn law_switch_binding_matches_table(n: u8)
    requires
        1 <= n <= 4,
    ensures
        binding_of("switch_"@.push(slot_digit(n))) == switch_binding(n),
{
    reveal_strlit("basic_attack");
    reveal_strlit("heavy_attack");
    reveal_strlit("skill");
    reveal_strlit("skill_hold");
    reveal_strlit("echo");
    reveal_strlit("echo_hold");
    reveal_strlit("liberation");
    reveal_strlit("liberation_hold");
    reveal_strlit("tool");
    reveal_strlit("dodge");
    reveal_strlit("dodge_hold");
    reveal_strlit("jump");
    reveal_strlit("jump_hold");
    reveal_strlit("switch_1");
    reveal_strlit("switch_2");
    reveal_strlit("switch_3");
    reveal_strlit("switch_4");
    reveal_strlit("switch_");
    let id = "switch_"@.push(slot_digit(n));
    if n == 1 {
        assert(id =~= "switch_1"@);
    } else if n == 2 {
        assert(id =~= "switch_2"@);
        assert(id[7] != "switch_1"@[7]);
    } else if n == 3 {
        assert(id =~= "switch_3"@);
        assert(id[7] != "switch_1"@[7]);
        assert(id[7] != "switch_2"@[7]);
    } else {
        assert(id =~= "switch_4"@);
        assert(id[7] != "switch_1"@[7]);
        assert(id[7] != "switch_2"@[7]);
        assert(id[7] != "switch_3"@[7]);
    }
}

proof fn lemma_without(s: Seq<Device>, dev: Device)
    ensures
        forall|d: Device| #[trigger] without(s, dev).contains(d) <==> (s.contains(d) && d != dev),
        no_duplicates(s) ==> no_duplicates(without(s, dev)),
    decreases s.len(),
{
    if s.len() > 0 {
        let p = s.drop_last();
        lemma_without(p, dev);
        let w = without(s, dev);
        let wp = without(p, dev);
        assert forall|d: Device| #[trigger] w.contains(d) <==> (s.contains(d) && d != dev) by {
            if s.last() != dev {
                if w.contains(d) && d != s.last() {
                    let k = choose|k: int| 0 <= k < w.len() && w[k] == d;
                    assert(wp[k] == d);
                }
                if s.contains(d) && d != dev {
                    let k = choose|k: int| 0 <= k < s.len() && s[k] == d;
                    if k < p.len() {
                        assert(p[k] == d);
                    } else {
                        assert(w[w.len() - 1] == d);
                    }
                }
                if wp.contains(d) {
                    let k = choose|k: int| 0 <= k < wp.len() && wp[k] == d;
                    assert(w[k] == d);
                }
            } else {
                if s.contains(d) && d != dev {
                    let k = choose|k: int| 0 <= k < s.len() && s[k] == d;
                    assert(p[k] == d);
                }
            }
            if p.contains(d) {
                let k = choose|k: int| 0 <= k < p.len() && p[k] == d;
                assert(s[k] == d);
            }
        }
        if no_duplicates(s) {
            assert(no_duplicates(p));
            if s.last() != dev {
                assert(!p.contains(s.last()));
                assert(!wp.contains(s.last()));
                assert forall|i: int, j: int| 0 <= i < j < w.len() implies w[i] != w[j] by {
                    if j == w.len() - 1 {
                        assert(wp.contains(w[i]));
                    } else {
                        assert(w[i] == wp[i] && w[j] == wp[j]);
                    }
                }
            }
        }
    }
}

/// The held-device ledger lists every device at most once; a device pressed is
/// listed, a device released is not, and every other device keeps its state.
pub proof fn law_track(s: Seq<Device>, dev: Device, down: bool)
    requires
        no_duplicates(s),
    ensures
        no_duplicates(after_track(s, dev, down)),
        after_track(s, dev, down).contains(dev) == down,
        forall|d: Device| d != dev ==> (#[trigger] after_track(s, dev, down).contains(d) == s.contains(d)),
{
    lemma_without(s, dev);
    if down && !s.contains(dev) {
        let t = s.push(dev);
        assert(t[t.len() - 1] == dev);
        assert forall|d: Device| d != dev implies (#[trigger] t.contains(d) == s.contains(d)) by {
            if t.contains(d) {
                let k = choose|k: int| 0 <= k < t.len() && t[k] == d;
                assert(s[k] == d);
            }
            if s.contains(d) {
                let k = choose|k: int| 0 <= k < s.len() && s[k] == d;
                assert(t[k] == d);
            }
        }
    }
}

} // verus!
