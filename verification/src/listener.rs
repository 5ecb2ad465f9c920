//! Decisions of the global keyboard hook: which key events are reported, and
//! which character slot a digit key selects.
use vstd::prelude::*;

verus! {

/// First virtual key of the digit row used for character slots (`1`).
pub const VK_DIGIT1: u32 = 0x31;

/// Last virtual key of the digit row used for character slots (`4`).
pub const VK_DIGIT4: u32 = 0x34;

/// Hook code of an event the hook must process.
pub const HC_ACTION: i32 = 0;

/// Window message of a key press.
pub const WM_KEYDOWN: u32 = 0x0100;

/// Window message of a key press with Alt held.
pub const WM_SYSKEYDOWN: u32 = 0x0104;

/// Low-level hook flag of input that a program injected.
pub const LLKHF_INJECTED: u32 = 0x10;

/// Character slot selected by a digit virtual key.
pub open spec fn slot_of_spec(vk: u32) -> Option<u8> {
    if VK_DIGIT1 <= vk && vk <= VK_DIGIT4 {
        Some((vk - VK_DIGIT1 + 1) as u8)
    } else {
        None
    }
}

/// Digit keys `1`..`4` select character slots 1..4; every other key selects none.
pub fn slot_of(vk: u32) -> (r: Option<u8>)
    ensures
        r == slot_of_spec(vk),
        r matches Some(n) ==> 1 <= n <= 4,
{
    if VK_DIGIT1 <= vk && vk <= VK_DIGIT4 {
        Some((vk - VK_DIGIT1 + 1) as u8)
    } else {
        None
    }
}

/// The hook reports only physical key presses: an action event, a key-down message,
/// and no injected flag (keys this program sends never come back to it).
pub fn is_reported(ncode: i32, message: u32, flags: u32) -> (r: bool)
    ensures
        r == (ncode == HC_ACTION && (message == WM_KEYDOWN || message == WM_SYSKEYDOWN) && flags
            & LLKHF_INJECTED == 0),
{
    ncode == HC_ACTION && (message == WM_KEYDOWN || message == WM_SYSKEYDOWN) && flags
        & LLKHF_INJECTED == 0
}

} // verus!
