//! The fixed skill roster and the hold-to-charge mapping.

use vstd::prelude::*;
use crate::text::str_eq;

verus! {

/// The grantable skill roster in slot order; index == wire slot.
pub const ARENA_SKILLS: [&'static str; 3] = ["firebolt", "chain_lightning", "blizzard"];

/// Slot index for a skill id (positional in [`ARENA_SKILLS`]); `None` for unknown ids.
pub fn skill_slot_for(id: &str) -> (r: Option<u8>)
    ensures
        match r {
            Some(i) => i < 3 && ARENA_SKILLS@[i as int]@ == id@ && forall|j: int|
                0 <= j < i ==> ARENA_SKILLS@[j]@ != id@,
            None => forall|j: int| 0 <= j < 3 ==> ARENA_SKILLS@[j]@ != id@,
        },
{
    let mut i: usize = 0;
    while i < 3
        invariant
            i <= 3,
            forall|j: int| 0 <= j < i ==> ARENA_SKILLS@[j]@ != id@,
        decreases 3 - i,
    {
        if str_eq(ARENA_SKILLS[i], id) {
            return Some(i as u8);
        }
        i = i + 1;
    }
    None
}

} // verus!

verus! {

/// Charge byte of an instant tap: about a third up the byte range (≈1.0× multiplier).
pub const TAP_CHARGE_BYTE: u8 = 85;

/// Fixed simulation rate shared by every peer.
pub const TICK_HZ: u32 = 60;

/// Held ticks that reach a full charge: the 1.5 s maximum hold at [`TICK_HZ`].
pub const FULL_CHARGE_TICKS: u32 = 90;

/// `round(num / den)` for non-negative `num` and positive `den`, halves rounding up.
pub open spec fn round_div(num: int, den: int) -> int {
    (2 * num + den) / (2 * den)
}

/// The charge byte owed for `hold_ticks` held input ticks: the hold fraction
/// `(ticks - 1) / (FULL_CHARGE_TICKS - 1)`, clamped to `[0, 1]`, mapped linearly from the tap
/// byte (85) to 255 and rounded to the nearest integer.
pub open spec fn charge_byte_spec(hold_ticks: int) -> int {
    if hold_ticks <= 1 {
        85
    } else if hold_ticks >= 90 {
        255
    } else {
        round_div(85 * 89 + 170 * (hold_ticks - 1), 89)
    }
}

/// Held-tick count → charge byte. Both peers derive the identical byte from the identical input
/// stream; an instant tap (one tick) gives [`TAP_CHARGE_BYTE`], a full hold or longer gives 255.
pub fn charge_byte_from_hold_ticks(hold_ticks: u32) -> (r: u8)
    ensures
        r == charge_byte_spec(hold_ticks as int),
        TAP_CHARGE_BYTE <= r <= 255,
{
    if hold_ticks <= 1 {
        TAP_CHARGE_BYTE
    } else if hold_ticks >= FULL_CHARGE_TICKS {
        255
    } else {
        let n: u32 = 85 * 89 + 170 * (hold_ticks - 1);
        let q: u32 = (2 * n + 89) / 178;
        assert(q <= 255) by (nonlinear_arith)
            requires
                n <= 85 * 89 + 170 * 88,
                q == (2 * n + 89) / 178,
        ;
        assert(q >= 85) by (nonlinear_arith)
            requires
                n >= 85 * 89,
                q == (2 * n + 89) / 178,
        ;
        q as u8
    }
}

/// The charge byte never decreases as the hold grows longer.
pub proof fn lemma_charge_byte_monotone(a: int, b: int)
    requires
        a <= b,
    ensures
        charge_byte_spec(a) <= charge_byte_spec(b),
{
    if a > 1 && a < 90 && b > 1 && b < 90 {
        let na = 2 * (85 * 89 + 170 * (a - 1)) + 89;
        let nb = 2 * (85 * 89 + 170 * (b - 1)) + 89;
        assert(na / 178 <= nb / 178) by (nonlinear_arith)
            requires
                na <= nb,
        ;
    } else if a > 1 && a < 90 {
        let na = 2 * (85 * 89 + 170 * (a - 1)) + 89;
        assert(na / 178 <= 255) by (nonlinear_arith)
            requires
                na <= 2 * (85 * 89 + 170 * 88) + 89,
        ;
    } else if b > 1 && b < 90 {
        let nb = 2 * (85 * 89 + 170 * (b - 1)) + 89;
        assert(nb / 178 >= 85) by (nonlinear_arith)
            requires
                nb >= 2 * (85 * 89) + 89,
        ;
    }
}

/// Between a tap and a full hold the charge byte is the nearest integer to the linear ramp
/// `85 + 170 * (ticks - 1) / 89` (the ramp never lands on a half): twice the distance to the ramp,
/// in 89ths, stays under 89.
pub proof fn lemma_charge_byte_rounds_the_ramp(hold_ticks: int)
    requires
        1 <= hold_ticks <= 90,
    ensures
        -89 <= 178 * charge_byte_spec(hold_ticks) - 2 * (85 * 89 + 170 * (hold_ticks - 1)) < 89,
{
    if 1 < hold_ticks < 90 {
        let num = 85 * 89 + 170 * (hold_ticks - 1);
        let q = (2 * num + 89) / 178;
        assert(178 * q <= 2 * num + 89 < 178 * q + 178) by (nonlinear_arith)
            requires
                q == (2 * num + 89) / 178,
        ;
    }
}

/// Every charge byte lies between the tap byte and 255; a tap gives exactly the tap byte and
/// any hold of at least a full charge's worth of ticks gives exactly 255.
pub proof fn lemma_charge_byte_anchors(hold_ticks: int)
    ensures
        85 <= charge_byte_spec(hold_ticks) <= 255,
        charge_byte_spec(1) == 85,
        hold_ticks >= 90 ==> charge_byte_spec(hold_ticks) == 255,
{
    if 1 <= hold_ticks <= 90 {
        lemma_charge_byte_monotone(1, hold_ticks);
        lemma_charge_byte_monotone(hold_ticks, 90);
    }
}

} // verus!
