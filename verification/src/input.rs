//! Staging of the local player's per-tick input: the press latches that guarantee a sub-tick
//! tap still occupies one input tick, the skill-slot lookup against the equipped weapon, and
//! keeping the selected skill valid for the weapon.

use vstd::prelude::*;
use crate::text::{first_index_of, position_of, contains_str, views};

verus! {

/// The local input flags between two sampled ticks.
#[derive(Clone, Copy, PartialEq, Eq, Structural, Debug)]
pub struct InputLatches {
    /// Jump button currently held.
    pub jump: bool,
    /// A jump press seen since the last sampled tick.
    pub jump_latch: bool,
    /// Cast button currently held.
    pub charging: bool,
    /// A cast press seen since the last sampled tick.
    pub tap_latch: bool,
}

/// The flags one sampled tick carries.
#[derive(Clone, Copy, PartialEq, Eq, Structural, Debug)]
pub struct SampledFlags {
    pub jump: bool,
    pub charging: bool,
}

/// Sampling rule: a latched press counts as held for this tick; the jump latch always clears,
/// the tap latch clears once the button is no longer held.
pub open spec fn sample_spec(l: InputLatches) -> (InputLatches, SampledFlags) {
    (
        InputLatches {
            jump: l.jump,
            jump_latch: false,
            charging: l.charging,
            tap_latch: if l.charging { l.tap_latch } else { false },
        },
        SampledFlags { jump: l.jump || l.jump_latch, charging: l.charging || l.tap_latch },
    )
}

impl InputLatches {
    /// No button held, nothing latched.
    pub fn new() -> (r: InputLatches)
        ensures
            r == (InputLatches { jump: false, jump_latch: false, charging: false, tap_latch: false }),
    {
        InputLatches { jump: false, jump_latch: false, charging: false, tap_latch: false }
    }

    /// Sample this tick's flags and clear the latches the sample consumed.
    pub fn sample(&mut self) -> (r: SampledFlags)
        ensures
            (*final(self), r) == sample_spec(*old(self)),
    {
        let charging = self.charging || self.tap_latch;
        let jump = self.jump || self.jump_latch;
        self.jump_latch = false;
        if !self.charging {
            self.tap_latch = false;
        }
        SampledFlags { jump, charging }
    }
}

/// What a sampled tick carries: a button counts when it is held or when a press was latched
/// since the last tick, so a held jump or cast button is always sampled as held. Sampling
/// leaves the held buttons alone, always consumes the jump latch, and keeps the tap latch exactly
/// while the cast button is still held.
pub proof fn lemma_sample_reads_held_and_latched(l: InputLatches)
    ensures
        sample_spec(l).1.jump == (l.jump || l.jump_latch),
        sample_spec(l).1.charging == (l.charging || l.tap_latch),
        l.jump ==> sample_spec(l).1.jump,
        l.charging ==> sample_spec(l).1.charging,
        sample_spec(l).0.jump == l.jump,
        sample_spec(l).0.charging == l.charging,
        !sample_spec(l).0.jump_latch,
        sample_spec(l).0.tap_latch == (l.charging && l.tap_latch),
{
}

/// A tap pressed and released between two ticks (only the tap latch is set) is sampled as
/// exactly one charging tick followed by a released tick: the falling edge both peers' cast
/// detectors fire on.
pub proof fn lemma_sub_tick_tap_is_one_charging_tick(l: InputLatches)
    requires
        !l.charging,
        l.tap_latch,
    ensures
        sample_spec(l).1.charging,
        !sample_spec(sample_spec(l).0).1.charging,
{
}

/// A jump pressed and released between two ticks is sampled as a jump on exactly the next tick.
pub proof fn lemma_sub_tick_jump_lands_in_one_tick(l: InputLatches)
    requires
        !l.jump,
        l.jump_latch,
    ensures
        sample_spec(l).1.jump,
        !sample_spec(sample_spec(l).0).1.jump,
{
}

/// The slot of `selected` in the equipped weapon's skill list, when the weapon grants it (and
/// its index fits the one-byte wire slot).
pub fn weapon_skill_slot_for(skills: &Vec<String>, selected: &str) -> (r: Option<u8>)
    ensures
        match r {
            Some(s) => first_index_of(views(skills@), selected@, Some(s as usize)),
            None => forall|p: usize|
                #![trigger first_index_of(views(skills@), selected@, Some(p))]
                first_index_of(views(skills@), selected@, Some(p)) ==> p > 255,
        },
{
    let p = position_of(skills, selected);
    match p {
        Some(i) => {
            if i <= 255 {
                Some(i as u8)
            } else {
                None
            }
        },
        None => None,
    }
}

/// The wire slot a tick carries: the selected skill's slot in the equipped weapon, falling back
/// to slot 0 (the weapon's first skill) when the weapon lacks it or no weapon is equipped.
pub fn input_skill_slot(weapon_skills: Option<&Vec<String>>, selected: &str) -> (r: u8)
    ensures
        match weapon_skills {
            Some(skills) => match first_slot(skills@, selected@) {
                Some(s) => r == s,
                None => r == 0,
            },
            None => r == 0,
        },
{
    match weapon_skills {
        Some(skills) => {
            let s = weapon_skill_slot_for(skills, selected);
            proof {
                lemma_first_slot(skills@, selected@, s);
            }
            match s {
                Some(v) => v,
                None => 0,
            }
        },
        None => 0,
    }
}

/// The slot of the first occurrence of `x` in `skills`, when there is one below 256.
pub open spec fn first_slot(skills: Seq<String>, x: Seq<char>) -> Option<u8> {
    if exists|i: int| 0 <= i < skills.len() && skills[i]@ == x {
        let i = choose|i: int|
            0 <= i < skills.len() && skills[i]@ == x && forall|j: int|
                0 <= j < i ==> skills[j]@ != x;
        if i <= 255 {
            Some(i as u8)
        } else {
            None
        }
    } else {
        None
    }
}

proof fn lemma_first_slot(skills: Seq<String>, x: Seq<char>, s: Option<u8>)
    requires
        match s {
            Some(v) => first_index_of(views(skills), x, Some(v as usize)),
            None => forall|p: usize|
                #![trigger first_index_of(views(skills), x, Some(p))]
                first_index_of(views(skills), x, Some(p)) ==> p > 255,
        },
    ensures
        first_slot(skills, x) == s,
{
    let vs = views(skills);
    if exists|i: int| 0 <= i < skills.len() && skills[i]@ == x {
        let w = choose|i: int| 0 <= i < skills.len() && skills[i]@ == x;
        lemma_exists_first(skills, x, w);
        let i = choose|i: int|
            0 <= i < skills.len() && skills[i]@ == x && forall|j: int|
                0 <= j < i ==> skills[j]@ != x;
        assert(vs[i] == skills[i]@);
        assert(forall|j: int| 0 <= j < i ==> vs[j] == skills[j]@);
        match s {
            Some(v) => {
                if (v as int) < i {
                    assert(vs[v as int] == skills[v as int]@);
                } else if (v as int) > i {
                    assert(vs[i] == x);
                }
            },
            None => {
                if i <= 255 {
                    assert(first_index_of(vs, x, Some(i as usize)));
                }
            },
        }
    } else {
        match s {
            Some(v) => {
                assert(vs[v as int] == skills[v as int]@);
            },
            None => {},
        }
    }
}

/// Some index holding `x` implies a first one.
proof fn lemma_exists_first(skills: Seq<String>, x: Seq<char>, w: int)
    requires
        0 <= w < skills.len(),
        skills[w]@ == x,
    ensures
        exists|i: int|
            0 <= i < skills.len() && skills[i]@ == x && forall|j: int|
                0 <= j < i ==> skills[j]@ != x,
    decreases w,
{
    if exists|j: int| 0 <= j < w && skills[j]@ == x {
        let j = choose|j: int| 0 <= j < w && skills[j]@ == x;
        lemma_exists_first(skills, x, j);
    }
}

/// The skill selection a weapon keeps valid: unchanged when the weapon grants it, else the
/// weapon's first skill (an empty weapon leaves the selection alone).
pub open spec fn synced_selection_spec(selected: Seq<char>, skills: Seq<String>) -> Seq<char> {
    if views(skills).contains(selected) || skills.len() == 0 {
        selected
    } else {
        skills[0]@
    }
}

/// Snap the selection to a skill the equipped weapon grants.
pub fn synced_selection(selected: &str, skills: &Vec<String>) -> (r: String)
    ensures
        r@ == synced_selection_spec(selected@, skills@),
{
    if contains_str(skills, selected) || skills.len() == 0 {
        selected.to_owned()
    } else {
        skills[0].clone()
    }
}

/// After syncing, the selection is one the weapon grants (for any weapon with a skill), and
/// syncing again changes nothing.
pub proof fn lemma_synced_selection_is_granted_and_stable(selected: Seq<char>, skills: Seq<String>)
    requires
        skills.len() > 0,
    ensures
        views(skills).contains(synced_selection_spec(selected, skills)),
        synced_selection_spec(synced_selection_spec(selected, skills), skills)
            == synced_selection_spec(selected, skills),
{
    let vs = views(skills);
    if !vs.contains(selected) {
        assert(vs[0] == skills[0]@);
    }
}

} // verus!
