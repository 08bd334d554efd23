//! The cast-edge detector: a cast fires on the FALLING edge of the input stream's `charging`
//! flag, with the skill slot latched at the press and a charge byte derived from the number of
//! ticks the button was held. Both peers run this same machine over the same input stream.

use vstd::prelude::*;
use crate::skills::{charge_byte_from_hold_ticks, charge_byte_spec, lemma_charge_byte_anchors};

verus! {

/// Edge-detector state carried between ticks.
#[derive(Clone, Copy, PartialEq, Eq, Structural, Debug)]
pub struct CastEdge {
    /// The `charging` flag of the previous tick.
    pub charging: bool,
    /// Ticks the current press has been held (saturating).
    pub hold_ticks: u32,
    /// The skill slot latched when the current press began.
    pub slot: u8,
}

/// A cast released this tick: the latched slot and the derived charge byte.
#[derive(Clone, Copy, PartialEq, Eq, Structural, Debug)]
pub struct CastFire {
    pub slot: u8,
    pub charge: u8,
}

/// One tick of the edge detector, as a function of the previous state and the tick's input.
pub open spec fn edge_step(e: CastEdge, charging: bool, skill_slot: u8) -> (CastEdge, Option<CastFire>) {
    if charging {
        let base: int = if e.charging { e.hold_ticks as int } else { 0 };
        let held: u32 = if base + 1 > u32::MAX { u32::MAX } else { (base + 1) as u32 };
        (
            CastEdge {
                charging: true,
                hold_ticks: held,
                slot: if e.charging { e.slot } else { skill_slot },
            },
            None,
        )
    } else if e.charging {
        (
            CastEdge { charging: false, hold_ticks: 0, slot: e.slot },
            Some(CastFire { slot: e.slot, charge: charge_byte_spec(e.hold_ticks as int) as u8 }),
        )
    } else {
        (e, None)
    }
}

/// The casts fired over a whole input stream, and the state it leaves behind.
pub open spec fn edge_run(e: CastEdge, inputs: Seq<(bool, u8)>) -> (CastEdge, Seq<CastFire>)
    decreases inputs.len(),
{
    if inputs.len() == 0 {
        (e, Seq::empty())
    } else {
        let (e1, f) = edge_step(e, inputs[0].0, inputs[0].1);
        let (e2, rest) = edge_run(e1, inputs.drop_first());
        (
            e2,
            match f {
                Some(c) => seq![c] + rest,
                None => rest,
            },
        )
    }
}

/// `n` ticks of a held button, with the slot each tick carried.
pub open spec fn held_ticks(slots: Seq<u8>) -> Seq<(bool, u8)> {
    slots.map_values(|s: u8| (true, s))
}

impl CastEdge {
    /// The idle detector: not charging, nothing held.
    pub fn new() -> (r: CastEdge)
        ensures
            r == (CastEdge { charging: false, hold_ticks: 0, slot: 0 }),
    {
        CastEdge { charging: false, hold_ticks: 0, slot: 0 }
    }

    /// Feed one tick's `charging` flag and selected slot; returns the cast released this tick.
    pub fn step(&mut self, charging: bool, skill_slot: u8) -> (r: Option<CastFire>)
        ensures
            (*final(self), r) == edge_step(*old(self), charging, skill_slot),
    {
        let fired = self.charging && !charging;
        if charging {
            if !self.charging {
                self.slot = skill_slot;
                self.hold_ticks = 0;
            }
            self.hold_ticks = self.hold_ticks.saturating_add(1);
        }
        let mut out: Option<CastFire> = None;
        if fired {
            let charge = charge_byte_from_hold_ticks(self.hold_ticks);
            out = Some(CastFire { slot: self.slot, charge });
            self.hold_ticks = 0;
        }
        self.charging = charging;
        out
    }
}

/// The skill a fired cast resolves to: the equipped weapon's skill at the latched slot, with the
/// cast's charge. Nothing when no weapon is equipped or the weapon has no such slot.
pub open spec fn resolve_fire_spec(fire: CastFire, weapon: Option<Seq<String>>) -> Option<(Seq<char>, u8)> {
    match weapon {
        Some(skills) => if (fire.slot as int) < skills.len() {
            Some((skills[fire.slot as int]@, fire.charge))
        } else {
            None
        },
        None => None,
    }
}

/// Resolve a fired cast's latched slot against the equipped weapon's skill list.
pub fn resolve_fire(fire: CastFire, weapon: Option<&Vec<String>>) -> (r: Option<(String, u8)>)
    ensures
        match (r, resolve_fire_spec(fire, match weapon { Some(w) => Some(w@), None => None })) {
            (Some((id, c)), Some((want, wc))) => id@ == want && c == wc,
            (None, None) => true,
            _ => false,
        },
{
    match weapon {
        Some(skills) => {
            let slot = fire.slot as usize;
            if slot < skills.len() {
                Some((skills[slot].clone(), fire.charge))
            } else {
                None
            }
        },
        None => None,
    }
}

impl CastEdge {
    /// One fixed tick of the local player's predicted cast edge. During a rollback re-simulation
    /// the detector is left alone and nothing fires (the edge fires on first simulation only);
    /// otherwise the tick runs through [`CastEdge::step`] and a released cast is resolved
    /// against the equipped weapon.
    pub fn local_tick(&mut self, rollback: bool, charging: bool, skill_slot: u8, weapon: Option<&Vec<String>>) -> (r: Option<(String, u8)>)
        ensures
            rollback ==> *final(self) == *old(self) && r is None,
            !rollback ==> {
                let (e, f) = edge_step(*old(self), charging, skill_slot);
                &&& *final(self) == e
                &&& match (r, f) {
                    (Some((id, c)), Some(fire)) => resolve_fire_spec(fire, match weapon {
                        Some(w) => Some(w@),
                        None => None,
                    }) == Some((id@, c)),
                    (None, Some(fire)) => resolve_fire_spec(fire, match weapon {
                        Some(w) => Some(w@),
                        None => None,
                    }) is None,
                    (None, None) => true,
                    (Some(_), None) => false,
                }
            },
    {
        if rollback {
            return None;
        }
        match self.step(charging, skill_slot) {
            Some(fire) => resolve_fire(fire, weapon),
            None => None,
        }
    }
}

/// The held-tick counter saturates at `u32::MAX`.
pub open spec fn saturated_ticks(n: int) -> int {
    if n > u32::MAX { u32::MAX as int } else { n }
}

/// While a press is in progress, more held ticks then a release fire exactly one cast, with the
/// slot latched at the press and the charge of the total held ticks (as the saturating counter
/// counts them).
proof fn lemma_continue_then_release(e: CastEdge, slots: Seq<u8>, release_slot: u8)
    requires
        e.charging,
    ensures
        edge_run(e, held_ticks(slots) + seq![(false, release_slot)]) == (
            CastEdge { charging: false, hold_ticks: 0, slot: e.slot },
            seq![CastFire {
                slot: e.slot,
                charge: charge_byte_spec(saturated_ticks(e.hold_ticks as int + slots.len())) as u8,
            }],
        ),
    decreases slots.len(),
{
    let inputs = held_ticks(slots) + seq![(false, release_slot)];
    if slots.len() == 0 {
        assert(inputs =~= seq![(false, release_slot)]);
        assert(inputs.drop_first() =~= Seq::<(bool, u8)>::empty());
        let e_after = CastEdge { charging: false, hold_ticks: 0, slot: e.slot };
        let fire = CastFire { slot: e.slot, charge: charge_byte_spec(e.hold_ticks as int) as u8 };
        assert(edge_run(e_after, inputs.drop_first()) == (e_after, Seq::<CastFire>::empty()));
        assert(seq![fire] + Seq::<CastFire>::empty() =~= seq![fire]);
        assert(edge_run(e, inputs) == (
            CastEdge { charging: false, hold_ticks: 0, slot: e.slot },
            seq![CastFire { slot: e.slot, charge: charge_byte_spec(e.hold_ticks as int) as u8 }],
        ));
    } else {
        let h: u32 = if e.hold_ticks as int + 1 > u32::MAX { u32::MAX } else { (e.hold_ticks + 1) as u32 };
        let e1 = CastEdge { charging: true, hold_ticks: h, slot: e.slot };
        assert(inputs[0] == (true, slots[0]));
        assert(edge_step(e, inputs[0].0, inputs[0].1) == (e1, None::<CastFire>));
        assert(inputs.drop_first() =~= held_ticks(slots.drop_first()) + seq![(false, release_slot)]);
        lemma_continue_then_release(e1, slots.drop_first(), release_slot);
        assert(saturated_ticks(e1.hold_ticks as int + slots.drop_first().len())
            == saturated_ticks(e.hold_ticks as int + slots.len()));
    }
}

/// A press held for any `n >= 1` ticks and then released fires exactly one cast: its slot is
/// the one selected when the press began, its charge is `charge_byte_spec(n)`, and the detector
/// is idle again afterwards.
pub proof fn lemma_press_hold_release_fires_once(e: CastEdge, slots: Seq<u8>, release_slot: u8)
    requires
        !e.charging,
        1 <= slots.len(),
    ensures
        edge_run(e, held_ticks(slots) + seq![(false, release_slot)]) == (
            CastEdge { charging: false, hold_ticks: 0, slot: slots[0] },
            seq![CastFire { slot: slots[0], charge: charge_byte_spec(slots.len() as int) as u8 }],
        ),
{
    let inputs = held_ticks(slots) + seq![(false, release_slot)];
    let e1 = CastEdge { charging: true, hold_ticks: 1, slot: slots[0] };
    assert(inputs[0] == (true, slots[0]));
    assert(inputs.drop_first() =~= held_ticks(slots.drop_first()) + seq![(false, release_slot)]);
    lemma_continue_then_release(e1, slots.drop_first(), release_slot);
    // Past the counter's limit the hold is far beyond a full charge either way.
    lemma_charge_byte_anchors(slots.len() as int);
    lemma_charge_byte_anchors(saturated_ticks(slots.len() as int));
}

/// A press held for any `n >= 1` ticks and then released yields exactly one cast, and it resolves to
/// the equipped weapon's skill at the slot selected when the press began, with the charge of the
/// `n` held ticks (nothing when the weapon lacks that slot).
pub proof fn lemma_press_hold_release_resolves(e: CastEdge, slots: Seq<u8>, release_slot: u8, skills: Seq<String>)
    requires
        !e.charging,
        1 <= slots.len(),
    ensures
        edge_run(e, held_ticks(slots) + seq![(false, release_slot)]).1.len() == 1,
        resolve_fire_spec(edge_run(e, held_ticks(slots) + seq![(false, release_slot)]).1[0], Some(skills)) == (
            if (slots[0] as int) < skills.len() {
                Some((skills[slots[0] as int]@, charge_byte_spec(slots.len() as int) as u8))
            } else {
                None
            }),
{
    lemma_press_hold_release_fires_once(e, slots, release_slot);
}

/// A stream that never carries `charging` fires nothing and leaves an idle detector unchanged.
pub proof fn lemma_no_press_no_cast(e: CastEdge, inputs: Seq<(bool, u8)>)
    requires
        !e.charging,
        forall|i: int| 0 <= i < inputs.len() ==> !inputs[i].0,
    ensures
        edge_run(e, inputs) == (e, Seq::<CastFire>::empty()),
    decreases inputs.len(),
{
    if inputs.len() > 0 {
        lemma_no_press_no_cast(e, inputs.drop_first());
    }
}

} // verus!
