//! Charge-hold presentation decisions. While a player holds the cast button, the tier whose
//! threshold is the highest one reached by the live charge is active; crossing a tier drains the
//! old visuals and starts the new one, and a release drains everything. The frame driver spawns
//! and drains the visuals; this module decides which of those it does.

use vstd::prelude::*;
use crate::text::str_eq;

verus! {

/// `t` is the last tier whose threshold has been reached.
pub open spec fn is_last_reached(reached: Seq<bool>, t: int) -> bool {
    &&& 0 <= t < reached.len()
    &&& reached[t]
    &&& forall|j: int| t < j < reached.len() ==> !reached[j]
}

/// The tier wanted this frame: while charging, the last tier whose threshold the live charge has
/// reached (`reached[i]` tells whether tier `i`'s threshold is at or below the charge); nothing
/// when no threshold is reached or the button is up.
pub fn target_tier(charging: bool, reached: &Vec<bool>) -> (r: Option<usize>)
    ensures
        match r {
            Some(t) => charging && is_last_reached(reached@, t as int),
            None => !charging || forall|j: int| 0 <= j < reached@.len() ==> !reached@[j],
        },
{
    if !charging {
        return None;
    }
    let mut i: usize = reached.len();
    while i > 0
        invariant
            charging,
            i <= reached@.len(),
            forall|j: int| i <= j < reached@.len() ==> !reached@[j],
        decreases i,
    {
        let k: usize = i - 1;
        if reached[k] {
            assert(is_last_reached(reached@, k as int));
            return Some(k);
        }
        i = i - 1;
    }
    None
}

/// One player's active charge-tier visual: the skill and tier it shows, and the last quantized
/// charge step streamed into its effect.
#[derive(Clone, Debug)]
pub struct ActiveChargeVisual {
    pub skill: String,
    pub tier: usize,
    pub applied_step: i32,
}

/// What the frame driver does with a player's charge visuals this frame.
#[derive(Clone, Copy, PartialEq, Eq, Structural, Debug)]
pub enum ChargeCueAction {
    /// Nothing active and nothing wanted.
    Idle,
    /// Spawn the given tier's visuals.
    Start(usize),
    /// Drain the active visuals and clear them (release or cancel).
    End,
    /// Drain the active visuals, then spawn the given tier (a tier was crossed, or the selected
    /// skill changed mid-hold).
    Restart(usize),
    /// Same tier: stream the new quantized charge step into the running effect.
    Stream(i32),
    /// Same tier, same step: nothing to do.
    Hold,
}

/// The model of an optional visual: skill characters, tier, applied step.
pub open spec fn visual_model(v: Option<ActiveChargeVisual>) -> Option<(Seq<char>, usize, i32)> {
    match v {
        Some(c) => Some((c.skill@, c.tier, c.applied_step)),
        None => None,
    }
}

/// The decision for one frame, from the active visual, the player's current skill, the wanted
/// tier and the quantized live charge.
pub open spec fn charge_action(
    active: Option<(Seq<char>, usize, i32)>,
    skill: Seq<char>,
    target: Option<usize>,
    step: i32,
) -> ChargeCueAction {
    match (active, target) {
        (None, None) => ChargeCueAction::Idle,
        (None, Some(t)) => ChargeCueAction::Start(t),
        (Some(_), None) => ChargeCueAction::End,
        (Some((s, k, a)), Some(t)) => if s != skill || k != t {
            ChargeCueAction::Restart(t)
        } else if step != a {
            ChargeCueAction::Stream(step)
        } else {
            ChargeCueAction::Hold
        },
    }
}

/// The visual left active after the frame: the wanted tier of the current skill at the current
/// step, or nothing.
pub open spec fn charge_next(skill: Seq<char>, target: Option<usize>, step: i32) -> Option<(Seq<char>, usize, i32)> {
    match target {
        Some(t) => Some((skill, t, step)),
        None => None,
    }
}

/// Advance one player's charge visual by a frame. Returns the visual to keep and the action the
/// driver performs.
pub fn advance_charge_visual(active: Option<ActiveChargeVisual>, skill: &str, target: Option<usize>, step: i32) -> (r: (
    Option<ActiveChargeVisual>,
    ChargeCueAction,
))
    ensures
        visual_model(r.0) == charge_next(skill@, target, step),
        r.1 == charge_action(visual_model(active), skill@, target, step),
{
    match (active, target) {
        (None, None) => (None, ChargeCueAction::Idle),
        (None, Some(t)) => (
            Some(ActiveChargeVisual { skill: skill.to_owned(), tier: t, applied_step: step }),
            ChargeCueAction::Start(t),
        ),
        (Some(_), None) => (None, ChargeCueAction::End),
        (Some(v), Some(t)) => {
            if !str_eq(v.skill.as_str(), skill) || v.tier != t {
                (
                    Some(ActiveChargeVisual { skill: skill.to_owned(), tier: t, applied_step: step }),
                    ChargeCueAction::Restart(t),
                )
            } else if step != v.applied_step {
                (Some(ActiveChargeVisual { skill: v.skill, tier: t, applied_step: step }), ChargeCueAction::Stream(step))
            } else {
                (Some(v), ChargeCueAction::Hold)
            }
        },
    }
}

/// Holding steady on one tier of one skill never respawns it: the frame after a tier became
/// active, the same skill and tier only stream or hold.
pub proof fn lemma_steady_tier_never_respawns(
    skill: Seq<char>,
    t: usize,
    step1: i32,
    step2: i32,
)
    ensures
        ({
            let a = charge_action(charge_next(skill, Some(t), step1), skill, Some(t), step2);
            a == ChargeCueAction::Stream(step2) || a == ChargeCueAction::Hold
        }),
{
}

/// A release always drains whatever is active, and afterwards nothing is active, so the next
/// frame without a wanted tier is idle.
pub proof fn lemma_release_drains_once(
    active: Option<(Seq<char>, usize, i32)>,
    skill: Seq<char>,
    step1: i32,
    step2: i32,
)
    ensures
        active is Some ==> charge_action(active, skill, None, step1) == ChargeCueAction::End,
        charge_next(skill, None, step1) is None,
        charge_action(charge_next(skill, None, step1), skill, None, step2) == ChargeCueAction::Idle,
{
}

} // verus!
