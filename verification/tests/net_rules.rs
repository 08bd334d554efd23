use arena_game::cast::{resolve_fire, CastEdge, CastFire};
use arena_game::input::{input_skill_slot, synced_selection, weapon_skill_slot_for, InputLatches, SampledFlags};
use arena_game::skills::{charge_byte_from_hold_ticks, skill_slot_for, ARENA_SKILLS, FULL_CHARGE_TICKS, TAP_CHARGE_BYTE, TICK_HZ};

/// The longest charge hold, in seconds.
const MAX_CHARGE_SECS: f32 = 1.5;

fn strings(v: &[&str]) -> Vec<String> {
    v.iter().map(|s| s.to_string()).collect()
}

#[test]
fn skill_slots_are_positional() {
    assert_eq!(skill_slot_for("firebolt"), Some(0));
    assert_eq!(skill_slot_for("chain_lightning"), Some(1));
    assert_eq!(skill_slot_for("blizzard"), Some(2));
    assert_eq!(skill_slot_for("nope"), None);
    assert_eq!(ARENA_SKILLS.len(), 3);
}

#[test]
fn charge_from_hold_ticks_anchors() {
    let full = (MAX_CHARGE_SECS * TICK_HZ as f32).ceil() as u32;
    assert!(charge_byte_from_hold_ticks(1).abs_diff(TAP_CHARGE_BYTE) <= 2);
    assert_eq!(charge_byte_from_hold_ticks(full), 255);
    assert_eq!(charge_byte_from_hold_ticks(full * 3), 255);
}

#[test]
fn full_charge_ticks_is_the_longest_hold() {
    let full = (MAX_CHARGE_SECS * TICK_HZ as f32).ceil() as u32;
    assert_eq!(FULL_CHARGE_TICKS, full);
}

#[test]
fn charge_byte_interpolates_between_tap_and_full() {
    assert_eq!(charge_byte_from_hold_ticks(0), 85);
    assert_eq!(charge_byte_from_hold_ticks(1), 85);
    assert_eq!(charge_byte_from_hold_ticks(2), 87);
    assert_eq!(charge_byte_from_hold_ticks(45), 169);
    assert_eq!(charge_byte_from_hold_ticks(89), 253);
    assert_eq!(charge_byte_from_hold_ticks(90), 255);
    assert_eq!(charge_byte_from_hold_ticks(u32::MAX), 255);
}

#[test]
fn charge_byte_matches_the_fraction_mapping() {
    // The byte is round(85 + frac * 170) with frac = (ticks - 1) / (full - 1), clamped.
    for ticks in 0u32..200 {
        let frac = ((ticks as f32 - 1.0) / (FULL_CHARGE_TICKS as f32 - 1.0)).clamp(0.0, 1.0);
        let expect = (85.0 + frac * 170.0).round() as u8;
        assert_eq!(charge_byte_from_hold_ticks(ticks), expect, "ticks={ticks}");
    }
}

#[test]
fn charge_byte_never_decreases_with_longer_holds() {
    let mut prev = charge_byte_from_hold_ticks(0);
    for ticks in 1u32..120 {
        let b = charge_byte_from_hold_ticks(ticks);
        assert!(b >= prev);
        prev = b;
    }
}

#[test]
fn press_hold_release_fires_one_cast_with_press_slot() {
    let mut e = CastEdge::new();
    assert_eq!(e.step(true, 2), None);
    // The selection moves mid-hold: the cast keeps the slot latched at the press.
    for _ in 0..9 {
        assert_eq!(e.step(true, 0), None);
    }
    let fired = e.step(false, 1);
    assert_eq!(fired, Some(CastFire { slot: 2, charge: charge_byte_from_hold_ticks(10) }));
    assert_eq!(e.step(false, 1), None);
    assert!(!e.charging);
    assert_eq!(e.hold_ticks, 0);
}

#[test]
fn idle_stream_fires_nothing() {
    let mut e = CastEdge::new();
    for slot in 0u8..5 {
        assert_eq!(e.step(false, slot), None);
    }
    assert_eq!(e, CastEdge::new());
}

#[test]
fn one_tick_tap_fires_the_tap_byte() {
    let mut e = CastEdge::new();
    assert_eq!(e.step(true, 1), None);
    assert_eq!(e.step(false, 1), Some(CastFire { slot: 1, charge: TAP_CHARGE_BYTE }));
}

#[test]
fn sub_tick_tap_is_one_charging_tick() {
    let mut l = InputLatches::new();
    l.tap_latch = true;
    assert_eq!(l.sample(), SampledFlags { jump: false, charging: true });
    assert_eq!(l.sample(), SampledFlags { jump: false, charging: false });
}

#[test]
fn sub_tick_jump_lands_in_one_tick() {
    let mut l = InputLatches::new();
    l.jump_latch = true;
    assert_eq!(l.sample(), SampledFlags { jump: true, charging: false });
    assert_eq!(l.sample(), SampledFlags { jump: false, charging: false });
}

#[test]
fn held_cast_keeps_its_tap_latch_until_release() {
    let mut l = InputLatches::new();
    l.charging = true;
    l.tap_latch = true;
    assert!(l.sample().charging);
    assert!(l.tap_latch);
    l.charging = false;
    assert!(l.sample().charging);
    assert!(!l.tap_latch);
    assert!(!l.sample().charging);
}

#[test]
fn weapon_slots_follow_the_equipped_weapon() {
    let storm = strings(&["blizzard", "chain_lightning"]);
    assert_eq!(weapon_skill_slot_for(&storm, "blizzard"), Some(0));
    assert_eq!(weapon_skill_slot_for(&storm, "chain_lightning"), Some(1));
    assert_eq!(weapon_skill_slot_for(&storm, "firebolt"), None);
    assert_eq!(input_skill_slot(Some(&storm), "chain_lightning"), 1);
    assert_eq!(input_skill_slot(Some(&storm), "firebolt"), 0);
    assert_eq!(input_skill_slot(None, "chain_lightning"), 0);
}

#[test]
fn selection_snaps_to_a_granted_skill() {
    let storm = strings(&["blizzard", "chain_lightning"]);
    assert_eq!(synced_selection("chain_lightning", &storm), "chain_lightning");
    assert_eq!(synced_selection("firebolt", &storm), "blizzard");
    assert_eq!(synced_selection("firebolt", &Vec::new()), "firebolt");
    let again = synced_selection("firebolt", &storm);
    assert_eq!(synced_selection(&again, &storm), again);
}

#[test]
fn fired_casts_resolve_against_the_weapon() {
    let storm = strings(&["blizzard", "chain_lightning"]);
    let f = CastFire { slot: 1, charge: 200 };
    assert_eq!(resolve_fire(f, Some(&storm)), Some(("chain_lightning".to_string(), 200)));
    assert_eq!(resolve_fire(CastFire { slot: 2, charge: 85 }, Some(&storm)), None);
    assert_eq!(resolve_fire(f, None), None);
}

#[test]
fn local_tick_fires_once_and_skips_rollback_ticks() {
    let storm = strings(&["blizzard", "chain_lightning"]);
    let mut e = CastEdge::new();
    assert_eq!(e.local_tick(false, true, 1, Some(&storm)), None);
    assert_eq!(e.local_tick(false, true, 0, Some(&storm)), None);
    // A rollback re-simulation neither fires nor advances the detector.
    let before = e;
    assert_eq!(e.local_tick(true, false, 0, Some(&storm)), None);
    assert_eq!(e, before);
    assert_eq!(
        e.local_tick(false, false, 0, Some(&storm)),
        Some(("chain_lightning".to_string(), charge_byte_from_hold_ticks(2)))
    );
    assert_eq!(e.local_tick(false, false, 0, Some(&storm)), None);
    // A slot the weapon lacks fires nothing.
    let wand = strings(&["firebolt"]);
    assert_eq!(e.local_tick(false, true, 1, Some(&wand)), None);
    assert_eq!(e.local_tick(false, false, 1, Some(&wand)), None);
}
