use arena_game::charge_tiers::{advance_charge_visual, target_tier, ChargeCueAction, ActiveChargeVisual};
use arena_game::cue::{end_cue_for_window, end_cue_retires, lifts_to_muzzle, window_id_for_cue, CueKind, EndReasonWire};
use arena_game::sockets::{resolve_socket, RigSockets, SocketParent};
use arena_game::rig::{casting_target_halves, clip_short_name, keep_mesh, resolve_node_name, KEEP_MESHES};
use arena_game::wheel::{skill_label, wheel_center_text, RadialWheel, MAX_SEGMENTS};

fn strings(v: &[&str]) -> Vec<String> {
    v.iter().map(|s| s.to_string()).collect()
}

#[test]
fn window_id_for_cue_strips_known_prefixes_only() {
    assert_eq!(window_id_for_cue("on_window_bolt"), Some("bolt"));
    assert_eq!(window_id_for_cue("emit_bolt"), Some("bolt"));
    assert_eq!(window_id_for_cue("on_hit"), None);
    assert_eq!(window_id_for_cue("on_cast"), None);
    assert_eq!(window_id_for_cue("on_end_bolt"), None);
}

#[test]
fn end_cue_names_round_trip_through_the_window_id() {
    let end = end_cue_for_window("bolt");
    assert_eq!(end, "on_end_bolt");
    assert_eq!(window_id_for_cue(&end), None);
    assert_eq!(window_id_for_cue("on_window_"), Some(""));
}

#[test]
fn end_cues_retire_only_their_own_projectiles() {
    assert!(end_cue_retires(CueKind::OnEnd, Some("on_end_bolt"), "on_end_bolt"));
    assert!(!end_cue_retires(CueKind::OnEnd, Some("on_end_bolt"), "on_end_spark"));
    assert!(!end_cue_retires(CueKind::OnEnd, None, "on_end_bolt"));
    assert!(!end_cue_retires(CueKind::OnHit, Some("on_end_bolt"), "on_end_bolt"));
}

#[test]
fn only_cast_cues_lift_to_the_muzzle() {
    assert!(lifts_to_muzzle(CueKind::OnCast));
    for k in [CueKind::OnWindow, CueKind::OnHit, CueKind::OnEnd, CueKind::OnEmit] {
        assert!(!lifts_to_muzzle(k));
    }
    assert_ne!(EndReasonWire::HitEntity, EndReasonWire::Fuse);
}

#[test]
fn skill_labels_prettify() {
    assert_eq!(skill_label("chain_lightning"), "Chain Lightning");
    assert_eq!(skill_label("firebolt"), "Firebolt");
}

#[test]
fn skill_labels_handle_edges() {
    assert_eq!(skill_label(""), "");
    assert_eq!(skill_label("a__b"), "A  B");
    assert_eq!(skill_label("frost_spire"), "Frost Spire");
    assert_eq!(skill_label("über_bolt"), "Über Bolt");
    assert_eq!(wheel_center_text("Storm Staff", "chain_lightning"), "Storm Staff · Chain Lightning");
}

#[test]
fn wheel_opens_over_at_most_eight_skills_and_confirms_the_pick() {
    let mut w = RadialWheel::new();
    assert!(!w.open_over(&Vec::new()));
    assert!(!w.open);
    let many = strings(&["a", "b", "c", "d", "e", "f", "g", "h", "i", "j"]);
    assert!(w.open_over(&many));
    assert_eq!(w.skills.len(), MAX_SEGMENTS);
    assert!(!w.open_over(&many));
    w.selected = Some(3);
    assert_eq!(w.confirm(), Some("d".to_string()));
    assert!(!w.open);
    assert_eq!(w.confirm(), None);
}

#[test]
fn wheel_confirm_without_a_pick_closes_with_nothing() {
    let mut w = RadialWheel::new();
    assert!(w.open_over(&strings(&["firebolt"])));
    assert_eq!(w.confirm(), None);
    assert!(!w.open);
}

#[test]
fn charge_tier_is_the_last_threshold_reached() {
    assert_eq!(target_tier(true, &vec![true, true, false]), Some(1));
    assert_eq!(target_tier(true, &vec![true, true, true]), Some(2));
    assert_eq!(target_tier(true, &vec![false, false]), None);
    assert_eq!(target_tier(true, &Vec::new()), None);
    assert_eq!(target_tier(false, &vec![true, true]), None);
}

#[test]
fn charge_visuals_start_stream_cross_and_drain() {
    let (v, a) = advance_charge_visual(None, "firebolt", None, 0);
    assert!(v.is_none());
    assert_eq!(a, ChargeCueAction::Idle);

    let (v, a) = advance_charge_visual(None, "firebolt", Some(0), 3);
    assert_eq!(a, ChargeCueAction::Start(0));
    let v = v.unwrap();
    assert_eq!((v.skill.as_str(), v.tier, v.applied_step), ("firebolt", 0, 3));

    let (v, a) = advance_charge_visual(Some(v), "firebolt", Some(0), 3);
    assert_eq!(a, ChargeCueAction::Hold);
    let (v, a) = advance_charge_visual(v, "firebolt", Some(0), 7);
    assert_eq!(a, ChargeCueAction::Stream(7));
    assert_eq!(v.as_ref().unwrap().applied_step, 7);

    let (v, a) = advance_charge_visual(v, "firebolt", Some(1), 20);
    assert_eq!(a, ChargeCueAction::Restart(1));
    let (v, a) = advance_charge_visual(v, "blizzard", Some(1), 20);
    assert_eq!(a, ChargeCueAction::Restart(1));
    assert_eq!(v.as_ref().unwrap().skill, "blizzard");

    let (v, a) = advance_charge_visual(v, "blizzard", None, 0);
    assert_eq!(a, ChargeCueAction::End);
    assert!(v.is_none());
    let (_, a) = advance_charge_visual(v, "blizzard", None, 0);
    assert_eq!(a, ChargeCueAction::Idle);
}

#[test]
fn a_visual_is_kept_as_given() {
    let v = ActiveChargeVisual { skill: "frost_spire".to_string(), tier: 2, applied_step: 5 };
    let (kept, a) = advance_charge_visual(Some(v), "frost_spire", Some(2), 5);
    assert_eq!(a, ChargeCueAction::Hold);
    assert_eq!(kept.unwrap().tier, 2);
}

#[test]
fn rig_node_names_skip_generated_primitives() {
    let ancestors = strings(&["Mesh.001", "F_Witch_Top", "Armature"]);
    assert_eq!(resolve_node_name(Some("F_hair_1"), &ancestors), "F_hair_1");
    assert_eq!(resolve_node_name(Some("Mesh.002"), &ancestors), "F_Witch_Top");
    assert_eq!(resolve_node_name(None, &ancestors), "F_Witch_Top");
    assert_eq!(resolve_node_name(Some("Mesh"), &strings(&["Mesh.9"])), "");
}

#[test]
fn only_the_kept_outfit_stays_visible() {
    for n in KEEP_MESHES {
        assert!(keep_mesh(n));
    }
    assert!(!keep_mesh("F_Knight_Top"));
    assert!(!keep_mesh("F_hair_2"));
    assert!(!keep_mesh(""));
}

#[test]
fn clip_names_drop_their_library_path() {
    assert_eq!(clip_short_name("witch::Idle"), "Idle");
    assert_eq!(clip_short_name("a::b::Run"), "Run");
    assert_eq!(clip_short_name("Walk"), "Walk");
    assert_eq!(clip_short_name("odd:name"), "odd:name");
    assert_eq!(clip_short_name("trailing::"), "");
}

#[test]
fn casting_blend_targets() {
    assert_eq!(casting_target_halves(0, true), 2);
    assert_eq!(casting_target_halves(1, false), 2);
    assert_eq!(casting_target_halves(2, false), 2);
    assert_eq!(casting_target_halves(3, false), 1);
    assert_eq!(casting_target_halves(0, false), 0);
    assert_eq!(casting_target_halves(9, false), 0);
}

#[test]
fn rig_sockets_keep_the_first_entity_per_name() {
    let mut s = RigSockets::new();
    assert_eq!(s.lookup("hand_r"), None);
    assert!(s.record("hand_r", 11));
    assert!(s.record("head", 12));
    assert!(!s.record("hand_r", 99));
    assert_eq!(s.lookup("hand_r"), Some(11));
    assert_eq!(s.lookup("head"), Some(12));
    assert_eq!(resolve_socket(1, Some(5), Some(&s), "hand_r"), SocketParent::Bone(11));
    assert_eq!(resolve_socket(1, Some(5), Some(&s), "tail"), SocketParent::RigRoot(5));
    assert_eq!(resolve_socket(1, Some(5), None, "hand_r"), SocketParent::RigRoot(5));
    assert_eq!(resolve_socket(1, None, Some(&s), "hand_r"), SocketParent::Player(1));
}
