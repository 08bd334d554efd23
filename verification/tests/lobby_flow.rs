use arena_game::args::{parse_u16, parse_u64, parse_u8, resolve_addr_args, ArgIssue};
use arena_game::gates::{cast_hold_step, cursor_grab_step, selection_ui_open, windowed_move_intent, HoldStep, MoveIntent, MoveKeys};
use arena_game::harness::{debug_key_action, debug_ui_probe, DebugKeyAction, DebugUiKey, ShotState, ShotStep, SmokeExit, SHOT_FLUSH_FRAMES};
use arena_game::lobby::{
    autocast_skill_for_pulse, decimal_string, once_per_lobby, round_banner, score_line, split_commas, ClientLevel,
    RoundLevelInfo, PHASE_ACTIVE, PHASE_COUNTDOWN, PHASE_LOBBY, PHASE_MATCH_OVER, PHASE_ROUND_OVER,
};
use arena_game::panel::{is_lobby_host, level_panel_step, weapon_panel_step, ListPanel, PanelAction, PanelKeys};

fn strings(v: &[&str]) -> Vec<String> {
    v.iter().map(|s| s.to_string()).collect()
}

fn keys() -> PanelKeys {
    PanelKeys { toggle: false, escape: false, down: false, up: false, enter: false }
}

#[test]
fn level_panel_opens_for_the_host_and_confirms_the_highlight() {
    let levels = strings(&["arena", "bridge", "crypt"]);
    let mut p = ListPanel::new();
    let a = level_panel_step(&mut p, PanelKeys { toggle: true, ..keys() }, 0, 7, 7, &levels);
    assert_eq!(a, PanelAction::Opened);
    assert_eq!(p.highlighted, 0);
    level_panel_step(&mut p, PanelKeys { down: true, ..keys() }, 0, 7, 7, &levels);
    level_panel_step(&mut p, PanelKeys { down: true, ..keys() }, 0, 7, 7, &levels);
    level_panel_step(&mut p, PanelKeys { down: true, ..keys() }, 0, 7, 7, &levels);
    assert_eq!(p.highlighted, 0, "the highlight wraps");
    level_panel_step(&mut p, PanelKeys { up: true, ..keys() }, 0, 7, 7, &levels);
    assert_eq!(p.highlighted, 2);
    let a = level_panel_step(&mut p, PanelKeys { enter: true, ..keys() }, 0, 7, 7, &levels);
    assert_eq!(a, PanelAction::Confirmed("crypt".to_string()));
    assert!(!p.open);
}

#[test]
fn level_panel_refuses_non_hosts_and_force_closes() {
    let levels = strings(&["arena"]);
    let mut p = ListPanel::new();
    assert_ne!(level_panel_step(&mut p, PanelKeys { toggle: true, ..keys() }, 0, 7, 8, &levels), PanelAction::Opened);
    assert!(!p.open);
    assert_eq!(level_panel_step(&mut p, PanelKeys { toggle: true, ..keys() }, 0, 7, 7, &levels), PanelAction::Opened);
    // The countdown started: the panel closes on its own.
    assert_eq!(level_panel_step(&mut p, keys(), 1, 7, 7, &levels), PanelAction::Closed);
    assert!(!p.open);
    assert!(is_lobby_host(0, 7, 7));
    assert!(!is_lobby_host(0, 0, 0));
    assert!(!is_lobby_host(2, 7, 7));
}

#[test]
fn level_panel_reports_an_empty_list() {
    let mut p = ListPanel::new();
    assert_eq!(level_panel_step(&mut p, PanelKeys { toggle: true, ..keys() }, 0, 7, 7, &Vec::new()), PanelAction::NoChoices);
    assert!(!p.open);
}

#[test]
fn weapon_panel_opens_on_the_equipped_weapon() {
    let ids = strings(&["ember_wand", "needle_and_thread", "potted_spring", "storm_staff"]);
    let mut p = ListPanel::new();
    let a = weapon_panel_step(&mut p, PanelKeys { toggle: true, ..keys() }, 0, &ids, Some("potted_spring"));
    assert_eq!(a, PanelAction::Opened);
    assert_eq!(p.highlighted, 2);
    let a = weapon_panel_step(&mut p, PanelKeys { escape: true, ..keys() }, 0, &ids, Some("potted_spring"));
    assert_eq!(a, PanelAction::Closed);
    weapon_panel_step(&mut p, PanelKeys { toggle: true, ..keys() }, 0, &ids, Some("lost"));
    assert_eq!(p.highlighted, 0);
    let a = weapon_panel_step(&mut p, PanelKeys { toggle: true, ..keys() }, 0, &ids, None);
    assert_eq!(a, PanelAction::Closed);
    assert_eq!(weapon_panel_step(&mut p, PanelKeys { toggle: true, ..keys() }, 2, &ids, None), PanelAction::Nothing);
    assert!(!p.open);
}

#[test]
fn lobby_requests_once_per_visit() {
    // Not yet sent, ready in the lobby: send.
    assert_eq!(once_per_lobby(PHASE_LOBBY, false, true), (true, true));
    // Already sent: stay quiet.
    assert_eq!(once_per_lobby(PHASE_LOBBY, true, true), (false, true));
    // Leaving the lobby re-arms it.
    assert_eq!(once_per_lobby(PHASE_ACTIVE, true, true), (false, false));
    assert_eq!(once_per_lobby(PHASE_LOBBY, false, false), (false, false));
}

#[test]
fn client_level_follows_the_latest_differing_level() {
    let mut c = ClientLevel::new();
    let msgs = vec![
        RoundLevelInfo { phase: 0, host: 3, level: "arena".to_string() },
        RoundLevelInfo { phase: 1, host: 3, level: "".to_string() },
        RoundLevelInfo { phase: 1, host: 4, level: "bridge".to_string() },
    ];
    assert_eq!(c.absorb(&msgs), Some("bridge".to_string()));
    assert_eq!((c.phase, c.host), (1, 4));
    c.current = Some("bridge".to_string());
    let same = vec![RoundLevelInfo { phase: 2, host: 4, level: "bridge".to_string() }];
    assert_eq!(c.absorb(&same), None);
    assert_eq!(c.phase, 2);
    assert_eq!(c.absorb(&Vec::new()), None);
    assert_eq!(c.phase, 2);
}

#[test]
fn round_banners_per_phase() {
    let score = score_line("p1", 2, "p2", 10);
    assert_eq!(score, "p1:2  p2:10");
    assert_eq!(round_banner(PHASE_LOBBY, 0, &score, ""), "waiting for players…");
    assert_eq!(round_banner(PHASE_COUNTDOWN, 3, &score, ""), "round starting in 3…   p1:2  p2:10");
    assert_eq!(round_banner(PHASE_ACTIVE, 0, &score, ""), "FIGHT!   p1:2  p2:10");
    assert_eq!(round_banner(PHASE_ROUND_OVER, 0, &score, "p2"), "round won by p2   p1:2  p2:10");
    assert_eq!(round_banner(PHASE_MATCH_OVER, 0, &score, "p2"), "MATCH OVER — p2 wins!   p1:2  p2:10");
    assert_eq!(round_banner(9, 0, &score, ""), "p1:2  p2:10");
    assert_eq!(decimal_string(0), "0");
    assert_eq!(decimal_string(u64::MAX), u64::MAX.to_string());
}

#[test]
fn autocast_lists_rotate_over_nonempty_entries() {
    assert_eq!(split_commas(",firebolt,,blizzard,"), strings(&["firebolt", "blizzard"]));
    assert_eq!(autocast_skill_for_pulse("firebolt,blizzard", 0), Some("firebolt".to_string()));
    assert_eq!(autocast_skill_for_pulse("firebolt,blizzard", 3), Some("blizzard".to_string()));
    assert_eq!(autocast_skill_for_pulse(",,", 1), None);
    assert_eq!(autocast_skill_for_pulse("", 0), None);
}

#[test]
fn address_flags_resolve_with_defaults_and_issues() {
    let args = strings(&["arena", "--ip", "10.0.0.2", "--port", "7000"]);
    let ok = vec![false, false, true, false, false];
    let r = resolve_addr_args(&args, &ok, 5000);
    assert_eq!(r.ip_arg, Some(2));
    assert_eq!(r.port, 7000);
    assert!(r.issues.is_empty());

    let r = resolve_addr_args(&strings(&["arena"]), &vec![false], 5000);
    assert_eq!((r.ip_arg, r.port), (None, 5000));

    let args = strings(&["arena", "--ip", "nope", "--port", "99999", "--port", "12", "--ip"]);
    let ok = vec![false; args.len()];
    let r = resolve_addr_args(&args, &ok, 5000);
    assert_eq!(r.ip_arg, None);
    assert_eq!(r.port, 12);
    assert_eq!(
        r.issues,
        vec![
            ArgIssue::BadIp { arg: 2, kept_ip: None },
            ArgIssue::BadPort { arg: 4, kept_port: 5000 },
            ArgIssue::MissingIp,
        ]
    );
    let r = resolve_addr_args(&strings(&["arena", "--port"]), &vec![false, false], 5000);
    assert_eq!(r.issues, vec![ArgIssue::MissingPort]);
}

#[test]
fn decimal_parsing_is_strict() {
    assert_eq!(parse_u16("65535"), Some(65535));
    assert_eq!(parse_u16("65536"), None);
    assert_eq!(parse_u16(""), None);
    assert_eq!(parse_u16("+5"), Some(5));
    assert_eq!(parse_u16("-5"), None);
    assert_eq!(parse_u16("5 "), None);
    assert_eq!(parse_u8("0255"), Some(255));
    assert_eq!(parse_u8("256"), None);
    assert_eq!(parse_u64("18446744073709551615"), Some(u64::MAX));
    assert_eq!(parse_u64("18446744073709551616"), None);
}

#[test]
fn selection_screens_gate_movement_and_charge() {
    assert!(!selection_ui_open(false, false, false, false));
    assert!(selection_ui_open(false, false, false, true));
    let k = MoveKeys { forward: true, back: false, left: true, right: false, jump: true };
    assert_eq!(windowed_move_intent(false, true, k), MoveIntent { strafe: -1, forward: 1, jump: true, steer: true });
    assert_eq!(windowed_move_intent(true, true, k), MoveIntent { strafe: 0, forward: 0, jump: false, steer: false });
    assert_eq!(windowed_move_intent(false, false, k), MoveIntent { strafe: 0, forward: 0, jump: false, steer: false });
    let all = MoveKeys { forward: true, back: true, left: true, right: true, jump: false };
    assert_eq!(windowed_move_intent(false, true, all), MoveIntent { strafe: 0, forward: 0, jump: false, steer: true });

    assert_eq!(cast_hold_step(true, true, true, true, false), HoldStep::Reset);
    assert_eq!(cast_hold_step(false, true, true, false, false), HoldStep::Charge { latch_tap: true });
    assert_eq!(cast_hold_step(false, true, false, true, false), HoldStep::Charge { latch_tap: false });
    assert_eq!(cast_hold_step(false, false, false, true, true), HoldStep::Leave);
    assert_eq!(cast_hold_step(false, false, false, true, false), HoldStep::Reset);
}

#[test]
fn cursor_grab_toggles() {
    assert_eq!(cursor_grab_step(false, true, true, false), Some(false));
    assert_eq!(cursor_grab_step(false, true, false, true), None);
    assert_eq!(cursor_grab_step(false, false, false, true), Some(true));
    assert_eq!(cursor_grab_step(false, false, true, false), None);
    assert_eq!(cursor_grab_step(true, true, true, true), None);
}

#[test]
fn smoke_and_screenshot_runs_count_frames() {
    let mut s = SmokeExit { target: 3, count: 0 };
    assert!(!s.tick());
    assert!(!s.tick());
    assert!(s.tick());

    let mut shot = ShotState::new(2);
    assert_eq!(shot.tick(), ShotStep { capture: false, exit: false });
    assert_eq!(shot.tick(), ShotStep { capture: true, exit: false });
    let mut captures = 1;
    let mut exited_at = 0;
    for frame in 3..40u64 {
        let st = shot.tick();
        if st.capture {
            captures += 1;
        }
        if st.exit && exited_at == 0 {
            exited_at = frame;
        }
    }
    assert_eq!(captures, 1);
    assert_eq!(exited_at, 2 + SHOT_FLUSH_FRAMES);
}

#[test]
fn address_flags_keep_the_defaults_without_valid_values() {
    let r = resolve_addr_args(&strings(&["arena_client"]), &vec![false], 5000);
    assert_eq!((r.ip_arg, r.port), (None, 5000));
    let r = resolve_addr_args(&strings(&["arena_client", "--port"]), &vec![false, false], 5000);
    assert_eq!((r.ip_arg, r.port), (None, 5000));
    let r = resolve_addr_args(&strings(&["arena_client", "--port", "6000"]), &vec![false, false, false], 5000);
    assert_eq!((r.ip_arg, r.port), (None, 6000));
    let r = resolve_addr_args(&strings(&["arena_client", "--ip", "x", "--port", "x"]), &vec![false; 5], 5000);
    assert_eq!((r.ip_arg, r.port), (None, 5000));
}

#[test]
fn panels_toggle_escape_and_navigate() {
    let ids = strings(&["a", "b", "c"]);
    let mut p = ListPanel::new();
    // A closed panel ignores every key but the toggle.
    let a = weapon_panel_step(&mut p, PanelKeys { toggle: false, escape: true, down: true, up: true, enter: true }, 0, &ids, None);
    assert_eq!(a, PanelAction::Nothing);
    assert!(!p.open);
    assert_eq!(weapon_panel_step(&mut p, PanelKeys { toggle: true, ..keys() }, 0, &ids, Some("c")), PanelAction::Opened);
    assert_eq!(p.highlighted, 2);
    // Down wraps to the first row, Enter confirms the moved highlight.
    let a = weapon_panel_step(&mut p, PanelKeys { down: true, enter: true, ..keys() }, 0, &ids, Some("c"));
    assert_eq!(a, PanelAction::Confirmed("a".to_string()));
    assert!(!p.open);
    weapon_panel_step(&mut p, PanelKeys { toggle: true, ..keys() }, 0, &ids, None);
    // Down then Up in one frame leaves the highlight where it was.
    weapon_panel_step(&mut p, PanelKeys { down: true, up: true, ..keys() }, 0, &ids, None);
    assert_eq!(p.highlighted, 0);
    assert!(p.open);
    assert_eq!(weapon_panel_step(&mut p, PanelKeys { toggle: true, ..keys() }, 0, &ids, None), PanelAction::Closed);
    assert_eq!(weapon_panel_step(&mut p, PanelKeys { toggle: true, ..keys() }, 0, &Vec::new(), None), PanelAction::NoChoices);
    assert!(!p.open);
}

#[test]
fn ui_probe_presses_on_frame_150() {
    assert_eq!(debug_ui_probe("wheel"), Some((DebugUiKey::Wheel, true)));
    assert_eq!(debug_ui_probe("weapons"), Some((DebugUiKey::WeaponPanel, false)));
    assert_eq!(debug_ui_probe("hud"), None);
    let tap: Vec<(u64, DebugKeyAction)> = (1..=200u64)
        .map(|f| (f, debug_key_action(f, false)))
        .filter(|(_, a)| *a != DebugKeyAction::Nothing)
        .collect();
    assert_eq!(tap, vec![(150, DebugKeyAction::Press), (152, DebugKeyAction::Release)]);
    assert_eq!(debug_key_action(149, true), DebugKeyAction::Nothing);
    assert_eq!(debug_key_action(150, true), DebugKeyAction::Press);
    assert_eq!(debug_key_action(152, true), DebugKeyAction::Press);
}
