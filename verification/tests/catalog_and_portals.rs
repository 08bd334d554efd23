use arena_game::order::{sort_ids, str_lt};
use arena_game::portals::{collect_pairs, portal_kind_of, PortalKind, PortalPair, KIND_PORTAL_BLUE, KIND_PORTAL_ORANGE};
use arena_game::timelines::{split_loaded, timeline_path};
use arena_game::weapons::{WeaponCatalog, WeaponDef};

fn strings(v: &[&str]) -> Vec<String> {
    v.iter().map(|s| s.to_string()).collect()
}

fn weapon(id: &str, name: &str, skills: &[&str], tags: &[&str]) -> WeaponDef {
    WeaponDef { id: id.to_string(), name: name.to_string(), skills: strings(skills), tags: strings(tags) }
}

fn obj(owner: u64, kind: &str) -> (u64, String) {
    (owner, kind.to_string())
}

#[test]
fn pairs_are_per_owner_and_complete_only() {
    let o = KIND_PORTAL_ORANGE;
    let b = KIND_PORTAL_BLUE;
    // Entry 1 is owner 1's blue end (placed 5 m away); owner 2's blue end is missing.
    let pairs = collect_pairs(&vec![obj(1, o), obj(1, b), obj(2, o)]);
    assert_eq!(pairs.len(), 1);
    assert_eq!(pairs[0], PortalPair { owner: 1, orange: 0, blue: 1 });
}

#[test]
fn pairs_take_the_latest_end_sort_by_owner_and_skip_other_kinds() {
    let o = KIND_PORTAL_ORANGE;
    let b = KIND_PORTAL_BLUE;
    let pairs = collect_pairs(&vec![
        obj(9, b),
        obj(3, o),
        obj(9, o),
        obj(3, "frost_spire"),
        obj(3, b),
        obj(9, o),
        obj(5, o),
        obj(5, "glacier_ball"),
    ]);
    assert_eq!(
        pairs,
        vec![PortalPair { owner: 3, orange: 1, blue: 4 }, PortalPair { owner: 9, orange: 5, blue: 0 }]
    );
    assert!(collect_pairs(&Vec::new()).is_empty());
    assert!(collect_pairs(&vec![obj(1, "frost_spire"), obj(1, "portal_green")]).is_empty());
    assert_eq!(portal_kind_of("portal_green"), None);
    assert_eq!(portal_kind_of("portal_orange"), Some(PortalKind::Orange));
}

#[test]
fn catalog_is_ordered_by_id_and_finds_the_starter() {
    let catalog = WeaponCatalog::from_generated(vec![
        weapon("storm_staff", "Storm Staff", &["blizzard", "chain_lightning"], &[]),
        weapon("ember_wand", "Ember Wand", &["firebolt"], &["starter"]),
        weapon("potted_spring", "Potted Spring", &["rolling_glacier", "frost_spire"], &[]),
        weapon("needle_and_thread", "Needle and Thread", &["portal_orange", "portal_blue"], &[]),
    ]);
    assert_eq!(
        catalog.weapon_ids(),
        strings(&["ember_wand", "needle_and_thread", "potted_spring", "storm_staff"])
    );
    let storm = catalog.get("storm_staff").expect("storm staff");
    assert_eq!(storm.skills, strings(&["blizzard", "chain_lightning"]));
    assert_eq!(catalog.default_weapon().map(|w| w.id.as_str()), Some("ember_wand"));
    assert_eq!(catalog.get("ember_wand").map(|w| w.name.as_str()), Some("Ember Wand"));
    assert!(catalog.get("nope").is_none());
    assert_eq!(catalog.display_name("ember_wand"), "Ember Wand");
    assert_eq!(catalog.display_name("mystery"), "mystery");
}

#[test]
fn catalog_without_a_starter_defaults_to_the_first() {
    let catalog = WeaponCatalog::from_generated(vec![
        weapon("zeta", "Zeta", &[], &[]),
        weapon("alpha", "Alpha", &[], &["rare"]),
    ]);
    assert_eq!(catalog.default_weapon().map(|w| w.id.as_str()), Some("alpha"));
}

#[test]
fn empty_catalog_has_no_weapons() {
    let catalog = WeaponCatalog::empty();
    assert!(catalog.weapons.is_empty());
    assert!(catalog.default_weapon().is_none());
    assert!(catalog.get("ember_wand").is_none());
}

#[test]
fn ids_sort_by_code_point() {
    assert_eq!(sort_ids(strings(&["b", "a", "B", "ab", ""])), strings(&["", "B", "a", "ab", "b"]));
    assert!(str_lt("a", "b"));
    assert!(str_lt("a", "ab"));
    assert!(!str_lt("ab", "ab"));
    assert!(!str_lt("b", "a"));
}

#[test]
fn timeline_assets_and_loading_split() {
    assert_eq!(timeline_path("firebolt"), "skills/firebolt.cast.ron");
    let (pending, loaded) = split_loaded(vec!["a", "b", "c", "d"], &vec![true, false, false, true]);
    assert_eq!(pending, vec!["b", "c"]);
    assert_eq!(loaded, vec!["a", "d"]);
}
