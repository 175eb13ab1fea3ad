use rimru::game::mods::config::ModsConfigData;
use rimru::game::mods::meta::{ModDependency, ModMetaData, Source};
use rimru::project::load::official_mod_name;
use rimru::project::Project;

fn make_mod(id: &str, name: &str, source: Source) -> ModMetaData {
    let mut m = ModMetaData::default();
    m.id = id.to_string();
    m.name = name.to_string();
    m.source = source;
    m
}

fn config(active: &[&str]) -> ModsConfigData {
    let mut c = ModsConfigData::default();
    c.version = "1.5".to_string();
    c.active_mods = active.iter().map(|s| s.to_string()).collect();
    c
}

fn ids(mods: &[ModMetaData]) -> Vec<String> {
    mods.iter().map(|m| m.id.clone()).collect()
}

fn sample() -> Project {
    let core = make_mod("Ludeon.RimWorld", "", Source::Official);
    let royalty = make_mod("Ludeon.RimWorld.Royalty", "", Source::Official);
    let mut cool = make_mod("Author.Cool", "Cool", Source::Local);
    cool.dependencies.insert("brrainz.harmony".to_string(), ModDependency::default());
    let harmony = make_mod("brrainz.harmony", "Harmony", Source::Steam);
    let steam_cool = make_mod("Author.Cool", "Cool (Steam)", Source::Steam);
    Project::new(
        Some(config(&["brrainz.harmony", "ludeon.rimworld", "author.cool"])),
        vec![core, royalty],
        vec![cool],
        vec![harmony, steam_cool],
    )
}

#[test]
fn project_names_official_mods_and_renames_steam_copies() {
    let p = sample();
    let all: Vec<(String, String)> =
        p.active_mods().iter().chain(p.inactive_mods().iter()).map(|m| (m.id.clone(), m.name.clone())).collect();
    assert!(all.contains(&("Ludeon.RimWorld".to_string(), "Core".to_string())));
    assert!(all.contains(&("Ludeon.RimWorld.Royalty".to_string(), "Royalty".to_string())));
    assert!(all.contains(&("Author.Cool_steam".to_string(), "Cool (Steam)".to_string())));
    assert_eq!(official_mod_name("ludeon.rimworld"), "Core");
    assert_eq!(official_mod_name("Ludeon.RimWorld.Ideology"), "Ideology");
    assert_eq!(official_mod_name("single"), "single");
}

#[test]
fn project_lists_follow_the_active_ids() {
    let p = sample();
    assert_eq!(ids(&p.active_mods()), vec!["brrainz.harmony", "Ludeon.RimWorld", "Author.Cool"]);
    // inactive mods keep the order of the installed list: by name, then id
    assert_eq!(ids(&p.inactive_mods()), vec!["Author.Cool_steam", "Ludeon.RimWorld.Royalty"]);
    assert_eq!(p.selected_mod().unwrap().id, "Author.Cool");
    assert!(!p.is_settings_open());
}

#[test]
fn project_issues_report_dependencies_loaded_too_late() {
    let p = sample();
    assert!(p.issues_for_mod("brrainz.harmony").is_none());
    // harmony loads first: no issue for the cool mod
    assert!(p.issues_for_mod("Author.Cool").is_none());

    let mut p = sample();
    p.move_active_mod("brrainz.harmony", "author.cool").unwrap();
    assert_eq!(ids(&p.active_mods()), vec!["Ludeon.RimWorld", "Author.Cool", "brrainz.harmony"]);
    p.update_mod_issues();
    let issue = p.issues_for_mod("AUTHOR.COOL").unwrap();
    assert_eq!(issue.mod_id, "author.cool");
    assert_eq!(issue.dependencies_after, vec!["brrainz.harmony".to_string()]);
    assert!(issue.missing_dependencies.is_empty());
}

#[test]
fn project_missing_dependency() {
    let mut p = sample();
    let harmony = make_mod("brrainz.harmony", "Harmony", Source::Steam);
    p.toggle_mod(&harmony);
    assert_eq!(ids(&p.active_mods()), vec!["Ludeon.RimWorld", "Author.Cool"]);
    let issue = p.issues_for_mod("author.cool").unwrap();
    assert_eq!(issue.missing_dependencies, vec!["brrainz.harmony".to_string()]);
    let both = p.issues_for_mods(&["author.cool".to_string(), "nope".to_string()]);
    assert!(both[0].is_some() && both[1].is_none());
    // activating again appends the lower-case id
    p.toggle_mod(&harmony);
    assert_eq!(ids(&p.active_mods()), vec!["Ludeon.RimWorld", "Author.Cool", "brrainz.harmony"]);
}

#[test]
fn project_move_errors() {
    let mut p = sample();
    assert_eq!(p.move_active_mod("nope", "author.cool").unwrap_err(), "dragged mod is not active {source}");
    assert_eq!(p.move_active_mod("author.cool", "nope").unwrap_err(), "target mod is not active {target}");
    assert!(p.move_active_mod("x", "x").is_ok());
    p.move_active_mod("author.cool", "brrainz.harmony").unwrap();
    assert_eq!(ids(&p.active_mods()), vec!["Author.Cool", "brrainz.harmony", "Ludeon.RimWorld"]);
}

#[test]
fn project_clear_and_sort() {
    let mut p = sample();
    p.clear_active_mods();
    assert!(p.active_mods().is_empty());
    assert_eq!(p.inactive_mods().len(), 5);
    assert!(p.mod_issues().is_empty());

    let mut p = sample();
    p.sort_active_mods();
    // fewer dependencies first
    let active = ids(&p.active_mods());
    assert_eq!(active.last().unwrap(), "Author.Cool");
    assert_eq!(active.len(), 3);
}

#[test]
fn project_reports_load_cycles() {
    let mut a = make_mod("a.a", "A", Source::Local);
    let mut b = make_mod("b.b", "B", Source::Local);
    let c = make_mod("c.c", "C", Source::Local);
    a.load_after.insert("b.b".to_string());
    b.force_load_after.insert("A.A".to_string());
    let p = Project::new(Some(config(&["a.a", "b.b", "c.c"])), vec![], vec![a, b, c], vec![]);
    let issue_a = p.issues_for_mod("a.a").unwrap();
    assert_eq!(
        issue_a.load_order_violations,
        vec!["Cycle detected in mod load order involving this mod".to_string()]
    );
    assert!(p.issues_for_mod("b.b").is_some());
    assert!(p.issues_for_mod("c.c").is_none());
}

#[test]
fn project_reports_load_order_violations() {
    let mut a = make_mod("a.a", "A", Source::Local);
    let b = make_mod("b.b", "B", Source::Local);
    a.load_after.insert("b.b".to_string());
    let p = Project::new(Some(config(&["a.a", "b.b"])), vec![], vec![a, b], vec![]);
    let issue = p.issues_for_mod("a.a").unwrap();
    assert_eq!(
        issue.load_order_violations,
        vec!["Should load after 'b.b', but 'a.a' comes after 'b.b'".to_string()]
    );
}

#[test]
fn project_settings_toggle_and_config_save() {
    let mut p = sample();
    p.toggle_settings();
    assert!(p.is_settings_open());
    p.toggle_settings();
    assert!(!p.is_settings_open());
    let bytes = p.save_mods_config().unwrap().unwrap();
    let back = ModsConfigData::load("x", &bytes).unwrap();
    assert_eq!(back.active_mods, vec!["brrainz.harmony", "ludeon.rimworld", "author.cool"]);
    let mut empty = Project::new(None, vec![], vec![], vec![]);
    assert!(empty.save_mods_config().is_none());
    assert!(empty.active_mods().is_empty());
}

#[test]
fn project_toggling_an_inactive_mod_twice_changes_nothing() {
    let mut p = sample();
    let royalty = p.inactive_mods().into_iter().find(|m| m.id == "Ludeon.RimWorld.Royalty").unwrap();
    let before = ids(&p.active_mods());
    p.toggle_mod(&royalty);
    assert!(ids(&p.active_mods()).contains(&"Ludeon.RimWorld.Royalty".to_string()));
    p.toggle_mod(&royalty);
    assert_eq!(ids(&p.active_mods()), before);
}

#[test]
fn project_every_mod_is_in_one_list() {
    let p = sample();
    let mut all = ids(&p.active_mods());
    all.extend(ids(&p.inactive_mods()));
    all.sort();
    let mut expected = vec!["Author.Cool", "Author.Cool_steam", "Ludeon.RimWorld", "Ludeon.RimWorld.Royalty", "brrainz.harmony"];
    expected.sort();
    assert_eq!(all, expected);
}

#[test]
fn project_issues_belong_to_active_mods() {
    let mut a = make_mod("a.a", "A", Source::Local);
    a.dependencies.insert("missing.mod".to_string(), ModDependency::default());
    let b = make_mod("b.b", "B", Source::Local);
    let p = Project::new(Some(config(&["A.A"])), vec![], vec![a, b], vec![]);
    assert_eq!(p.mod_issues().keys(), &["a.a".to_string()]);
    assert!(p.issues_for_mod("b.b").is_none());
}

#[test]
fn project_moving_keeps_the_active_mods() {
    let mut p = sample();
    let mut before = ids(&p.active_mods());
    p.move_active_mod("ludeon.rimworld", "brrainz.harmony").unwrap();
    let mut after = ids(&p.active_mods());
    assert_eq!(after, vec!["Ludeon.RimWorld", "brrainz.harmony", "Author.Cool"]);
    before.sort();
    after.sort();
    assert_eq!(before, after);
}

#[test]
fn project_duplicate_active_ids_clear_issues() {
    let a = make_mod("a.a", "A", Source::Local);
    let p = Project::new(Some(config(&["a.a", "A.A"])), vec![], vec![a], vec![]);
    // an id active twice is reported as a cycle check failure with no mod in a cycle
    assert!(p.mod_issues().is_empty());
    assert_eq!(ids(&p.active_mods()), vec!["a.a"]);
}

#[test]
fn project_select_mod_changes_only_the_selection() {
    let mut p = sample();
    let harmony = p.active_mods().remove(0);
    let before_active = ids(&p.active_mods());
    p.select_mod(&harmony);
    assert_eq!(p.selected_mod().unwrap().id, "brrainz.harmony");
    assert_eq!(ids(&p.active_mods()), before_active);
}

#[test]
fn project_load_keeps_the_order_of_equal_mods() {
    let mut first = make_mod("same.id", "Same", Source::Local);
    first.description = "first".to_string();
    let mut second = make_mod("same.id", "Same", Source::Local);
    second.description = "second".to_string();
    let zed = make_mod("a.zed", "Zed", Source::Local);
    let p = Project::new(None, vec![], vec![zed, first, second], vec![]);
    let all = p.inactive_mods();
    let descriptions: Vec<String> = all.iter().map(|m| m.description.clone()).collect();
    assert_eq!(descriptions, vec!["first".to_string(), "second".to_string(), "".to_string()]);
    assert_eq!(p.selected_mod().unwrap().description, "first");
}
