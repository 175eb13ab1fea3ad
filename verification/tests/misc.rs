use rimru::collections::{StringMap, StringSet};
use rimru::db::history::event::Event;
use rimru::db::history::event_type::EventType;
use rimru::db::mod_event::ModEvent;
use rimru::game::mods::issues::{join_strings, ModIssues};
use rimru::game::mods::meta::Source;
use rimru::game::mods::ModMeta;
use rimru::game::paths::{local_mods_dir, mod_about_file, mods_config_file, official_mods_dir};
use rimru::icon::IconName as FirstIconName;
use rimru::db::{data_dir_in, database_file, database_file_in};
use rimru::project::Project;
use rimru::settings::{config_dir_in, settings_file, settings_file_in, Settings};
use rimru::text::{decimal_string, eq_ignore_ascii_case, split_char, trim};
use rimru::ui::components::button::{ButtonSize, ButtonStyle, TintColor};
use rimru::ui::components::icon::IconName;
use rimru::ui::components::mod_list::{contains_str, count_label, filter_mods, smart_case, ModListType};

#[test]
fn text_helpers() {
    assert!(eq_ignore_ascii_case("ModMetaData", "modmetadata"));
    assert!(!eq_ignore_ascii_case("a", "ab"));
    assert_eq!(trim("  a b \n"), "a b");
    assert_eq!(split_char("a,b,,c", ','), vec!["a", "b", "", "c"]);
    assert_eq!(split_char("", ','), vec![""]);
    assert_eq!(decimal_string(0), "0");
    assert_eq!(decimal_string(1234567890), "1234567890");
    assert_eq!(decimal_string(u128::MAX), u128::MAX.to_string());
}

#[test]
fn string_set_and_map_keep_order() {
    let mut s = StringSet::new();
    assert!(s.insert("b".to_string()));
    assert!(s.insert("a".to_string()));
    assert!(!s.insert("b".to_string()));
    assert_eq!(s.as_slice(), &["a".to_string(), "b".to_string()]);
    assert_eq!(s.len(), 2);
    let mut m: StringMap<u32> = StringMap::new();
    m.insert("z".to_string(), 1);
    m.insert("y".to_string(), 2);
    m.insert("z".to_string(), 3);
    assert_eq!(m.keys(), &["y".to_string(), "z".to_string()]);
    assert_eq!(m.values(), &[2, 3]);
    assert_eq!(m.get("z"), Some(&3));
    assert!(m.contains_key("y") && !m.contains_key("x"));
}

#[test]
fn paths_join_names() {
    let sep = std::path::MAIN_SEPARATOR;
    assert_eq!(local_mods_dir("/game"), format!("/game{sep}Mods"));
    assert_eq!(official_mods_dir("/game/"), "/game/Data");
    assert_eq!(mods_config_file(""), "ModsConfig.xml");
    assert_eq!(mod_about_file("/m"), format!("/m{sep}About{sep}About.xml"));
}

#[test]
fn settings_defaults_and_setters() {
    let mut s = Settings::new("/game/".to_string(), "/steam".to_string(), "/config/".to_string());
    assert_eq!(s.official_mods_dir(), "/game/Data");
    assert_eq!(s.local_mods_dir(), "/game/Mods");
    assert_eq!(s.steam_mods_dir(), "/steam");
    assert_eq!(s.mods_config_file(), "/config/ModsConfig.xml");
    assert!(s.smart_search() && s.separate_search_bar() && s.advanced_search);
    s.set_smart_search(false);
    s.set_separate_search_bar(false);
    s.set_game_dir("/g".to_string());
    s.set_config_dir("/c/".to_string());
    s.set_official_mods_dir("/o".to_string());
    s.set_local_mods_dir("/l".to_string());
    s.set_steam_mods_dir("/w".to_string());
    assert_eq!(s.official_mods_dir(), "/o");
    assert_eq!(s.local_mods_dir(), "/l");
    assert_eq!(s.steam_mods_dir(), "/w");
    assert!(!s.smart_search() && !s.separate_search_bar());
    assert_eq!(s.game_dir(), "/g");
    assert_eq!(s.mods_config_file(), "/c/ModsConfig.xml");
    let loaded = Settings::load_or_default(None, "/x/".to_string(), "/s".to_string(), "/c".to_string());
    assert_eq!(loaded.local_mods_dir(), "/x/Mods");
    let kept = Settings::load_or_default(Some(s), "/x/".to_string(), "/s".to_string(), "/c".to_string());
    assert_eq!(kept.game_dir(), "/g");
}

#[test]
fn db_names() {
    assert_eq!(EventType::Install.as_str(), "install");
    assert_eq!(EventType::try_from_str("update").unwrap(), EventType::Update);
    assert_eq!(EventType::try_from_str("delete").unwrap_err(), "Unknown event type: delete");
    assert_eq!(ModEvent::parse_source("steam"), Source::Steam);
    assert_eq!(ModEvent::parse_source("whatever"), Source::Unknown);
    let e = ModEvent {
        event_id: 1,
        mod_id: "m".into(),
        source: Source::Official,
        steam_app_id: Some("42".into()),
        event_type: "install".into(),
        timestamp: "t".into(),
        version: None,
        path: "/p".into(),
        name: "n".into(),
        authors: None,
        created: None,
        modified: None,
    };
    assert_eq!(e.serialize_source(), "official");
    assert_eq!(e.serialize_steam_app_id(), Some("42"));
    let ev = Event::from_columns(
        3, "uninstall", "t".into(), "m".into(), "n".into(), None, None, None, "/p".into(), "bogus", None, None,
    )
    .unwrap();
    assert_eq!(ev.event_type, EventType::Uninstall);
    assert_eq!(ev.source, Source::Unknown);
    assert!(Event::from_columns(
        3, "x", "t".into(), "m".into(), "n".into(), None, None, None, "/p".into(), "local", None, None,
    )
    .is_err());
}

#[test]
fn issues_text() {
    let mut i = ModIssues::new("m".to_string());
    assert!(!i.has_issues());
    assert_eq!(i.to_text(), "");
    i.add_missing_dependency("a".to_string());
    i.add_missing_dependency("b".to_string());
    assert!(i.has_errors() && !i.has_warnings());
    i.add_load_order_violation("late".to_string());
    i.add_unsupported_game_version("1.0".to_string());
    assert!(i.has_issues() && i.has_warnings());
    assert_eq!(
        i.to_text(),
        "Unsupported game version: 1.0\n\nMissing dependencies:\n- a\n- b\n\nLoad order violations:\n- late"
    );
    assert_eq!(join_strings(&["x".to_string()], ", "), "x");
}

#[test]
fn first_reading_of_about() {
    let about = "<ModMetaData><packageId>a.b</packageId><name>N</name><name>2</name>\
        <authors><li>X</li><li>Y</li></authors><author>Z, W</author>\
        <description>d</description><loadAfter><li>q</li></loadAfter><modVersion>1</modVersion></ModMetaData>";
    let m = ModMeta::new("/mods/1234", Some(about.as_bytes())).unwrap();
    assert_eq!(m.id, "a.b");
    assert_eq!(m.name, "N2");
    assert_eq!(m.authors, vec!["X", "Y", "Z", "W"]);
    assert_eq!(m.description, "d");
    assert!(ModMeta::new("/x", None).is_none());
    let local = ModMeta::new_local("/x", Some(about.as_bytes())).unwrap();
    assert!(local.is_local() && !local.is_steam());
    let steam = ModMeta::new_steam("/mods/1234", Some(about.as_bytes())).unwrap();
    assert!(steam.is_steam());
    assert!(matches!(steam.source, rimru::game::mods::Source::Steam { ref id } if id == "1234"));
}

#[test]
fn first_reading_stops_at_errors() {
    let m = ModMeta::new("/x", Some(b"<ModMetaData><packageId>a</packageId><name>n</oops>")).unwrap();
    assert_eq!(m.id, "a");
    assert_eq!(m.name, "n");
}

#[test]
fn search_filters() {
    let mut a = rimru::game::mods::meta::ModMetaData::default();
    a.id = "author.Harmony".into();
    a.name = "Harmony".into();
    a.supported_versions = vec!["1.5".to_string()];
    let mut b = rimru::game::mods::meta::ModMetaData::default();
    b.id = "x.y".into();
    b.name = "Other".into();
    let mods = vec![a, b];
    assert_eq!(filter_mods(&mods, "", false, None), vec![0, 1]);
    assert_eq!(filter_mods(&mods, "harm", false, None), vec![0]);
    assert_eq!(filter_mods(&mods, "harm", true, None), Vec::<usize>::new());
    assert_eq!(filter_mods(&mods, "Harm", true, None), vec![0]);
    assert_eq!(filter_mods(&mods, "", false, Some("1.5")), vec![0]);
    assert!(contains_str("abc", "bc") && !contains_str("abc", "cd") && contains_str("abc", ""));
    assert!(smart_case("Abc", true, false));
    assert!(!smart_case("abc", true, true));
    assert!(smart_case("abc", false, true));
    assert!(!smart_case("", true, false));
}

#[test]
fn ui_names() {
    assert_eq!(ModListType::Active.label(), "Active");
    assert_eq!(ModListType::Inactive.label(), "Inactive");
    assert_eq!(IconName::Steam.path(), "icons/steam.png");
    assert_eq!(FirstIconName::Unknown.path(), "icons/square-x.svg");
    assert_eq!(Source::Steam.icon_name(), IconName::Steam);
    assert_eq!(ButtonSize::default(), ButtonSize::Default);
    assert_eq!(ButtonStyle::default(), ButtonStyle::Subtle);
    assert_eq!(TintColor::default(), TintColor::Accent);
}

#[test]
fn app_directories_join_the_platform_directories() {
    let sep = std::path::MAIN_SEPARATOR;
    assert_eq!(config_dir_in(None), None);
    assert_eq!(config_dir_in(Some("/home/u/.config".to_string())), Some(format!("/home/u/.config{sep}rimru")));
    assert_eq!(settings_file_in(None), None);
    assert_eq!(settings_file_in(Some("/c/rimru".to_string())), Some(format!("/c/rimru{sep}settings.toml")));
    assert_eq!(data_dir_in(None), None);
    assert_eq!(data_dir_in(Some("/d".to_string())), Some(format!("/d{sep}rimru")));
    assert_eq!(database_file_in(Some("/d/rimru".to_string())), Some(format!("/d/rimru{sep}rimru.sqlite3")));
    if let Some(file) = settings_file() {
        assert!(file.ends_with("settings.toml"));
    }
    if let Some(file) = database_file() {
        assert!(file.ends_with("rimru.sqlite3"));
    }
}

#[test]
fn project_empty_has_nothing() {
    let p = Project::empty();
    assert!(p.active_mods().is_empty());
    assert!(p.inactive_mods().is_empty());
    assert!(p.selected_mod().is_none());
}

#[test]
fn list_count_label() {
    assert_eq!(count_label(12, 12), "12");
    assert_eq!(count_label(0, 0), "0");
    assert_eq!(count_label(3, 120), "3 / 120");
}
