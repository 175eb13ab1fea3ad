use rimru::game::mods::meta::source::{Source, OFFICIAL_SOURCE};
use rimru::game::mods::meta::ModMetaData;

const ABOUT: &str = r#"<?xml version="1.0" encoding="utf-8"?>
<ModMetaData>
  <packageId>Author.CoolMod</packageId>
  <name>Cool Mod</name>
  <author>Alice, Bob ,Carol</author>
  <description>Does <b>cool</b> things</description>
  <supportedVersions><li>1.4</li><li>1.5</li></supportedVersions>
  <modDependencies>
    <li>
      <packageId>brrainz.harmony</packageId>
      <displayName>Harmony</displayName>
      <steamWorkshopUrl>steam://url</steamWorkshopUrl>
    </li>
    <li>
      <packageId>Ludeon.RimWorld.Royalty</packageId>
      <name>Royalty</name>
    </li>
  </modDependencies>
  <loadAfter><li>brrainz.harmony</li><li>Ludeon.RimWorld</li></loadAfter>
  <loadBefore><li>other.mod</li></loadBefore>
  <forceLoadAfter><li>forced.after</li></forceLoadAfter>
  <forceLoadBefore><li>forced.before</li></forceLoadBefore>
  <unknownThing><nested>x</nested></unknownThing>
</ModMetaData>
"#;

#[test]
fn meta_reads_about_file() {
    let m = ModMetaData::new("/mods/CoolMod", ABOUT.as_bytes(), Some(5), Some(7)).unwrap();
    assert_eq!(m.id, "Author.CoolMod");
    assert_eq!(m.name, "Cool Mod");
    assert_eq!(m.authors, vec!["Alice".to_string(), "Bob".to_string(), "Carol".to_string()]);
    assert_eq!(m.description, "Does  things");
    assert_eq!(m.path, "/mods/CoolMod");
    assert_eq!(m.created, Some(5));
    assert_eq!(m.modified, Some(7));
    assert_eq!(m.source, Source::Unknown);
    assert!(m.depends_on("brrainz.harmony"));
    assert!(m.depends_on("Ludeon.RimWorld.Royalty"));
    assert!(!m.depends_on("other.mod"));
    assert_eq!(m.dependencies.get("brrainz.harmony").unwrap().name, "Harmony");
    assert_eq!(m.dependencies.get("Ludeon.RimWorld.Royalty").unwrap().name, "Royalty");
    assert!(m.load_after("Ludeon.RimWorld"));
    assert!(m.load_before("other.mod"));
    assert!(m.force_load_after("forced.after"));
    assert!(m.force_load_before("forced.before"));
    assert!(!m.load_after("other.mod"));
    assert!(m.steam_app_id.is_none());
    assert!(m.supported_versions.is_empty());
}

#[test]
fn meta_authors_list_replaces_author() {
    let about = "<ModMetaData><author>A</author><authors><li>B</li><li>C</li></authors><author>D, E</author></ModMetaData>";
    let m = ModMetaData::new("/m", about.as_bytes(), None, None).unwrap();
    assert_eq!(m.authors, vec!["B".to_string(), "C".to_string(), "D".to_string(), "E".to_string()]);
}

#[test]
fn meta_error_names_the_file() {
    let about = "<ModMetaData><name>x</ModMetaData>";
    let err = ModMetaData::new("/mods/Broken", about.as_bytes(), None, None).unwrap_err();
    assert!(err.starts_with("error parsing name from \"/mods/Broken\": "), "{err}");
}

#[test]
fn meta_root_error() {
    let err = ModMetaData::new("/m", b"<ModMetaData", None, None).unwrap_err();
    assert!(err.starts_with("error parsing "), "{err}");
}

#[test]
fn meta_sources() {
    let about = "<ModMetaData><packageId>p</packageId><steamAppId>999</steamAppId></ModMetaData>";
    let o = ModMetaData::new_official("/d/Core", about.as_bytes(), None, None).unwrap();
    assert!(o.is_official() && !o.is_local() && !o.is_steam());
    let l = ModMetaData::new_local("/d/Local", about.as_bytes(), None, None).unwrap();
    assert!(l.is_local());
    let s = ModMetaData::new_steam("/d/12345", about.as_bytes(), None, None).unwrap();
    assert!(s.is_steam());
    assert_eq!(s.steam_app_id.as_deref(), Some("999"));
}

#[test]
fn meta_steam_id_from_directory() {
    let about = "<ModMetaData><packageId>p</packageId></ModMetaData>";
    let s = ModMetaData::new_steam("/workshop/content/294100/2009463077", about.as_bytes(), None, None).unwrap();
    assert_eq!(s.steam_app_id.as_deref(), Some("2009463077"));
}

#[test]
fn meta_file_paths() {
    let m = ModMetaData::new("/mods/X", b"<ModMetaData/>", None, None).unwrap();
    let about = m.about_file_path();
    assert!(about.starts_with("/mods/X") && about.ends_with("About.xml"), "{about}");
    assert!(about.contains("About"));
    assert!(m.preview_file_path().ends_with("Preview.png"));
    assert!(m.icon_file_path().ends_with("ModIcon.png"));
}

#[test]
fn source_names_round_trip() {
    for s in [Source::Unknown, Source::Official, Source::Local, Source::Steam] {
        assert_eq!(Source::try_from_str(s.as_str()).unwrap(), s);
    }
    assert_eq!(Source::Official.as_str(), OFFICIAL_SOURCE);
    assert_eq!(Source::try_from_str("nope").unwrap_err(), "Unknown source: nope");
}
