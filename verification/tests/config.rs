use rimru::game::mods::config::{backup_file_name, ModsConfigData};

const CONFIG: &str = r#"<?xml version="1.0" encoding="utf-8"?>
<ModsConfigData>
  <version>1.5.4104 rev435</version>
  <activeMods>
    <li>brrainz.harmony</li>
    <li>ludeon.rimworld</li>
    <li>Author.CoolMod</li>
  </activeMods>
  <knownExpansions>
    <li>ludeon.rimworld.royalty</li>
  </knownExpansions>
</ModsConfigData>
"#;

#[test]
fn config_loads() {
    let c = ModsConfigData::load("ModsConfig.xml", CONFIG.as_bytes()).unwrap();
    assert_eq!(c.version, "1.5.4104 rev435");
    assert_eq!(
        c.active_mods,
        vec!["brrainz.harmony".to_string(), "ludeon.rimworld".to_string(), "Author.CoolMod".to_string()]
    );
    assert_eq!(c.known_expansions, vec!["ludeon.rimworld.royalty".to_string()]);
}

#[test]
fn config_load_fails_on_broken_document() {
    assert!(ModsConfigData::load("x", b"<ModsConfigData><activeMods><li>a</li>").is_none());
    assert!(ModsConfigData::load("x", b"<ModsConfigData><version>1</ModsConfigData>").is_none());
}

#[test]
fn config_load_of_empty_document_is_empty() {
    let c = ModsConfigData::load("x", b"<other><version>1</version></other>").unwrap();
    assert_eq!(c.version, "");
    assert!(c.active_mods.is_empty());
}

#[test]
fn config_save_writes_lower_case_ids_and_reads_back() {
    let c = ModsConfigData::load("ModsConfig.xml", CONFIG.as_bytes()).unwrap();
    let bytes = c.save().unwrap();
    let text = String::from_utf8(bytes.clone()).unwrap();
    assert!(text.starts_with("<?xml"), "{text}");
    assert!(text.contains("<version>1.5.4104 rev435</version>"), "{text}");
    assert!(text.contains("<li>author.coolmod</li>"), "{text}");
    let back = ModsConfigData::load("ModsConfig.xml", &bytes).unwrap();
    assert_eq!(back.version, c.version);
    assert_eq!(
        back.active_mods,
        vec!["brrainz.harmony".to_string(), "ludeon.rimworld".to_string(), "author.coolmod".to_string()]
    );
    assert_eq!(back.known_expansions, c.known_expansions);
}

#[test]
fn config_backup_name() {
    assert_eq!(backup_file_name("ModsConfig", 1712345678901234, "xml"), "ModsConfig.1712345678901234.xml");
    assert_eq!(backup_file_name("a", 0, "b"), "a.0.b");
}

#[test]
fn config_save_lowers_only_ascii_letters() {
    let mut c = ModsConfigData::default();
    c.version = "1.5".to_string();
    c.active_mods = vec!["Ünïcode.ModÄ-Z_9".to_string()];
    let text = String::from_utf8(c.save().unwrap()).unwrap();
    assert!(text.contains("<li>Ünïcode.modÄ-z_9</li>"), "{text}");
}
