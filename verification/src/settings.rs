//! The settings of the mod manager: where the game and its mods are, and how
//! searching behaves.
use crate::game::paths::{join_of, join_path, local_mods_dir, mods_config_file, official_mods_dir};
use vstd::prelude::*;

verus! {

/// The settings of the mod manager.
#[derive(Debug)]
pub struct Settings {
    /// The game directory, where the game executable is located.
    pub game_dir: String,
    /// The directory where official mods are stored.
    pub official_mods_dir: String,
    /// The directory where local mods are stored.
    pub local_mods_dir: String,
    /// The directory where Steam mods are stored.
    pub steam_mods_dir: String,
    /// The directory where configuration files are stored.
    pub config_dir: String,
    /// Show advanced search controls for the mod search bar.
    pub advanced_search: bool,
    /// Separate the search bar from mod list controls.
    pub separate_search_bar: bool,
    /// Automatically activate case sensitivity if searches contain uppercase letters.
    pub smart_search: bool,
}

/// The directories of the mod manager's own files, relative to the
/// platform's configuration or data directory.
pub const APP_DIR: &'static str = "rimru";

/// The settings file, in the mod manager's configuration directory.
pub const SETTINGS_FILE: &'static str = "settings.toml";

/// The platform's configuration directory (`dirs::config_dir`), as text.
/// Where it is depends on the platform and the environment; nothing is
/// claimed of it.
#[verifier::external_body]
fn platform_config_dir() -> (r: Option<String>) {
    dirs::config_dir().map(|p| p.to_string_lossy().into_owned())
}

/// `p` is `rimru` in some directory.
pub open spec fn in_app_dir(p: Seq<char>) -> bool {
    exists|base: Seq<char>| #[trigger] join_of(base, "rimru"@, p)
}

/// The mod manager's configuration directory for the platform's one, `base`:
/// `rimru` in it, and none where the platform has none.
pub fn config_dir_in(base: Option<String>) -> (r: Option<String>)
    ensures
        match base {
            None => r is None,
            Some(b) => r matches Some(p) && join_of(b@, "rimru"@, p@),
        },
{
    proof {
        reveal_strlit("rimru");
        reveal_strlit(".");
        reveal_strlit("..");
    }
    match base {
        Some(b) => Some(join_path(b.as_str(), APP_DIR)),
        None => None,
    }
}

/// The mod manager's configuration directory: `rimru` in the platform's one,
/// if the platform has one.
pub fn config_dir() -> (r: Option<String>)
    ensures
        r matches Some(p) ==> in_app_dir(p@),
{
    let base = platform_config_dir();
    let ghost b = base;
    let dir = config_dir_in(base);
    assert(dir is Some ==> join_of(b->0@, "rimru"@, dir->0@));
    dir
}

/// `p` is `settings.toml` in a directory named `rimru`.
pub open spec fn is_settings_path(p: Seq<char>) -> bool {
    exists|dir: Seq<char>| in_app_dir(dir) && #[trigger] join_of(dir, "settings.toml"@, p)
}

/// The settings file for the configuration directory `dir`:
/// `settings.toml` in it, and none where there is no such directory.
pub fn settings_file_in(dir: Option<String>) -> (r: Option<String>)
    ensures
        match dir {
            None => r is None,
            Some(d) => r matches Some(p) && join_of(d@, "settings.toml"@, p@),
        },
{
    proof {
        reveal_strlit("settings.toml");
        reveal_strlit(".");
        reveal_strlit("..");
    }
    match dir {
        Some(d) => Some(join_path(d.as_str(), SETTINGS_FILE)),
        None => None,
    }
}

/// The settings file: `settings.toml` in the mod manager's configuration
/// directory, if the platform has one.
pub fn settings_file() -> (r: Option<String>)
    ensures
        r matches Some(p) ==> is_settings_path(p@),
{
    let dir = config_dir();
    let ghost d = dir;
    let file = settings_file_in(dir);
    assert(file is Some ==> in_app_dir(d->0@) && join_of(d->0@, "settings.toml"@, file->0@));
    file
}

impl Settings {
    /// The default settings for a game in `game_dir`, Steam mods in
    /// `steam_mods_dir` and the game's configuration in `config_dir`: the
    /// official and local mods in the game's `Data` and `Mods` directories,
    /// all search options on.
    pub fn new(game_dir: String, steam_mods_dir: String, config_dir: String) -> (r: Self)
        ensures
            r.game_dir@ == game_dir@,
            join_of(game_dir@, "Data"@, r.official_mods_dir@),
            join_of(game_dir@, "Mods"@, r.local_mods_dir@),
            r.steam_mods_dir@ == steam_mods_dir@,
            r.config_dir@ == config_dir@,
            r.advanced_search,
            r.separate_search_bar,
            r.smart_search,
    {
        let official = official_mods_dir(game_dir.as_str());
        let local = local_mods_dir(game_dir.as_str());
        Settings {
            game_dir,
            official_mods_dir: official,
            local_mods_dir: local,
            steam_mods_dir,
            config_dir,
            advanced_search: true,
            separate_search_bar: true,
            smart_search: true,
        }
    }

    /// The settings read from the settings file, or the defaults `new` gives
    /// for the given directories when there were none.
    pub fn load_or_default(loaded: Option<Settings>, game_dir: String, steam_mods_dir: String, config_dir: String) -> (r:
        Self)
        ensures
            loaded matches Some(s) ==> r == s,
            loaded is None ==> {
                &&& r.game_dir@ == game_dir@
                &&& join_of(game_dir@, "Data"@, r.official_mods_dir@)
                &&& join_of(game_dir@, "Mods"@, r.local_mods_dir@)
                &&& r.steam_mods_dir@ == steam_mods_dir@
                &&& r.config_dir@ == config_dir@
                &&& r.advanced_search && r.separate_search_bar && r.smart_search
            },
    {
        match loaded {
            Some(s) => s,
            None => Settings::new(game_dir, steam_mods_dir, config_dir),
        }
    }

    /// The game directory.
    pub fn game_dir(&self) -> (r: &String)
        ensures
            r == &self.game_dir,
    {
        &self.game_dir
    }

    /// Sets the game directory.
    pub fn set_game_dir(&mut self, game_dir: String)
        ensures
            *final(self) == (Settings { game_dir, ..*old(self) }),
    {
        self.game_dir = game_dir;
    }

    /// The official mods directory.
    pub fn official_mods_dir(&self) -> (r: &String)
        ensures
            r == &self.official_mods_dir,
    {
        &self.official_mods_dir
    }

    /// Sets the official mods directory.
    pub fn set_official_mods_dir(&mut self, official_mods_dir: String)
        ensures
            *final(self) == (Settings { official_mods_dir, ..*old(self) }),
    {
        self.official_mods_dir = official_mods_dir;
    }

    /// The local mods directory.
    pub fn local_mods_dir(&self) -> (r: &String)
        ensures
            r == &self.local_mods_dir,
    {
        &self.local_mods_dir
    }

    /// Sets the local mods directory.
    pub fn set_local_mods_dir(&mut self, local_mods_dir: String)
        ensures
            *final(self) == (Settings { local_mods_dir, ..*old(self) }),
    {
        self.local_mods_dir = local_mods_dir;
    }

    /// The Steam mods directory.
    pub fn steam_mods_dir(&self) -> (r: &String)
        ensures
            r == &self.steam_mods_dir,
    {
        &self.steam_mods_dir
    }

    /// Sets the Steam mods directory.
    pub fn set_steam_mods_dir(&mut self, steam_mods_dir: String)
        ensures
            *final(self) == (Settings { steam_mods_dir, ..*old(self) }),
    {
        self.steam_mods_dir = steam_mods_dir;
    }

    /// The configuration directory.
    pub fn config_dir(&self) -> (r: &String)
        ensures
            r == &self.config_dir,
    {
        &self.config_dir
    }

    /// Sets the configuration directory.
    pub fn set_config_dir(&mut self, config_dir: String)
        ensures
            *final(self) == (Settings { config_dir, ..*old(self) }),
    {
        self.config_dir = config_dir;
    }

    /// The mods config file, in the configuration directory.
    pub fn mods_config_file(&self) -> (r: String)
        ensures
            join_of(self.config_dir@, "ModsConfig.xml"@, r@),
    {
        mods_config_file(self.config_dir.as_str())
    }

    /// Sets whether the search bar stands apart from the mod list controls.
    pub fn set_separate_search_bar(&mut self, separate_search_bar: bool)
        ensures
            *final(self) == (Settings { separate_search_bar, ..*old(self) }),
    {
        self.separate_search_bar = separate_search_bar;
    }

    /// Whether the search bar stands apart from the mod list controls.
    pub fn separate_search_bar(&self) -> (r: bool)
        ensures
            r == self.separate_search_bar,
    {
        self.separate_search_bar
    }

    /// Sets whether searches with upper-case letters are case sensitive.
    pub fn set_smart_search(&mut self, smart_search: bool)
        ensures
            *final(self) == (Settings { smart_search, ..*old(self) }),
    {
        self.smart_search = smart_search;
    }

    /// Whether searches with upper-case letters are case sensitive.
    pub fn smart_search(&self) -> (r: bool)
        ensures
            r == self.smart_search,
    {
        self.smart_search
    }
}

} // verus!
