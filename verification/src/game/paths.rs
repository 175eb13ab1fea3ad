//! Where the game keeps its mods and configuration, relative to its directories.
use vstd::prelude::*;

verus! {

pub const LOCAL_MODS_DIR: &'static str = "Mods";

pub const OFFICIAL_MODS_DIR: &'static str = "Data";

pub const MODS_CONFIG_FILE: &'static str = "ModsConfig.xml";

pub const MOD_ABOUT_DIR: &'static str = "About";

pub const MOD_ABOUT_FILE: &'static str = "About.xml";

pub const MOD_PREVIEW_FILE: &'static str = "Preview.png";

pub const MOD_ICON_FILE: &'static str = "ModIcon.png";

/// A single path component that no platform reads as anything but a name:
/// letters, digits, dots, dashes, underscores and spaces, and neither `.` nor `..`.
pub open spec fn plain_name(n: Seq<char>) -> bool {
    &&& n.len() > 0
    &&& n != "."@
    &&& n != ".."@
    &&& forall|i: int|
        0 <= i < n.len() ==> {
            let c = #[trigger] n[i];
            ('a' <= c && c <= 'z') || ('A' <= c && c <= 'Z') || ('0' <= c && c <= '9') || c == '.' || c
                == '-' || c == '_' || c == ' '
        }
}

/// A separator of path components on some platform.
pub open spec fn is_separator(c: char) -> bool {
    c == '/' || c == '\\'
}

/// A path that does not start with two separators: no platform reads it as
/// a network share or a verbatim path.
pub open spec fn ordinary_path(p: Seq<char>) -> bool {
    !(p.len() >= 2 && is_separator(p[0]) && is_separator(p[1]))
}

/// `r` ends with `name`.
pub open spec fn ends_with(r: Seq<char>, name: Seq<char>) -> bool {
    r.len() >= name.len() && r.skip(r.len() - name.len()) == name
}

/// `r` is `dir` joined with the plain name `name`: `dir`, then at most one
/// separator, then `name`; just `name` when `dir` is empty.
pub open spec fn joined(dir: Seq<char>, name: Seq<char>, r: Seq<char>) -> bool {
    &&& dir.len() + name.len() <= r.len() <= dir.len() + name.len() + 1
    &&& r.take(dir.len() as int) == dir
    &&& ends_with(r, name)
    &&& dir.len() == 0 ==> r == name
}

/// What joining `dir` with the plain name `name` gives: a path ending with
/// `name`, which for an ordinary `dir` is `dir`, at most one separator, then
/// `name`.
pub open spec fn join_of(dir: Seq<char>, name: Seq<char>, r: Seq<char>) -> bool {
    &&& ends_with(r, name)
    &&& ordinary_path(dir) ==> joined(dir, name, r)
}

/// Joins a directory and a plain name (std's `Path::join`). Claimed, from its
/// documentation: a relative name is pushed onto the directory, with a
/// separator in between unless the directory is empty or already ends with
/// one, so the result ends with the name; for a directory that does not start
/// with two separators (no network share, no verbatim path, which Windows
/// renders anew) the directory is kept as it is in front. Which separator is
/// left unsaid: it depends on the platform.
#[verifier::external_body]
pub(crate) fn join_path(dir: &str, name: &str) -> (r: String)
    requires
        plain_name(name@),
    ensures
        join_of(dir@, name@, r@),
{
    std::path::Path::new(dir).join(name).to_string_lossy().into_owned()
}

/// What follows the last `/` of `p` (all of `p` when it has none).
pub open spec fn after_last_slash(p: Seq<char>) -> Seq<char>
    decreases p.len(),
{
    if p.len() == 0 {
        p
    } else if p.last() == '/' {
        Seq::empty()
    } else {
        after_last_slash(p.drop_last()).push(p.last())
    }
}

/// A name found is a stretch of `path`, and, for an ordinary path, when what
/// follows the last `/` of `path` is a plain name, that is the name found.
pub open spec fn name_found_in(r: Option<String>, path: Seq<char>) -> bool {
    &&& r matches Some(n) ==> exists|i: int|
        0 <= i && i + n@.len() <= path.len() && #[trigger] path.subrange(i, i + n@.len()) == n@
    &&& ordinary_path(path) && plain_name(after_last_slash(path)) ==> (r matches Some(n) && n@ == after_last_slash(
        path,
    ))
}

/// The last component of a path, as text (std's `Path::file_name`, then
/// `OsStr::to_str`). Claimed: a name found is a stretch of the path (the
/// components of a path are slices of it), and, for an ordinary path, when
/// what follows the last `/` is a plain name, that is the name found. What it
/// gives otherwise depends on the platform and is left unsaid.
#[verifier::external_body]
pub(crate) fn file_name(path: &str) -> (r: Option<String>)
    ensures
        name_found_in(r, path@),

{
    std::path::Path::new(path).file_name().and_then(|n| n.to_str()).map(|n| n.to_string())
}

/// Where the game looks for mods installed by hand.
pub fn local_mods_dir(game_dir: &str) -> (r: String)
    ensures
        join_of(game_dir@, "Mods"@, r@),
{
    proof {
        reveal_strlit("Mods");
        reveal_strlit(".");
        reveal_strlit("..");
    }
    join_path(game_dir, LOCAL_MODS_DIR)
}

/// Where the game keeps its own content (the core and the expansions).
pub fn official_mods_dir(game_dir: &str) -> (r: String)
    ensures
        join_of(game_dir@, "Data"@, r@),
{
    proof {
        reveal_strlit("Data");
        reveal_strlit(".");
        reveal_strlit("..");
    }
    join_path(game_dir, OFFICIAL_MODS_DIR)
}

/// The file that lists the active mods.
pub fn mods_config_file(config_dir: &str) -> (r: String)
    ensures
        join_of(config_dir@, "ModsConfig.xml"@, r@),
{
    proof {
        reveal_strlit("ModsConfig.xml");
        reveal_strlit(".");
        reveal_strlit("..");
    }
    join_path(config_dir, MODS_CONFIG_FILE)
}

/// A file of a mod's `About` directory.
fn about_dir_file(mod_dir: &str, file: &str) -> (r: String)
    requires
        plain_name(file@),
    ensures
        exists|about: Seq<char>| join_of(mod_dir@, "About"@, about) && #[trigger] join_of(about, file@, r@),
{
    proof {
        reveal_strlit("About");
        reveal_strlit(".");
        reveal_strlit("..");
    }
    let about = join_path(mod_dir, MOD_ABOUT_DIR);
    let r = join_path(about.as_str(), file);
    assert(join_of(about@, file@, r@));
    r
}

/// The `About.xml` file of a mod.
pub fn mod_about_file(mod_dir: &str) -> (r: String)
    ensures
        exists|about: Seq<char>| join_of(mod_dir@, "About"@, about) && #[trigger] join_of(about, "About.xml"@, r@),
{
    proof {
        reveal_strlit("About.xml");
        reveal_strlit(".");
        reveal_strlit("..");
    }
    about_dir_file(mod_dir, MOD_ABOUT_FILE)
}

/// The preview image of a mod.
pub fn mod_preview_file(mod_dir: &str) -> (r: String)
    ensures
        exists|about: Seq<char>| join_of(mod_dir@, "About"@, about) && #[trigger] join_of(about, "Preview.png"@, r@),
{
    proof {
        reveal_strlit("Preview.png");
        reveal_strlit(".");
        reveal_strlit("..");
    }
    about_dir_file(mod_dir, MOD_PREVIEW_FILE)
}

/// The icon of a mod.
pub fn mod_icon_file(mod_dir: &str) -> (r: String)
    ensures
        exists|about: Seq<char>| join_of(mod_dir@, "About"@, about) && #[trigger] join_of(about, "ModIcon.png"@, r@),
{
    proof {
        reveal_strlit("ModIcon.png");
        reveal_strlit(".");
        reveal_strlit("..");
    }
    about_dir_file(mod_dir, MOD_ICON_FILE)
}

} // verus!
