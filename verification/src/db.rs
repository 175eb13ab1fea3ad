//! Where the mod manager keeps its history of mod events.
use crate::game::paths::{join_of, join_path};
use vstd::prelude::*;

pub mod history;
pub mod mod_event;

verus! {

/// The platform's data directory (`dirs::data_dir`), as text. Where it is
/// depends on the platform and the environment; nothing is claimed of it.
#[verifier::external_body]
fn platform_data_dir() -> (r: Option<String>) {
    dirs::data_dir().map(|p| p.to_string_lossy().into_owned())
}

/// `p` is `rimru` in some directory.
pub open spec fn in_data_dir(p: Seq<char>) -> bool {
    exists|base: Seq<char>| #[trigger] join_of(base, "rimru"@, p)
}

/// `p` is `rimru.sqlite3` in a directory named `rimru`.
pub open spec fn is_database_path(p: Seq<char>) -> bool {
    exists|dir: Seq<char>| in_data_dir(dir) && #[trigger] join_of(dir, "rimru.sqlite3"@, p)
}

/// The mod manager's data directory for the platform's one, `base`: `rimru`
/// in it, and none where the platform has none.
pub fn data_dir_in(base: Option<String>) -> (r: Option<String>)
    ensures
        match base {
            None => r is None,
            Some(b) => r matches Some(p) && join_of(b@, "rimru"@, p@),
        },
{
    proof {
        reveal_strlit("rimru");
        reveal_strlit(".");
        reveal_strlit("..");
    }
    match base {
        Some(b) => Some(join_path(b.as_str(), "rimru")),
        None => None,
    }
}

/// The mod manager's data directory: `rimru` in the platform's one, if the
/// platform has one.
pub fn data_dir() -> (r: Option<String>)
    ensures
        r matches Some(p) ==> in_data_dir(p@),
{
    let base = platform_data_dir();
    let ghost b = base;
    let dir = data_dir_in(base);
    assert(dir is Some ==> join_of(b->0@, "rimru"@, dir->0@));
    dir
}

/// The database file for the data directory `dir`: `rimru.sqlite3` in it,
/// and none where there is no such directory.
pub fn database_file_in(dir: Option<String>) -> (r: Option<String>)
    ensures
        match dir {
            None => r is None,
            Some(d) => r matches Some(p) && join_of(d@, "rimru.sqlite3"@, p@),
        },
{
    proof {
        reveal_strlit("rimru.sqlite3");
        reveal_strlit(".");
        reveal_strlit("..");
    }
    match dir {
        Some(d) => Some(join_path(d.as_str(), "rimru.sqlite3")),
        None => None,
    }
}

/// The database file: `rimru.sqlite3` in the mod manager's data directory,
/// if the platform has one.
pub fn database_file() -> (r: Option<String>)
    ensures
        r matches Some(p) ==> is_database_path(p@),
{
    let dir = data_dir();
    let ghost d = dir;
    let file = database_file_in(dir);
    assert(file is Some ==> in_data_dir(d->0@) && join_of(d->0@, "rimru.sqlite3"@, file->0@));
    file
}

} // verus!
