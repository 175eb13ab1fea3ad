//! A mod event as stored in the database.
use crate::game::mods::meta::Source;
use vstd::prelude::*;

verus! {

/// A mod event (install, uninstall, update, ...) kept for its history.
#[derive(Debug)]
pub struct ModEvent {
    pub event_id: i64,
    pub mod_id: String,
    pub source: Source,
    pub steam_app_id: Option<String>,
    /// "install", "uninstall" or "update".
    pub event_type: String,
    /// ISO 8601 or Unix time.
    pub timestamp: String,
    pub version: Option<String>,
    pub path: String,
    pub name: String,
    /// Comma-separated.
    pub authors: Option<String>,
    /// ISO 8601 or Unix time.
    pub created: Option<String>,
    /// ISO 8601 or Unix time.
    pub modified: Option<String>,
}

/// The name a source is stored under.
pub open spec fn stored_source(source: Source) -> Seq<char> {
    match source {
        Source::Steam => "steam"@,
        Source::Local => "local"@,
        Source::Official => "official"@,
        Source::Unknown => "unknown"@,
    }
}

/// The source a stored name stands for; any other name is an unknown source.
pub open spec fn parsed_source(name: Seq<char>) -> Source {
    if name == "steam"@ {
        Source::Steam
    } else if name == "local"@ {
        Source::Local
    } else if name == "official"@ {
        Source::Official
    } else {
        Source::Unknown
    }
}

impl ModEvent {
    /// The name the event's source is stored under.
    pub fn serialize_source(&self) -> (r: &'static str)
        ensures
            r@ == stored_source(self.source),
    {
        match self.source {
            Source::Steam => "steam",
            Source::Local => "local",
            Source::Official => "official",
            Source::Unknown => "unknown",
        }
    }

    /// The Steam app id as stored.
    pub fn serialize_steam_app_id(&self) -> (r: Option<&str>)
        ensures
            match self.steam_app_id {
                Some(id) => r matches Some(s) && s@ == id@,
                None => r is None,
            },
    {
        match &self.steam_app_id {
            Some(id) => Some(id.as_str()),
            None => None,
        }
    }

    /// The source a stored name stands for.
    pub fn parse_source(source_str: &str) -> (r: Source)
        ensures
            r == parsed_source(source_str@),
    {
        if crate::text::compare_chars(source_str, "steam") == 0 {
            Source::Steam
        } else if crate::text::compare_chars(source_str, "local") == 0 {
            Source::Local
        } else if crate::text::compare_chars(source_str, "official") == 0 {
            Source::Official
        } else {
            Source::Unknown
        }
    }
}

} // verus!
