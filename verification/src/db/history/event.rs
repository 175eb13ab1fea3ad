//! A mod event of the history.
use crate::db::history::event_type::{event_type_name, unknown_event_type_message, EventType};
use crate::game::mods::meta::source::source_name;
use crate::game::mods::meta::Source;
use vstd::prelude::*;

verus! {

/// A mod event (install, uninstall, update, ...) kept for its history.
#[derive(Debug)]
pub struct Event {
    pub event_id: i64,
    pub event_type: EventType,
    /// ISO 8601 or Unix time.
    pub timestamp: String,
    pub mod_id: String,
    pub name: String,
    pub version: Option<String>,
    /// Comma-separated.
    pub authors: Option<String>,
    pub steam_app_id: Option<String>,
    pub path: String,
    pub source: Source,
    /// ISO 8601 or Unix time.
    pub created: Option<String>,
    /// ISO 8601 or Unix time.
    pub modified: Option<String>,
}

/// The source stored under `name`, or an unknown source for any other name.
pub open spec fn stored_or_unknown(name: Seq<char>) -> Source {
    if exists|s: Source| source_name(s) == name {
        choose|s: Source| source_name(s) == name
    } else {
        Source::Unknown
    }
}

impl Event {
    /// The event a stored row holds, its event type and source given by
    /// their stored names: an unknown event type fails the row, an unknown
    /// source is taken as `Unknown`.
    pub fn from_columns(
        event_id: i64,
        event_type: &str,
        timestamp: String,
        mod_id: String,
        name: String,
        version: Option<String>,
        authors: Option<String>,
        steam_app_id: Option<String>,
        path: String,
        source: &str,
        created: Option<String>,
        modified: Option<String>,
    ) -> (r: Result<Event, String>)
        ensures
            (exists|t: EventType| event_type_name(t) == event_type@) <==> r is Ok,
            r matches Err(e) ==> e@ == unknown_event_type_message(event_type@),
            r matches Ok(ev) ==> {
                &&& event_type_name(ev.event_type) == event_type@
                &&& source_name(ev.source) == source_name(stored_or_unknown(source@))
                &&& ev.event_id == event_id
                &&& ev.timestamp == timestamp
                &&& ev.mod_id == mod_id
                &&& ev.name == name
                &&& ev.version == version
                &&& ev.authors == authors
                &&& ev.steam_app_id == steam_app_id
                &&& ev.path == path
                &&& ev.created == created
                &&& ev.modified == modified
            },
    {
        let event_type = match EventType::try_from_str(event_type) {
            Ok(t) => t,
            Err(e) => {
                return Err(e);
            },
        };
        let source = match Source::try_from_str(source) {
            Ok(s) => s,
            Err(_) => Source::Unknown,
        };
        Ok(Event {
            event_id,
            event_type,
            timestamp,
            mod_id,
            name,
            version,
            authors,
            steam_app_id,
            path,
            source,
            created,
            modified,
        })
    }
}

} // verus!
