//! The kinds of mod events.
use vstd::prelude::*;

verus! {

pub const INSTALL_EVENT: &'static str = "install";

pub const UNINSTALL_EVENT: &'static str = "uninstall";

pub const UPDATE_EVENT: &'static str = "update";

/// The kind of a mod event.
#[derive(Debug, Clone, Copy, PartialEq, Eq, Structural)]
pub enum EventType {
    Install,
    Uninstall,
    Update,
}

/// The name an event type is stored under.
pub open spec fn event_type_name(t: EventType) -> Seq<char> {
    match t {
        EventType::Install => "install"@,
        EventType::Uninstall => "uninstall"@,
        EventType::Update => "update"@,
    }
}

/// The error for a name that is no event type.
pub open spec fn unknown_event_type_message(name: Seq<char>) -> Seq<char> {
    "Unknown event type: "@ + name
}

impl EventType {
    /// The name the event type is stored (and shown) under.
    pub fn as_str(&self) -> (r: &'static str)
        ensures
            r@ == event_type_name(*self),
    {
        match self {
            EventType::Install => INSTALL_EVENT,
            EventType::Uninstall => UNINSTALL_EVENT,
            EventType::Update => UPDATE_EVENT,
        }
    }

    /// The event type stored under `name`.
    pub fn try_from_str(name: &str) -> (r: Result<EventType, String>)
        ensures
            match r {
                Ok(t) => event_type_name(t) == name@,
                Err(e) => e@ == unknown_event_type_message(name@) && forall|t: EventType|
                    event_type_name(t) != name@,
            },
    {
        if crate::text::compare_chars(name, INSTALL_EVENT) == 0 {
            Ok(EventType::Install)
        } else if crate::text::compare_chars(name, UNINSTALL_EVENT) == 0 {
            Ok(EventType::Uninstall)
        } else if crate::text::compare_chars(name, UPDATE_EVENT) == 0 {
            Ok(EventType::Update)
        } else {
            let mut m = String::from_str("Unknown event type: ");
            m.append(name);
            proof {
                assert forall|t: EventType| event_type_name(t) != name@ by {
                    match t {
                        EventType::Install => {},
                        EventType::Uninstall => {},
                        EventType::Update => {},
                    }
                }
            }
            Err(m)
        }
    }
}

} // verus!
