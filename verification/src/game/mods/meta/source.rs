//! Where an installed mod comes from.
use crate::text::compare_chars;
use crate::ui::components::icon::IconName;
use vstd::prelude::*;

verus! {

pub const UNKNOWN_SOURCE: &'static str = "unknown";

pub const OFFICIAL_SOURCE: &'static str = "official";

pub const LOCAL_SOURCE: &'static str = "local";

pub const STEAM_SOURCE: &'static str = "steam";

/// Where an installed mod comes from.
#[derive(Debug, Clone, Copy, PartialEq, Eq, Structural)]
pub enum Source {
    Unknown,
    Official,
    Local,
    Steam,
}

impl Default for Source {
    fn default() -> (r: Self)
        ensures
            r == Source::Unknown,
    {
        Source::Unknown
    }
}

/// The name under which a source is stored.
pub open spec fn source_name(source: Source) -> Seq<char> {
    match source {
        Source::Unknown => "unknown"@,
        Source::Official => "official"@,
        Source::Local => "local"@,
        Source::Steam => "steam"@,
    }
}

/// The error message for a name that is no source.
pub open spec fn unknown_source_message(name: Seq<char>) -> Seq<char> {
    "Unknown source: "@ + name
}

impl Source {
    /// The icon shown for mods of this source.
    pub fn icon_name(&self) -> (r: IconName)
        ensures
            r == match *self {
                Source::Unknown => IconName::Unknown,
                Source::Official => IconName::RimWorld,
                Source::Local => IconName::Local,
                Source::Steam => IconName::Steam,
            },
    {
        match self {
            Source::Unknown => IconName::Unknown,
            Source::Official => IconName::RimWorld,
            Source::Local => IconName::Local,
            Source::Steam => IconName::Steam,
        }
    }

    pub fn is_official(&self) -> (r: bool)
        ensures
            r == (*self == Source::Official),
    {
        matches!(self, Source::Official)
    }

    pub fn is_local(&self) -> (r: bool)
        ensures
            r == (*self == Source::Local),
    {
        matches!(self, Source::Local)
    }

    pub fn is_steam(&self) -> (r: bool)
        ensures
            r == (*self == Source::Steam),
    {
        matches!(self, Source::Steam)
    }

    /// The name under which the source is stored and shown.
    pub fn as_str(&self) -> (r: &'static str)
        ensures
            r@ == source_name(*self),
    {
        match self {
            Source::Unknown => UNKNOWN_SOURCE,
            Source::Official => OFFICIAL_SOURCE,
            Source::Local => LOCAL_SOURCE,
            Source::Steam => STEAM_SOURCE,
        }
    }

    /// The source stored under `name`; any other name is an error.
    pub fn try_from_str(name: &str) -> (r: Result<Source, String>)
        ensures
            r is Ok <==> exists|s: Source| source_name(s) == name@,
            r matches Ok(s) ==> source_name(s) == name@,
            r matches Err(e) ==> e@ == unknown_source_message(name@),
    {
        proof {
            reveal_strlit("unknown");
            reveal_strlit("official");
            reveal_strlit("local");
            reveal_strlit("steam");
        }
        if compare_chars(name, UNKNOWN_SOURCE) == 0 {
            assert(source_name(Source::Unknown) == name@);
            Ok(Source::Unknown)
        } else if compare_chars(name, OFFICIAL_SOURCE) == 0 {
            assert(source_name(Source::Official) == name@);
            Ok(Source::Official)
        } else if compare_chars(name, LOCAL_SOURCE) == 0 {
            assert(source_name(Source::Local) == name@);
            Ok(Source::Local)
        } else if compare_chars(name, STEAM_SOURCE) == 0 {
            assert(source_name(Source::Steam) == name@);
            Ok(Source::Steam)
        } else {
            proof {
                assert forall|s: Source| source_name(s) != name@ by {
                    match s {
                        Source::Unknown => {},
                        Source::Official => {},
                        Source::Local => {},
                        Source::Steam => {},
                    }
                }
            }
            let mut msg = String::from_str("Unknown source: ");
            msg.append(name);
            proof {
                reveal_strlit("Unknown source: ");
            }
            Err(msg)
        }
    }
}

} // verus!
