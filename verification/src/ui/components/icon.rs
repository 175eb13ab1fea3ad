//! Names of the icons the interface shows, and where each one is stored.
use crate::game::paths::ends_with;
use vstd::prelude::*;

verus! {

/// An icon of the interface.
#[derive(Debug, Clone, Copy, PartialEq, Eq, Structural)]
pub enum IconName {
    CaseSensitive,
    Clear,
    Reload,
    Reset,
    Save,
    Sort,
    Supported,
    Settings,
    Warning,
    Error,
    Local,
    RimWorld,
    Steam,
    Unknown,
}

/// The asset path of each icon.
pub open spec fn icon_path(icon: IconName) -> Seq<char> {
    match icon {
        IconName::Clear => "icons/list-x.svg"@,
        IconName::CaseSensitive => "icons/a-large-small.svg"@,
        IconName::Reload => "icons/folder-sync.svg"@,
        IconName::Reset => "icons/list-restart.svg"@,
        IconName::Save => "icons/save.svg"@,
        IconName::Sort => "icons/arrow-up-down.svg"@,
        IconName::Supported => "icons/cable.svg"@,
        IconName::Settings => "icons/settings.svg"@,
        IconName::Warning => "icons/triangle-alert.svg"@,
        IconName::Error => "icons/octagon-x.svg"@,
        IconName::Local => "icons/hard-drive.svg"@,
        IconName::RimWorld => "icons/rimworld.png"@,
        IconName::Steam => "icons/steam.png"@,
        IconName::Unknown => "icons/square-x.svg"@,
    }
}

impl IconName {
    /// The asset path of the icon.
    pub fn path(&self) -> (r: &'static str)
        ensures
            r@ == icon_path(*self),
    {
        match self {
            IconName::Clear => "icons/list-x.svg",
            IconName::CaseSensitive => "icons/a-large-small.svg",
            IconName::Reload => "icons/folder-sync.svg",
            IconName::Reset => "icons/list-restart.svg",
            IconName::Save => "icons/save.svg",
            IconName::Sort => "icons/arrow-up-down.svg",
            IconName::Supported => "icons/cable.svg",
            IconName::Settings => "icons/settings.svg",
            IconName::Warning => "icons/triangle-alert.svg",
            IconName::Error => "icons/octagon-x.svg",
            IconName::Local => "icons/hard-drive.svg",
            IconName::RimWorld => "icons/rimworld.png",
            IconName::Steam => "icons/steam.png",
            IconName::Unknown => "icons/square-x.svg",
        }
    }
}

/// Every icon is stored under `icons/`: the RimWorld and Steam logos as PNG
/// images, every other icon as an SVG image; and no two icons share a path.
pub proof fn law_icon_paths(a: IconName, b: IconName)
    ensures
        icon_path(a).take(6) == "icons/"@,
        ends_with(icon_path(a), ".png"@) <==> (a == IconName::RimWorld || a == IconName::Steam),
        ends_with(icon_path(a), ".svg"@) <==> !(a == IconName::RimWorld || a == IconName::Steam),
        a != b ==> icon_path(a) != icon_path(b),
{
    reveal_strlit("icons/");
    reveal_strlit(".png");
    reveal_strlit(".svg");
    reveal_strlit("icons/list-x.svg");
    reveal_strlit("icons/a-large-small.svg");
    reveal_strlit("icons/folder-sync.svg");
    reveal_strlit("icons/list-restart.svg");
    reveal_strlit("icons/save.svg");
    reveal_strlit("icons/arrow-up-down.svg");
    reveal_strlit("icons/cable.svg");
    reveal_strlit("icons/settings.svg");
    reveal_strlit("icons/triangle-alert.svg");
    reveal_strlit("icons/octagon-x.svg");
    reveal_strlit("icons/hard-drive.svg");
    reveal_strlit("icons/rimworld.png");
    reveal_strlit("icons/steam.png");
    reveal_strlit("icons/square-x.svg");
    let pa = icon_path(a);
    assert(pa.take(6) =~= "icons/"@);
    let tail = pa.skip(pa.len() - 4);
    if a == IconName::RimWorld || a == IconName::Steam {
        assert(tail =~= ".png"@);
        assert(tail[1] != ".svg"@[1]);
    } else {
        assert(tail =~= ".svg"@);
        assert(tail[1] != ".png"@[1]);
    }
    let pb = icon_path(b);
    if a != b && pa == pb {
        assert(pa.len() == pb.len() && pa[6] == pb[6] && pa[7] == pb[7]);
    }
}

} // verus!
