//! The first set of icon names of the interface, and where each is stored.
use crate::game::paths::ends_with;
use vstd::prelude::*;

verus! {

/// An icon of the interface.
#[derive(Debug, Clone, Copy, PartialEq, Eq, Structural)]
pub enum IconName {
    // Actions
    Refresh,
    Reset,
    Save,
    Sort,
    // Mod sources
    Local,
    RimWorld,
    Steam,
    Unknown,
}

/// The asset path of each icon.
pub open spec fn icon_asset(icon: IconName) -> Seq<char> {
    match icon {
        IconName::Refresh => "icons/folder-sync.svg"@,
        IconName::Reset => "icons/list-restart.svg"@,
        IconName::Save => "icons/save.svg"@,
        IconName::Sort => "icons/arrow-up-down.svg"@,
        IconName::Local => "icons/hard-drive.svg"@,
        IconName::RimWorld => "icons/rimworld.png"@,
        IconName::Steam => "icons/steam.png"@,
        IconName::Unknown => "icons/square-x.svg"@,
    }
}

impl IconName {
    /// Where the icon is stored among the assets.
    pub fn path(&self) -> (r: &'static str)
        ensures
            r@ == icon_asset(*self),
    {
        match self {
            IconName::Refresh => "icons/folder-sync.svg",
            IconName::Reset => "icons/list-restart.svg",
            IconName::Save => "icons/save.svg",
            IconName::Sort => "icons/arrow-up-down.svg",
            IconName::Local => "icons/hard-drive.svg",
            IconName::RimWorld => "icons/rimworld.png",
            IconName::Steam => "icons/steam.png",
            IconName::Unknown => "icons/square-x.svg",
        }
    }
}

/// Every icon is stored under `icons/`: the RimWorld and Steam logos as PNG
/// images, every other icon as an SVG image; and no two icons share a path.
pub proof fn law_icon_assets(a: IconName, b: IconName)
    ensures
        icon_asset(a).take(6) == "icons/"@,
        ends_with(icon_asset(a), ".png"@) <==> (a == IconName::RimWorld || a == IconName::Steam),
        ends_with(icon_asset(a), ".svg"@) <==> !(a == IconName::RimWorld || a == IconName::Steam),
        a != b ==> icon_asset(a) != icon_asset(b),
{
    reveal_strlit("icons/");
    reveal_strlit(".png");
    reveal_strlit(".svg");
    reveal_strlit("icons/folder-sync.svg");
    reveal_strlit("icons/list-restart.svg");
    reveal_strlit("icons/save.svg");
    reveal_strlit("icons/arrow-up-down.svg");
    reveal_strlit("icons/hard-drive.svg");
    reveal_strlit("icons/rimworld.png");
    reveal_strlit("icons/steam.png");
    reveal_strlit("icons/square-x.svg");
    let pa = icon_asset(a);
    assert(pa.take(6) =~= "icons/"@);
    let tail = pa.skip(pa.len() - 4);
    if a == IconName::RimWorld || a == IconName::Steam {
        assert(tail =~= ".png"@);
        assert(tail[1] != ".svg"@[1]);
    } else {
        assert(tail =~= ".svg"@);
        assert(tail[1] != ".png"@[1]);
    }
    let pb = icon_asset(b);
    if a != b && pa == pb {
        assert(pa.len() == pb.len() && pa[6] == pb[6] && pa[7] == pb[7]);
    }
}

} // verus!
