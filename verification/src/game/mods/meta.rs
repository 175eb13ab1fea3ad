//! The metadata a mod declares in its `About/About.xml`, and where it was found.
use crate::collections::{Duplicate, StringMap, StringSet};
use crate::game::mods::meta::parser::{about_from, dependency_rel, nothing_found, parse_mod_metadata, MetaParse};
use crate::game::paths::{file_name, join_of, mod_about_file, mod_icon_file, mod_preview_file, name_found_in};
use crate::game::xml::{create_reader, xml_events};
use vstd::prelude::*;

pub mod parser;
pub mod source;

pub use source::Source;

verus! {

/// A mod that another mod depends on.
#[derive(Debug)]
pub struct ModDependency {
    pub id: String,
    pub name: String,
}

impl Default for ModDependency {
    fn default() -> (r: Self)
        ensures
            r.id@ == Seq::<char>::empty(),
            r.name@ == Seq::<char>::empty(),
    {
        ModDependency { id: String::new(), name: String::new() }
    }
}

impl Duplicate for ModDependency {
    open spec fn same(&self, other: &Self) -> bool {
        self.id@ == other.id@ && self.name@ == other.name@
    }

    fn duplicate(&self) -> (r: Self) {
        ModDependency { id: self.id.clone(), name: self.name.clone() }
    }
}

impl ModDependency {
    /// The dependency on the given mod: its id and name.
    pub fn from(mod_meta: &ModMetaData) -> (r: Self)
        ensures
            r.id@ == mod_meta.id@,
            r.name@ == mod_meta.name@,
    {
        ModDependency { id: mod_meta.id.clone(), name: mod_meta.name.clone() }
    }
}

/// Everything known of an installed mod.
///
/// Times are nanoseconds relative to the Unix epoch (negative before it).
#[derive(Debug)]
pub struct ModMetaData {
    pub id: String,
    pub name: String,
    pub short_name: Option<String>,
    pub icon_path: Option<String>,
    pub version: Option<String>,
    pub authors: Vec<String>,
    pub description: String,
    pub descriptions_by_version: StringMap<String>,
    pub dependencies: StringMap<ModDependency>,
    pub dependencies_by_version: StringMap<StringMap<ModDependency>>,
    pub load_after: StringSet,
    pub load_after_by_version: StringMap<StringSet>,
    pub load_before: StringSet,
    pub load_before_by_version: StringMap<StringSet>,
    pub force_load_after: StringSet,
    pub force_load_before: StringSet,
    pub incompatible_with: StringSet,
    pub incompatible_with_by_version: StringMap<StringSet>,
    pub steam_app_id: Option<String>,
    pub supported_versions: Vec<String>,
    pub url: Option<String>,
    pub path: String,
    pub source: Source,
    pub created: Option<i128>,
    pub modified: Option<i128>,
}

impl Default for ModMetaData {
    fn default() -> (r: Self)
        ensures
            r.id@ == Seq::<char>::empty(),
            r.name@ == Seq::<char>::empty(),
            r.short_name is None,
            r.icon_path is None,
            r.version is None,
            r.authors@.len() == 0,
            r.description@ == Seq::<char>::empty(),
            r.descriptions_by_version.key_seq().len() == 0,
            r.dependencies.key_seq().len() == 0,
            r.dependencies_by_version.key_seq().len() == 0,
            r.load_after@.len() == 0,
            r.load_after_by_version.key_seq().len() == 0,
            r.load_before@.len() == 0,
            r.load_before_by_version.key_seq().len() == 0,
            r.force_load_after@.len() == 0,
            r.force_load_before@.len() == 0,
            r.incompatible_with@.len() == 0,
            r.incompatible_with_by_version.key_seq().len() == 0,
            r.steam_app_id is None,
            r.supported_versions@.len() == 0,
            r.url is None,
            r.path@ == Seq::<char>::empty(),
            r.source == Source::Unknown,
            r.created is None,
            r.modified is None,
            r.wf(),
    {
        ModMetaData {
            id: String::new(),
            name: String::new(),
            short_name: None,
            icon_path: None,
            version: None,
            authors: Vec::new(),
            description: String::new(),
            descriptions_by_version: StringMap::new(),
            dependencies: StringMap::new(),
            dependencies_by_version: StringMap::new(),
            load_after: StringSet::new(),
            load_after_by_version: StringMap::new(),
            load_before: StringSet::new(),
            load_before_by_version: StringMap::new(),
            force_load_after: StringSet::new(),
            force_load_before: StringSet::new(),
            incompatible_with: StringSet::new(),
            incompatible_with_by_version: StringMap::new(),
            steam_app_id: None,
            supported_versions: Vec::new(),
            url: None,
            path: String::new(),
            source: Source::Unknown,
            created: None,
            modified: None,
        }
    }
}

impl Duplicate for ModMetaData {
    open spec fn same(&self, other: &Self) -> bool {
        &&& self.id@ == other.id@
        &&& self.name@ == other.name@
        &&& self.short_name.same(&other.short_name)
        &&& self.icon_path.same(&other.icon_path)
        &&& self.version.same(&other.version)
        &&& self.authors.same(&other.authors)
        &&& self.description@ == other.description@
        &&& self.descriptions_by_version.same(&other.descriptions_by_version)
        &&& self.dependencies.same(&other.dependencies)
        &&& self.dependencies_by_version.same(&other.dependencies_by_version)
        &&& self.load_after@ == other.load_after@
        &&& self.load_after_by_version.same(&other.load_after_by_version)
        &&& self.load_before@ == other.load_before@
        &&& self.load_before_by_version.same(&other.load_before_by_version)
        &&& self.force_load_after@ == other.force_load_after@
        &&& self.force_load_before@ == other.force_load_before@
        &&& self.incompatible_with@ == other.incompatible_with@
        &&& self.incompatible_with_by_version.same(&other.incompatible_with_by_version)
        &&& self.steam_app_id.same(&other.steam_app_id)
        &&& self.supported_versions.same(&other.supported_versions)
        &&& self.url.same(&other.url)
        &&& self.path@ == other.path@
        &&& self.source == other.source
        &&& self.created == other.created
        &&& self.modified == other.modified
    }

    fn duplicate(&self) -> (r: Self) {
        ModMetaData {
            id: self.id.clone(),
            name: self.name.clone(),
            short_name: self.short_name.duplicate(),
            icon_path: self.icon_path.duplicate(),
            version: self.version.duplicate(),
            authors: self.authors.duplicate(),
            description: self.description.clone(),
            descriptions_by_version: self.descriptions_by_version.duplicate(),
            dependencies: self.dependencies.duplicate(),
            dependencies_by_version: self.dependencies_by_version.duplicate(),
            load_after: self.load_after.duplicate(),
            load_after_by_version: self.load_after_by_version.duplicate(),
            load_before: self.load_before.duplicate(),
            load_before_by_version: self.load_before_by_version.duplicate(),
            force_load_after: self.force_load_after.duplicate(),
            force_load_before: self.force_load_before.duplicate(),
            incompatible_with: self.incompatible_with.duplicate(),
            incompatible_with_by_version: self.incompatible_with_by_version.duplicate(),
            steam_app_id: self.steam_app_id.duplicate(),
            supported_versions: self.supported_versions.duplicate(),
            url: self.url.duplicate(),
            path: self.path.clone(),
            source: self.source,
            created: self.created,
            modified: self.modified,
        }
    }
}

impl ModMetaData {
    /// The ordered collections keep their order.
    pub open spec fn wf(&self) -> bool {
        &&& self.descriptions_by_version.wf()
        &&& self.dependencies.wf()
        &&& self.dependencies_by_version.wf()
        &&& self.load_after.wf()
        &&& self.load_after_by_version.wf()
        &&& self.load_before.wf()
        &&& self.load_before_by_version.wf()
        &&& self.force_load_after.wf()
        &&& self.force_load_before.wf()
        &&& self.incompatible_with.wf()
        &&& self.incompatible_with_by_version.wf()
    }

    pub fn is_official(&self) -> (r: bool)
        ensures
            r == (self.source == Source::Official),
    {
        self.source.is_official()
    }

    pub fn is_local(&self) -> (r: bool)
        ensures
            r == (self.source == Source::Local),
    {
        self.source.is_local()
    }

    pub fn is_steam(&self) -> (r: bool)
        ensures
            r == (self.source == Source::Steam),
    {
        self.source.is_steam()
    }

    /// Whether this mod lists `id` among its dependencies.
    pub fn depends_on(&self, id: &str) -> (r: bool)
        ensures
            r == self.dependencies.has_key(id@),
    {
        self.dependencies.contains_key(id)
    }

    /// Whether this mod asks to be loaded after `id`.
    pub fn load_after(&self, id: &str) -> (r: bool)
        ensures
            r == self.load_after@.contains(id@),
    {
        self.load_after.contains(id)
    }

    /// Whether this mod asks to be loaded before `id`.
    pub fn load_before(&self, id: &str) -> (r: bool)
        ensures
            r == self.load_before@.contains(id@),
    {
        self.load_before.contains(id)
    }

    /// Whether this mod insists on being loaded after `id`.
    pub fn force_load_after(&self, id: &str) -> (r: bool)
        ensures
            r == self.force_load_after@.contains(id@),
    {
        self.force_load_after.contains(id)
    }

    /// Whether this mod insists on being loaded before `id`.
    pub fn force_load_before(&self, id: &str) -> (r: bool)
        ensures
            r == self.force_load_before@.contains(id@),
    {
        self.force_load_before.contains(id)
    }
}

/// A text read, or empty.
pub open spec fn text_or_blank(after: String, found: Option<Seq<char>>) -> bool {
    match found {
        Some(v) => after@ == v,
        None => after@.len() == 0,
    }
}

/// A set read from the given items, or empty.
pub open spec fn set_or_blank(after: StringSet, found: Option<Seq<Seq<char>>>) -> bool {
    &&& after.wf()
    &&& match found {
        Some(items) => after@.to_set() == items.to_set(),
        None => after@.len() == 0,
    }
}

/// `r` holds what reading `About.xml` found (`m`) for the mod in the directory
/// `path` with the given times; everything else is empty.
pub open spec fn read_meta(
    r: ModMetaData,
    path: Seq<char>,
    created: Option<i128>,
    modified: Option<i128>,
    m: MetaParse,
) -> bool {
    &&& text_or_blank(r.id, m.id)
    &&& text_or_blank(r.name, m.name)
    &&& text_or_blank(r.description, m.description)
    &&& r.authors.deep_view() == m.authors
    &&& match m.dependencies {
        Some(p) => r.dependencies.holds_pairs(p, dependency_rel()),
        None => r.dependencies.wf() && r.dependencies.key_seq().len() == 0,
    }
    &&& set_or_blank(r.load_after, m.load_after)
    &&& set_or_blank(r.load_before, m.load_before)
    &&& set_or_blank(r.force_load_after, m.force_load_after)
    &&& set_or_blank(r.force_load_before, m.force_load_before)
    &&& r.short_name is None
    &&& r.icon_path is None
    &&& r.version is None
    &&& r.descriptions_by_version.wf() && r.descriptions_by_version.key_seq().len() == 0
    &&& r.dependencies_by_version.wf() && r.dependencies_by_version.key_seq().len() == 0
    &&& r.load_after_by_version.wf() && r.load_after_by_version.key_seq().len() == 0
    &&& r.load_before_by_version.wf() && r.load_before_by_version.key_seq().len() == 0
    &&& r.incompatible_with.wf() && r.incompatible_with@.len() == 0
    &&& r.incompatible_with_by_version.wf() && r.incompatible_with_by_version.key_seq().len() == 0
    &&& r.supported_versions@.len() == 0
    &&& r.url is None
    &&& r.path@ == path
    &&& r.created == created
    &&& r.modified == modified
}

/// The Steam app id `r` holds is the one `About.xml` gave, if any.
pub open spec fn steam_id_read(r: ModMetaData, m: MetaParse) -> bool {
    match m.steam_app_id {
        Some(v) => r.steam_app_id matches Some(a) && a@ == v,
        None => r.steam_app_id is None,
    }
}

/// What reading the document `about` gives for the mod in `path`.
pub open spec fn about_read(about: Seq<u8>, path: Seq<char>) -> Result<MetaParse, Seq<char>> {
    about_from(xml_events(about), path, nothing_found(Seq::empty()))
}

/// The mod read from `about` with source `source`, or the error reading gave.
pub open spec fn meta_result(
    r: Result<ModMetaData, String>,
    about: Seq<u8>,
    path: Seq<char>,
    created: Option<i128>,
    modified: Option<i128>,
    source: Source,
) -> bool {
    match about_read(about, path) {
        Ok(m) => r matches Ok(meta) && read_meta(meta, path, created, modified, m) && meta.source == source
            && meta.wf(),
        Err(e) => r matches Err(x) && x@ == e,
    }
}

/// `r` is what `ModMetaData::new` gives for the mod in `path` whose
/// `About.xml` holds `about`, with the given times.
pub open spec fn new_gives(
    r: Result<ModMetaData, String>,
    path: Seq<char>,
    about: Seq<u8>,
    created: Option<i128>,
    modified: Option<i128>,
) -> bool {
    &&& meta_result(r, about, path, created, modified, Source::Unknown)
    &&& r matches Ok(meta) ==> steam_id_read(meta, about_read(about, path)->Ok_0)
}

/// `r` with the source of the mod it holds set to `source`.
pub open spec fn with_source(r: Result<ModMetaData, String>, source: Source) -> Result<ModMetaData, String> {
    match r {
        Ok(m) => Ok(ModMetaData { source, ..m }),
        Err(e) => Err(e),
    }
}

/// What `new` gives, with the source set to any `source`, is a reading of
/// the same document from that source: together with the `ensures` of
/// `new_official` and `new_local`, their results are exactly those of `new`
/// with the source set.
pub proof fn law_reading_with_source(
    r0: Result<ModMetaData, String>,
    path: Seq<char>,
    about: Seq<u8>,
    created: Option<i128>,
    modified: Option<i128>,
    source: Source,
)
    requires
        new_gives(r0, path, about, created, modified),
    ensures
        meta_result(with_source(r0, source), about, path, created, modified, source),
        with_source(r0, source) matches Ok(m) ==> steam_id_read(m, about_read(about, path)->Ok_0),
        with_source(r0, source) is Err <==> r0 is Err,
{
}

impl ModMetaData {
    /// The mod in the directory `path`, whose `About/About.xml` holds `about`,
    /// created and last modified at the given times: its metadata is read from
    /// the document; its source is not known yet.
    pub fn new(path: &str, about: &[u8], created: Option<i128>, modified: Option<i128>) -> (r: Result<
        Self,
        String,
    >)
        ensures
            meta_result(r, about@, path@, created, modified, Source::Unknown),
            r matches Ok(meta) ==> steam_id_read(meta, about_read(about@, path@)->Ok_0),
            new_gives(r, path@, about@, created, modified),
    {
        let mut mod_meta = ModMetaData::default();
        mod_meta.path = path.to_owned();
        mod_meta.created = created;
        mod_meta.modified = modified;
        assert(mod_meta.authors.deep_view() =~= Seq::<Seq<char>>::empty());
        let events = create_reader(about);
        match parse_mod_metadata(events, &mut mod_meta) {
            Ok(_) => Ok(mod_meta),
            Err(e) => Err(e),
        }
    }

    /// An official mod (the core or an expansion), read as `new` reads it.
    pub fn new_official(path: &str, about: &[u8], created: Option<i128>, modified: Option<i128>) -> (r: Result<
        Self,
        String,
    >)
        ensures
            meta_result(r, about@, path@, created, modified, Source::Official),
            r matches Ok(meta) ==> steam_id_read(meta, about_read(about@, path@)->Ok_0),
            exists|r0: Result<ModMetaData, String>|
                #[trigger] new_gives(r0, path@, about@, created, modified) && r == with_source(r0, Source::Official),
    {
        let r0 = Self::new(path, about, created, modified);
        let ghost g = r0;
        match r0 {
            Ok(mut mod_meta) => {
                mod_meta.source = Source::Official;
                assert(Ok::<ModMetaData, String>(mod_meta) == with_source(g, Source::Official));
                Ok(mod_meta)
            },
            Err(e) => Err(e),
        }
    }

    /// A mod installed by hand, read as `new` reads it.
    pub fn new_local(path: &str, about: &[u8], created: Option<i128>, modified: Option<i128>) -> (r: Result<
        Self,
        String,
    >)
        ensures
            meta_result(r, about@, path@, created, modified, Source::Local),
            r matches Ok(meta) ==> steam_id_read(meta, about_read(about@, path@)->Ok_0),
            exists|r0: Result<ModMetaData, String>|
                #[trigger] new_gives(r0, path@, about@, created, modified) && r == with_source(r0, Source::Local),
    {
        let r0 = Self::new(path, about, created, modified);
        let ghost g = r0;
        match r0 {
            Ok(mut mod_meta) => {
                mod_meta.source = Source::Local;
                assert(Ok::<ModMetaData, String>(mod_meta) == with_source(g, Source::Local));
                Ok(mod_meta)
            },
            Err(e) => Err(e),
        }
    }

    /// A mod from the Steam workshop, read as `new` reads it. Without a
    /// `steamAppId` in `About.xml`, the name of its directory (the workshop
    /// item's number) is taken as its Steam app id.
    pub fn new_steam(path: &str, about: &[u8], created: Option<i128>, modified: Option<i128>) -> (r: Result<
        Self,
        String,
    >)
        ensures
            meta_result(r, about@, path@, created, modified, Source::Steam),
            r matches Ok(meta) ==> {
                let m = about_read(about@, path@)->Ok_0;
                if m.steam_app_id is Some {
                    steam_id_read(meta, m)
                } else {
                    name_found_in(meta.steam_app_id, path@)
                }
            },
            exists|r0: Result<ModMetaData, String>|
                #[trigger] new_gives(r0, path@, about@, created, modified) && match (r0, r) {
                    (Ok(m0), Ok(m)) => m == ModMetaData { source: Source::Steam, steam_app_id: m.steam_app_id, ..m0 }
                        && (m0.steam_app_id is Some ==> m.steam_app_id == m0.steam_app_id),
                    (Err(e0), Err(e)) => e == e0,
                    _ => false,
                },
    {
        let r0 = Self::new(path, about, created, modified);
        let ghost g = r0;
        match r0 {
            Ok(mut mod_meta) => {
                mod_meta.source = Source::Steam;
                if mod_meta.steam_app_id.is_none() {
                    mod_meta.steam_app_id = file_name(mod_meta.path.as_str());
                }
                Ok(mod_meta)
            },
            Err(e) => Err(e),
        }
    }

    /// The mod's `About/About.xml`.
    pub fn about_file_path(&self) -> (r: String)
        ensures
            exists|about: Seq<char>| join_of(self.path@, "About"@, about) && #[trigger] join_of(about, "About.xml"@, r@),
    {
        mod_about_file(self.path.as_str())
    }

    /// The mod's preview image.
    pub fn preview_file_path(&self) -> (r: String)
        ensures
            exists|about: Seq<char>| join_of(self.path@, "About"@, about) && #[trigger] join_of(about, "Preview.png"@, r@),
    {
        mod_preview_file(self.path.as_str())
    }

    /// The mod's icon.
    pub fn icon_file_path(&self) -> (r: String)
        ensures
            exists|about: Seq<char>| join_of(self.path@, "About"@, about) && #[trigger] join_of(about, "ModIcon.png"@, r@),
    {
        mod_icon_file(self.path.as_str())
    }
}

} // verus!
