//! Installed mods. `ModMeta` is the first, smaller reading of `About.xml`
//! (id, name, authors and description); `meta` holds the full one.
use crate::game::mods::meta::parser::author_pieces;
use crate::game::paths::{after_last_slash, file_name, name_found_in, ordinary_path, plain_name};
use crate::game::xml::{create_reader, is_terminal, is_terminal_event, xml_events, EventView, XmlEvent, XmlEvents};
use crate::text::{eq_ignore_ascii_case, eq_ignore_case, split_char, trim};
use vstd::prelude::*;

pub mod config;
pub mod issue;
pub mod issues;
pub mod meta;
pub mod sort;

verus! {

/// Where a mod comes from.
#[derive(Debug, Clone)]
pub enum Source {
    Unknown,
    Local,
    /// A Steam workshop item, with its number.
    Steam { id: String },
}

impl Default for Source {
    fn default() -> (r: Self)
        ensures
            r is Unknown,
    {
        Source::Unknown
    }
}

impl Source {
    pub fn is_local(&self) -> (r: bool)
        ensures
            r == (self is Local),
    {
        match self {
            Source::Local => true,
            _ => false,
        }
    }

    pub fn is_steam(&self) -> (r: bool)
        ensures
            r == (self is Steam),
    {
        match self {
            Source::Steam { .. } => true,
            _ => false,
        }
    }
}

/// A mod as first read: its id, name, authors and description.
#[derive(Debug)]
pub struct ModMeta {
    pub id: String,
    pub name: String,
    pub authors: Vec<String>,
    pub description: String,
    pub path: String,
    pub source: Source,
}

/// What is read of a mod: id, name, authors, description.
pub type ModMetaView = (Seq<char>, Seq<char>, Seq<Seq<char>>, Seq<char>);

/// The text elements read into a mod.
#[derive(Debug, Clone, Copy, PartialEq, Eq, Structural)]
pub enum TextField {
    Id,
    Name,
    Author,
    Description,
}

/// Where the reading of `About.xml` stands: outside `modMetaData`, inside it,
/// inside a text element (the field it fills, its name), inside `authors`,
/// inside one of its `li`, or inside another element (its name), which is
/// passed over up to the first end tag of the same name.
pub enum ReadMode {
    Root,
    Meta,
    Text(TextField, String),
    Authors,
    AuthorLi,
    Skip(String),
}

/// A `ReadMode` with its names taken as character sequences.
pub enum ModeView {
    Root,
    Meta,
    Text(TextField, Seq<char>),
    Authors,
    AuthorLi,
    Skip(Seq<char>),
}

impl View for ReadMode {
    type V = ModeView;

    open spec fn view(&self) -> ModeView {
        match self {
            ReadMode::Root => ModeView::Root,
            ReadMode::Meta => ModeView::Meta,
            ReadMode::Text(f, n) => ModeView::Text(*f, n@),
            ReadMode::Authors => ModeView::Authors,
            ReadMode::AuthorLi => ModeView::AuthorLi,
            ReadMode::Skip(n) => ModeView::Skip(n@),
        }
    }
}

/// The field `f` after reading the text `c` in its element: the id is
/// replaced, the name and description extended, the authors extended by the
/// comma-separated, trimmed names.
pub open spec fn fill(f: TextField, c: Seq<char>, m: ModMetaView) -> ModMetaView {
    match f {
        TextField::Id => (c, m.1, m.2, m.3),
        TextField::Name => (m.0, m.1 + c, m.2, m.3),
        TextField::Author => (m.0, m.1, m.2 + author_pieces(c), m.3),
        TextField::Description => (m.0, m.1, m.2, m.3 + c),
    }
}

/// The element a child of `modMetaData` named `n` opens.
pub open spec fn child_mode(n: Seq<char>) -> ModeView {
    if eq_ignore_case(n, "packageId"@) {
        ModeView::Text(TextField::Id, n)
    } else if eq_ignore_case(n, "name"@) {
        ModeView::Text(TextField::Name, n)
    } else if eq_ignore_case(n, "author"@) {
        ModeView::Text(TextField::Author, n)
    } else if eq_ignore_case(n, "description"@) {
        ModeView::Text(TextField::Description, n)
    } else if eq_ignore_case(n, "authors"@) {
        ModeView::Authors
    } else {
        ModeView::Skip(n)
    }
}

/// One event read in `mode` with `m` read so far: the next mode and what is read.
pub open spec fn read_step(e: EventView, mode: ModeView, m: ModMetaView) -> (ModeView, ModMetaView) {
    match mode {
        ModeView::Root => match e {
            EventView::StartElement(n) => if eq_ignore_case(n, "modMetaData"@) {
                (ModeView::Meta, m)
            } else {
                (mode, m)
            },
            _ => (mode, m),
        },
        ModeView::Meta => match e {
            EventView::EndElement(n) => if eq_ignore_case(n, "modMetaData"@) {
                (ModeView::Root, m)
            } else {
                (mode, m)
            },
            EventView::StartElement(n) => (child_mode(n), m),
            _ => (mode, m),
        },
        ModeView::Text(f, name) => match e {
            EventView::EndElement(n) => if eq_ignore_case(n, name) {
                (ModeView::Meta, m)
            } else {
                (mode, m)
            },
            EventView::Characters(c) => (mode, fill(f, c, m)),
            _ => (mode, m),
        },
        ModeView::Authors => match e {
            EventView::EndElement(n) => if eq_ignore_case(n, "authors"@) {
                (ModeView::Meta, m)
            } else {
                (mode, m)
            },
            EventView::StartElement(n) => if eq_ignore_case(n, "li"@) {
                (ModeView::AuthorLi, m)
            } else {
                (mode, m)
            },
            _ => (mode, m),
        },
        ModeView::AuthorLi => match e {
            EventView::EndElement(n) => if eq_ignore_case(n, "li"@) {
                (ModeView::Authors, m)
            } else {
                (mode, m)
            },
            EventView::Characters(a) => (mode, (m.0, m.1, m.2.push(a), m.3)),
            _ => (mode, m),
        },
        ModeView::Skip(name) => match e {
            EventView::EndElement(n) => if eq_ignore_case(n, name) {
                (ModeView::Meta, m)
            } else {
                (mode, m)
            },
            _ => (mode, m),
        },
    }
}

/// Reading the events `s` in `mode` with `m` read so far; the end of the
/// document, or an error, ends the reading with what was read.
pub open spec fn read_from(s: Seq<EventView>, mode: ModeView, m: ModMetaView) -> ModMetaView
    decreases s.len(),
{
    if s.len() == 0 || is_terminal(s[0]) {
        m
    } else {
        let (mode2, m2) = read_step(s[0], mode, m);
        read_from(s.drop_first(), mode2, m2)
    }
}

/// What reading the document `about` gives.
pub open spec fn read_about(about: Seq<u8>) -> ModMetaView {
    read_from(xml_events(about), ModeView::Root, (Seq::empty(), Seq::empty(), Seq::empty(), Seq::empty()))
}

impl ModMeta {
    /// What was read of the mod.
    pub open spec fn read(&self) -> ModMetaView {
        (self.id@, self.name@, self.authors.deep_view(), self.description@)
    }

    pub fn is_local(&self) -> (r: bool)
        ensures
            r == (self.source is Local),
    {
        self.source.is_local()
    }

    pub fn is_steam(&self) -> (r: bool)
        ensures
            r == (self.source is Steam),
    {
        self.source.is_steam()
    }
}

/// The mode a child of `modMetaData` named `n` opens.
fn child_mode_of(n: String) -> (r: ReadMode)
    ensures
        r@ == child_mode(n@),
{
    if eq_ignore_ascii_case(n.as_str(), "packageId") {
        ReadMode::Text(TextField::Id, n)
    } else if eq_ignore_ascii_case(n.as_str(), "name") {
        ReadMode::Text(TextField::Name, n)
    } else if eq_ignore_ascii_case(n.as_str(), "author") {
        ReadMode::Text(TextField::Author, n)
    } else if eq_ignore_ascii_case(n.as_str(), "description") {
        ReadMode::Text(TextField::Description, n)
    } else if eq_ignore_ascii_case(n.as_str(), "authors") {
        ReadMode::Authors
    } else {
        ReadMode::Skip(n)
    }
}

/// Fills a field of `meta` with the text `c`.
fn fill_field(f: TextField, c: String, meta: &mut ModMeta)
    ensures
        final(meta).read() == fill(f, c@, old(meta).read()),
        final(meta).path == old(meta).path,
        final(meta).source == old(meta).source,
{
    match f {
        TextField::Id => {
            meta.id = c;
        },
        TextField::Name => {
            meta.name.append(c.as_str());
        },
        TextField::Author => {
            let pieces = split_char(c.as_str(), ',');
            let ghost start = meta.authors.deep_view();
            let ghost m0 = *meta;
            let mut i: usize = 0;
            while i < pieces.len()
                invariant
                    i <= pieces.len(),
                    meta.id == m0.id,
                    meta.name == m0.name,
                    meta.description == m0.description,
                    meta.path == m0.path,
                    meta.source == m0.source,
                    pieces.deep_view() == crate::text::split_seq(c@, ','),
                    meta.authors.deep_view() == start + author_pieces(c@).take(i as int),
                decreases pieces.len() - i,
            {
                let ghost before = meta.authors.deep_view();
                let piece = trim(pieces[i].as_str());
                meta.authors.push(piece);
                assert(meta.authors.deep_view() =~= before.push(piece@));
                assert(start + author_pieces(c@).take(i + 1) =~= (start + author_pieces(c@).take(i as int)).push(
                    piece@,
                ));
                i = i + 1;
            }
            assert(author_pieces(c@).take(pieces.len() as int) =~= author_pieces(c@));
        },
        TextField::Description => {
            meta.description.append(c.as_str());
        },
    }
}

/// Reads one event in `mode` into `meta`; returns the next mode.
fn read_event(e: XmlEvent, mode: ReadMode, meta: &mut ModMeta) -> (r: ReadMode)
    ensures
        (r@, final(meta).read()) == read_step(e@, mode@, old(meta).read()),
        final(meta).path == old(meta).path,
        final(meta).source == old(meta).source,
{
    match mode {
        ReadMode::Root => match e {
            XmlEvent::StartElement(n) => if eq_ignore_ascii_case(n.as_str(), "modMetaData") {
                ReadMode::Meta
            } else {
                ReadMode::Root
            },
            _ => ReadMode::Root,
        },
        ReadMode::Meta => match e {
            XmlEvent::EndElement(n) => if eq_ignore_ascii_case(n.as_str(), "modMetaData") {
                ReadMode::Root
            } else {
                ReadMode::Meta
            },
            XmlEvent::StartElement(n) => child_mode_of(n),
            _ => ReadMode::Meta,
        },
        ReadMode::Text(f, name) => match e {
            XmlEvent::EndElement(n) => if eq_ignore_ascii_case(n.as_str(), name.as_str()) {
                ReadMode::Meta
            } else {
                ReadMode::Text(f, name)
            },
            XmlEvent::Characters(c) => {
                fill_field(f, c, meta);
                ReadMode::Text(f, name)
            },
            _ => ReadMode::Text(f, name),
        },
        ReadMode::Authors => match e {
            XmlEvent::EndElement(n) => if eq_ignore_ascii_case(n.as_str(), "authors") {
                ReadMode::Meta
            } else {
                ReadMode::Authors
            },
            XmlEvent::StartElement(n) => if eq_ignore_ascii_case(n.as_str(), "li") {
                ReadMode::AuthorLi
            } else {
                ReadMode::Authors
            },
            _ => ReadMode::Authors,
        },
        ReadMode::AuthorLi => match e {
            XmlEvent::EndElement(n) => if eq_ignore_ascii_case(n.as_str(), "li") {
                ReadMode::Authors
            } else {
                ReadMode::AuthorLi
            },
            XmlEvent::Characters(a) => {
                let ghost before = meta.authors.deep_view();
                meta.authors.push(a);
                assert(meta.authors.deep_view() =~= before.push(a@));
                ReadMode::AuthorLi
            },
            _ => ReadMode::AuthorLi,
        },
        ReadMode::Skip(name) => match e {
            XmlEvent::EndElement(n) => if eq_ignore_ascii_case(n.as_str(), name.as_str()) {
                ReadMode::Meta
            } else {
                ReadMode::Skip(name)
            },
            _ => ReadMode::Skip(name),
        },
    }
}

impl ModMeta {
    /// The mod in the directory `path`, read from its `About.xml`, whose
    /// contents are `about`; `None` when the file could not be read. Reading
    /// never fails: an error in the document ends it with what was read.
    pub fn new(path: &str, about: Option<&[u8]>) -> (r: Option<ModMeta>)
        ensures
            match about {
                None => r is None,
                Some(bytes) => r matches Some(m) && m.read() == read_about(bytes@) && m.path@ == path@
                    && m.source is Unknown,
            },
    {
        let bytes = match about {
            Some(b) => b,
            None => {
                return None;
            },
        };
        let mut meta = ModMeta {
            id: String::new(),
            name: String::new(),
            authors: Vec::new(),
            description: String::new(),
            path: path.to_owned(),
            source: Source::Unknown,
        };
        assert(meta.authors.deep_view() =~= Seq::<Seq<char>>::empty());
        let mut events: XmlEvents = create_reader(bytes);
        let ghost all = events@;
        let mut mode = ReadMode::Root;
        loop
            invariant
                read_from(all, ModeView::Root, (Seq::empty(), Seq::empty(), Seq::empty(), Seq::empty())) == read_from(
                    events@,
                    mode@,
                    meta.read(),
                ),
                meta.path@ == path@,
                meta.source is Unknown,
            ensures
                read_from(all, ModeView::Root, (Seq::empty(), Seq::empty(), Seq::empty(), Seq::empty())) == meta.read(),
                meta.path@ == path@,
                meta.source is Unknown,
            decreases events@.len(),
        {
            events.check();
            let e = events.next();
            if is_terminal_event(&e) {
                break;
            }
            mode = read_event(e, mode, &mut meta);
        }
        Some(meta)
    }

    /// A mod installed by hand, read as `new` reads it.
    pub fn new_local(path: &str, about: Option<&[u8]>) -> (r: Option<ModMeta>)
        ensures
            match about {
                None => r is None,
                Some(bytes) => r matches Some(m) && m.read() == read_about(bytes@) && m.path@ == path@
                    && m.source is Local,
            },
    {
        match ModMeta::new(path, about) {
            Some(mut m) => {
                m.source = Source::Local;
                Some(m)
            },
            None => None,
        }
    }

    /// A mod from the Steam workshop, read as `new` reads it; its source holds
    /// the name of its directory (the workshop item's number), and there is
    /// no mod when that name cannot be had.
    pub fn new_steam(path: &str, about: Option<&[u8]>) -> (r: Option<ModMeta>)
        ensures
            about is None ==> r is None,
            r matches Some(m) ==> about matches Some(bytes) && m.read() == read_about(bytes@) && m.path@ == path@
                && (m.source matches Source::Steam { id } && name_found_in(Some(id), path@)),
            about is Some && ordinary_path(path@) && plain_name(after_last_slash(path@)) ==> (r matches Some(m)
                && m.source matches Source::Steam { id } && id@ == after_last_slash(path@)),
    {
        match ModMeta::new(path, about) {
            Some(mut m) => {
                match file_name(m.path.as_str()) {
                    Some(dir_name) => {
                        m.source = Source::Steam { id: dir_name };
                        Some(m)
                    },
                    None => None,
                }
            },
            None => None,
        }
    }
}

} // verus!
