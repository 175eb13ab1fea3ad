//! The game's `ModsConfig.xml`: which mods are active, in which order, and
//! which expansions the game knows.
use crate::collections::clone_strings;
use crate::game::xml::{
    create_reader, end_of_document, is_terminal, is_terminal_event, lemma_list_suffix, lemma_skip_suffix,
    lemma_suffix_drop, lemma_suffix_trans, lemma_text_suffix, list_from, parse_error, parse_error_text,
    parse_string_collection, parse_text_element, skip_element, skip_from, suffix_of, terminal_cause,
    terminal_cause_text, text_from, xml_events, EventView, ParseResult, XmlEvent, XmlEvents,
};
use crate::text::{decimal, decimal_string, eq_ignore_ascii_case, eq_ignore_case, lower_seq, to_ascii_lowercase};
use xml::writer::XmlEvent as WriterEvent;
use vstd::prelude::*;

verus! {

/// The contents of `ModsConfig.xml`.
#[derive(Debug)]
pub struct ModsConfigData {
    pub version: String,
    pub active_mods: Vec<String>,
    pub known_expansions: Vec<String>,
}

/// The contents of a mods config as text: version, active mods, known expansions.
pub type ConfigView = (Seq<char>, Seq<Seq<char>>, Seq<Seq<char>>);

impl ModsConfigData {
    /// The contents as text.
    pub open spec fn view_of(&self) -> ConfigView {
        (self.version@, self.active_mods.deep_view(), self.known_expansions.deep_view())
    }
}

impl Default for ModsConfigData {
    fn default() -> (r: Self)
        ensures
            r.view_of() == (Seq::<char>::empty(), Seq::<Seq<char>>::empty(), Seq::<Seq<char>>::empty()),
    {
        let r = ModsConfigData { version: String::new(), active_mods: Vec::new(), known_expansions: Vec::new() };
        assert(r.active_mods.deep_view() =~= Seq::<Seq<char>>::empty());
        assert(r.known_expansions.deep_view() =~= Seq::<Seq<char>>::empty());
        r
    }
}

/// Reading one child named `n` of `ModsConfigData` (the events after its
/// start tag), with `c` read so far.
pub open spec fn config_child(t: Seq<EventView>, path: Seq<char>, n: Seq<char>, c: ConfigView) -> (
    Result<ConfigView, Seq<char>>,
    Seq<EventView>,
) {
    if eq_ignore_case(n, "activeMods"@) {
        match list_from(t, path, n, Seq::empty()) {
            (Ok(v), rest) => (Ok((c.0, v, c.2)), rest),
            (Err(e), rest) => (Err(e), rest),
        }
    } else if eq_ignore_case(n, "knownExpansions"@) {
        match list_from(t, path, n, Seq::empty()) {
            (Ok(v), rest) => (Ok((c.0, c.1, v)), rest),
            (Err(e), rest) => (Err(e), rest),
        }
    } else if eq_ignore_case(n, "version"@) {
        match text_from(t, path, n, Seq::empty()) {
            (Ok(v), rest) => (Ok((v, c.1, c.2)), rest),
            (Err(e), rest) => (Err(e), rest),
        }
    } else {
        match skip_from(t, 1) {
            (Ok(_), rest) => (Ok(c), rest),
            (Err(e), rest) => (Err(e), rest),
        }
    }
}

/// Reading the children of `ModsConfigData` up to its end tag, `c` read so far.
pub open spec fn config_from(s: Seq<EventView>, path: Seq<char>, c: ConfigView) -> (
    Result<ConfigView, Seq<char>>,
    Seq<EventView>,
)
    decreases s.len(),
{
    if s.len() == 0 {
        (Err(parse_error("modsConfigData"@, path, end_of_document())), s)
    } else if is_terminal(s[0]) {
        (Err(parse_error("modsConfigData"@, path, terminal_cause(s[0]))), s)
    } else {
        match s[0] {
            EventView::StartElement(n) => {
                let (r, rest) = config_child(s.drop_first(), path, n, c);
                match r {
                    Err(e) => (Err(e), rest),
                    Ok(c2) => if rest.len() < s.len() {
                        config_from(rest, path, c2)
                    } else {
                        (Ok(c2), rest)
                    },
                }
            },
            EventView::EndElement(n) => if eq_ignore_case(n, "ModsConfigData"@) {
                (Ok(c), s.drop_first())
            } else {
                config_from(s.drop_first(), path, c)
            },
            _ => config_from(s.drop_first(), path, c),
        }
    }
}

/// Reading a whole `ModsConfig.xml`: every `ModsConfigData` element is read
/// in turn, other elements are skipped; the end of the document ends the read.
pub open spec fn config_document(s: Seq<EventView>, path: Seq<char>, c: ConfigView) -> Result<
    ConfigView,
    Seq<char>,
>
    decreases s.len(),
{
    if s.len() == 0 {
        Ok(c)
    } else {
        match s[0] {
            EventView::EndDocument => Ok(c),
            EventView::Error(msg) => Err(parse_error("root event"@, path, msg)),
            EventView::StartElement(n) => {
                let (r, rest) = if eq_ignore_case(n, "ModsConfigData"@) {
                    config_from(s.drop_first(), path, c)
                } else {
                    match skip_from(s.drop_first(), 1) {
                        (Ok(_), rest) => (Ok(c), rest),
                        (Err(e), rest) => (Err(e), rest),
                    }
                };
                match r {
                    Err(e) => Err(e),
                    Ok(c2) => if rest.len() < s.len() {
                        config_document(rest, path, c2)
                    } else {
                        Ok(c2)
                    },
                }
            },
            _ => config_document(s.drop_first(), path, c),
        }
    }
}

/// An empty config.
pub open spec fn empty_config() -> ConfigView {
    (Seq::empty(), Seq::empty(), Seq::empty())
}

proof fn lemma_config_child_suffix(t: Seq<EventView>, path: Seq<char>, n: Seq<char>, c: ConfigView)
    ensures
        suffix_of(config_child(t, path, n, c).1, t),
{
    lemma_text_suffix(t, path, n, Seq::empty());
    lemma_list_suffix(t, path, n, Seq::empty());
    lemma_skip_suffix(t, 1);
}

proof fn lemma_config_suffix(s: Seq<EventView>, path: Seq<char>, c: ConfigView)
    ensures
        suffix_of(config_from(s, path, c).1, s),
    decreases s.len(),
{
    let res = config_from(s, path, c).1;
    if s.len() == 0 || is_terminal(s[0]) {
        assert(s =~= s.skip(0));
    } else {
        lemma_suffix_drop(s);
        let t = s.drop_first();
        match s[0] {
            EventView::StartElement(n) => {
                lemma_config_child_suffix(t, path, n, c);
                let (r, rest) = config_child(t, path, n, c);
                lemma_suffix_trans(rest, t, s);
                if r is Ok && rest.len() < s.len() {
                    lemma_config_suffix(rest, path, r->Ok_0);
                    lemma_suffix_trans(res, rest, s);
                }
            },
            EventView::EndElement(n) => if !eq_ignore_case(n, "ModsConfigData"@) {
                lemma_config_suffix(t, path, c);
                lemma_suffix_trans(res, t, s);
            },
            _ => {
                lemma_config_suffix(t, path, c);
                lemma_suffix_trans(res, t, s);
            },
        }
    }
}

/// Reads one child named `name` of `ModsConfigData` into `config`.
fn parse_config_child(events: &mut XmlEvents, path: &str, name: &str, config: &mut ModsConfigData) -> (r:
    ParseResult<()>)
    ensures
        config_child(old(events)@, path@, name@, old(config).view_of()).1 == final(events)@,
        match config_child(old(events)@, path@, name@, old(config).view_of()).0 {
            Ok(c) => r is Ok && final(config).view_of() == c,
            Err(e) => r is Err && r->Err_0@ == e,
        },
{
    if eq_ignore_ascii_case(name, "activeMods") {
        match parse_string_collection(events, path, name) {
            Ok(items) => {
                config.active_mods = items;
                Ok(())
            },
            Err(e) => Err(e),
        }
    } else if eq_ignore_ascii_case(name, "knownExpansions") {
        match parse_string_collection(events, path, name) {
            Ok(items) => {
                config.known_expansions = items;
                Ok(())
            },
            Err(e) => Err(e),
        }
    } else if eq_ignore_ascii_case(name, "version") {
        match parse_text_element(events, path, name) {
            Ok(t) => {
                config.version = t;
                Ok(())
            },
            Err(e) => Err(e),
        }
    } else {
        skip_element(events)
    }
}

/// Reads the children of a `ModsConfigData` element into `config`, up to its
/// end tag.
fn parse_mods_config_data(events: &mut XmlEvents, path: &str, config: &mut ModsConfigData) -> (r:
    ParseResult<()>)
    ensures
        config_from(old(events)@, path@, old(config).view_of()).1 == final(events)@,
        match config_from(old(events)@, path@, old(config).view_of()).0 {
            Ok(c) => r is Ok && final(config).view_of() == c,
            Err(e) => r is Err && r->Err_0@ == e,
        },
{
    let ghost orig = events@;
    let ghost c0 = config.view_of();
    proof {
        lemma_config_suffix(orig, path@, c0);
    }
    loop
        invariant
            orig == old(events)@,
            c0 == old(config).view_of(),
            config_from(orig, path@, c0) == config_from(events@, path@, config.view_of()),
            suffix_of(config_from(orig, path@, c0).1, orig),
        decreases events@.len(),
    {
        events.check();
        let ghost cur = events@;
        proof {
            lemma_suffix_drop(cur);
        }
        let e = events.next();
        if is_terminal_event(&e) {
            let cause = terminal_cause_text(&e);
            return Err(parse_error_text("modsConfigData", path, cause.as_str()));
        }
        match e {
            XmlEvent::StartElement(name) => {
                let ghost t = events@;
                proof {
                    lemma_config_child_suffix(t, path@, name@, config.view_of());
                }
                match parse_config_child(events, path, name.as_str(), config) {
                    Err(err) => {
                        return Err(err);
                    },
                    Ok(_) => {
                        proof {
                            lemma_suffix_trans(events@, t, cur);
                        }
                    },
                }
            },
            XmlEvent::EndElement(name) => {
                if eq_ignore_ascii_case(name.as_str(), "ModsConfigData") {
                    return Ok(());
                }
            },
            _ => {},
        }
    }
}

/// Reads a whole `ModsConfig.xml` from its events; `path` names the file in
/// error messages.
pub fn parse_mods_config(events: XmlEvents, path: &str) -> (r: ParseResult<ModsConfigData>)
    ensures
        match config_document(events@, path@, empty_config()) {
            Ok(c) => r matches Ok(config) && config.view_of() == c,
            Err(e) => r matches Err(x) && x@ == e,
        },
{
    let mut stream = events;
    let ghost orig = stream@;
    let mut config = ModsConfigData::default();
    loop
        invariant
            orig == events@,
            config_document(orig, path@, empty_config()) == config_document(stream@, path@, config.view_of()),
        decreases stream@.len(),
    {
        stream.check();
        let ghost cur = stream@;
        proof {
            lemma_suffix_drop(cur);
        }
        let e = stream.next();
        match e {
            XmlEvent::EndDocument => {
                return Ok(config);
            },
            XmlEvent::Error(msg) => {
                return Err(parse_error_text("root event", path, msg.as_str()));
            },
            XmlEvent::StartElement(name) => {
                let ghost t = stream@;
                if eq_ignore_ascii_case(name.as_str(), "ModsConfigData") {
                    proof {
                        lemma_config_suffix(t, path@, config.view_of());
                    }
                    match parse_mods_config_data(&mut stream, path, &mut config) {
                        Err(err) => {
                            return Err(err);
                        },
                        Ok(_) => {
                            proof {
                                lemma_suffix_trans(stream@, t, cur);
                            }
                        },
                    }
                } else {
                    proof {
                        lemma_skip_suffix(t, 1);
                    }
                    match skip_element(&mut stream) {
                        Err(err) => {
                            return Err(err);
                        },
                        Ok(_) => {
                            proof {
                                lemma_suffix_trans(stream@, t, cur);
                            }
                        },
                    }
                }
            },
            _ => {},
        }
    }
}

/// What reading the file contents `bytes` gives.
pub open spec fn config_read(bytes: Seq<u8>, path: Seq<char>) -> Result<ConfigView, Seq<char>> {
    config_document(xml_events(bytes), path, empty_config())
}

impl ModsConfigData {
    /// The mods config in the file at `path`, whose contents are `bytes`;
    /// `None` when they do not parse.
    pub fn load(path: &str, bytes: &[u8]) -> (r: Option<Self>)
        ensures
            match config_read(bytes@, path@) {
                Ok(c) => r matches Some(config) && config.view_of() == c,
                Err(_) => r is None,
            },
    {
        match parse_mods_config(create_reader(bytes), path) {
            Ok(config) => Some(config),
            Err(_) => None,
        }
    }

    /// A copy of the config.
    pub fn duplicate(&self) -> (r: Self)
        ensures
            r.view_of() == self.view_of(),
    {
        ModsConfigData {
            version: self.version.clone(),
            active_mods: clone_strings(&self.active_mods),
            known_expansions: clone_strings(&self.known_expansions),
        }
    }
}

/// An event written to an XML document.
pub enum WriteEvent {
    /// An element starts; its name.
    StartElement(String),
    /// Text.
    Characters(String),
    /// The innermost open element ends.
    EndElement,
}

/// A written event with its text taken as a character sequence.
pub enum WrittenView {
    StartElement(Seq<char>),
    Characters(Seq<char>),
    EndElement,
}

impl View for WriteEvent {
    type V = WrittenView;

    open spec fn view(&self) -> WrittenView {
        match self {
            WriteEvent::StartElement(n) => WrittenView::StartElement(n@),
            WriteEvent::Characters(t) => WrittenView::Characters(t@),
            WriteEvent::EndElement => WrittenView::EndElement,
        }
    }
}

#[verifier::external_type_specification]
#[verifier::external_body]
#[verifier::reject_recursive_types(W)]
pub struct ExEventWriter<W>(xml::writer::EventWriter<W>);

/// The events a writer of xml-rs over a byte buffer has written so far.
pub uninterp spec fn written_events(writer: xml::writer::EventWriter<Vec<u8>>) -> Seq<WrittenView>;

/// The bytes of the indented document, with its declaration, that xml-rs
/// writes for the given events.
pub uninterp spec fn xml_document(events: Seq<WrittenView>) -> Seq<u8>;

/// Creates a writer of xml-rs (`EmitterConfig::create_writer`) over an empty
/// buffer, indenting and writing the document declaration. Claimed: it has
/// written nothing yet.
#[verifier::external_body]
fn new_document_writer() -> (w: xml::writer::EventWriter<Vec<u8>>)
    ensures
        written_events(w) == Seq::<WrittenView>::empty(),
{
    xml::writer::EmitterConfig::new().perform_indent(true).write_document_declaration(true).create_writer(
        Vec::new(),
    )
}

/// How many elements the events leave open: the starts less the ends.
pub open spec fn open_depth(events: Seq<WrittenView>) -> int
    decreases events.len(),
{
    if events.len() == 0 {
        0
    } else {
        open_depth(events.drop_last()) + match events.last() {
            WrittenView::StartElement(_) => 1int,
            WrittenView::Characters(_) => 0int,
            WrittenView::EndElement => -1int,
        }
    }
}

/// Writes one event (`EventWriter::write`), its error shown as text. Claimed,
/// from its source for a writer over a byte buffer made by
/// `new_document_writer`: writing to the buffer cannot fail, and the writer
/// keeps the names of the open elements, so the only failure is an end of
/// element when no element is open (`LastElementNameNotAvailable`); on
/// success the event is added to those written. After a failure nothing is
/// claimed of the writer.
#[verifier::external_body]
fn write_event(writer: &mut xml::writer::EventWriter<Vec<u8>>, event: &WriteEvent) -> (r: Result<(), String>)
    ensures
        r is Ok <==> (event@ !is EndElement || open_depth(written_events(*old(writer))) > 0),
        r is Ok ==> written_events(*final(writer)) == written_events(*old(writer)).push(event@),
{
    let result = match event {
        WriteEvent::StartElement(name) => writer.write(WriterEvent::start_element(name.as_str())),
        WriteEvent::Characters(text) => writer.write(WriterEvent::characters(text.as_str())),
        WriteEvent::EndElement => writer.write(WriterEvent::end_element()),
    };
    result.map_err(|e| e.to_string())
}

/// The bytes a writer has produced (`EventWriter::into_inner`). Claimed: they
/// are the document of the events written.
#[verifier::external_body]
fn finish_document(writer: xml::writer::EventWriter<Vec<u8>>) -> (r: Vec<u8>)
    ensures
        r@ == xml_document(written_events(writer)),
{
    writer.into_inner()
}

/// The events of an element holding text.
pub open spec fn element_events(name: Seq<char>, text: Seq<char>) -> Seq<WrittenView> {
    seq![WrittenView::StartElement(name), WrittenView::Characters(text), WrittenView::EndElement]
}

/// The `li` elements of a list, each item in lower case.
pub open spec fn li_events(items: Seq<Seq<char>>) -> Seq<WrittenView>
    decreases items.len(),
{
    if items.len() == 0 {
        Seq::empty()
    } else {
        li_events(items.drop_last()) + element_events("li"@, lower_seq(items.last()))
    }
}

/// The events of an element holding a list.
pub open spec fn list_events(name: Seq<char>, items: Seq<Seq<char>>) -> Seq<WrittenView> {
    seq![WrittenView::StartElement(name)] + li_events(items) + seq![WrittenView::EndElement]
}

/// The events of a whole mods config.
pub open spec fn config_events(c: ConfigView) -> Seq<WrittenView> {
    seq![WrittenView::StartElement("ModsConfigData"@)] + element_events("version"@, c.0) + list_events(
        "activeMods"@,
        c.1,
    ) + list_events("knownExpansions"@, c.2) + seq![WrittenView::EndElement]
}

fn write_element(writer: &mut xml::writer::EventWriter<Vec<u8>>, element_name: &str, text: &str) -> (r: Result<(), String>)
    requires
        open_depth(written_events(*old(writer))) >= 0,
    ensures
        r is Ok,
        written_events(*final(writer)) == written_events(*old(writer)) + element_events(element_name@, text@),
        open_depth(written_events(*final(writer))) == open_depth(written_events(*old(writer))),
{
    let ghost w0 = written_events(*writer);
    write_event(writer, &WriteEvent::StartElement(element_name.to_owned()))?;
    let ghost w1 = written_events(*writer);
    assert(w1.drop_last() =~= w0);
    assert(open_depth(w1) == open_depth(w0) + 1);
    write_event(writer, &WriteEvent::Characters(text.to_owned()))?;
    let ghost w2 = written_events(*writer);
    assert(w2.drop_last() =~= w1);
    assert(open_depth(w2) == open_depth(w0) + 1);
    write_event(writer, &WriteEvent::EndElement)?;
    let ghost w3 = written_events(*writer);
    assert(w3.drop_last() =~= w2);
    assert(open_depth(w3) == open_depth(w0));
    assert(written_events(*writer) =~= w0 + element_events(element_name@, text@));
    Ok(())
}

fn write_list_element(writer: &mut xml::writer::EventWriter<Vec<u8>>, element_name: &str, items: &[String]) -> (r: Result<
    (),
    String,
>)
    requires
        open_depth(written_events(*old(writer))) >= 0,
    ensures
        r is Ok,
        written_events(*final(writer)) == written_events(*old(writer)) + list_events(
            element_name@,
            items.deep_view(),
        ),
        open_depth(written_events(*final(writer))) == open_depth(written_events(*old(writer))),
{
    let ghost w0 = written_events(*writer);
    write_event(writer, &WriteEvent::StartElement(element_name.to_owned()))?;
    assert(written_events(*writer).drop_last() =~= w0);
    let mut i: usize = 0;
    while i < items.len()
        invariant
            i <= items.len(),
            written_events(*writer) == w0 + seq![WrittenView::StartElement(element_name@)] + li_events(
                items.deep_view().take(i as int),
            ),
            open_depth(written_events(*writer)) == open_depth(w0) + 1,
            open_depth(w0) >= 0,
        decreases items.len() - i,
    {
        let ghost before = written_events(*writer);
        let lowered = to_ascii_lowercase(items[i].as_str());
        write_element(writer, "li", lowered.as_str())?;
        assert(items.deep_view().take(i + 1).drop_last() =~= items.deep_view().take(i as int));
        assert(written_events(*writer) =~= w0 + seq![WrittenView::StartElement(element_name@)] + li_events(
            items.deep_view().take(i + 1),
        ));
        i = i + 1;
    }
    let ghost before_end = written_events(*writer);
    write_event(writer, &WriteEvent::EndElement)?;
    assert(written_events(*writer).drop_last() =~= before_end);
    assert(items.deep_view().take(items.len() as int) =~= items.deep_view());
    assert(written_events(*writer) =~= w0 + list_events(element_name@, items.deep_view()));
    Ok(())
}

fn write_mods_config(writer: &mut xml::writer::EventWriter<Vec<u8>>, config: &ModsConfigData) -> (r: Result<(), String>)
    requires
        open_depth(written_events(*old(writer))) >= 0,
    ensures
        r is Ok,
        written_events(*final(writer)) == written_events(*old(writer)) + config_events(config.view_of()),
        open_depth(written_events(*final(writer))) == open_depth(written_events(*old(writer))),
{
    let ghost w0 = written_events(*writer);
    write_event(writer, &WriteEvent::StartElement("ModsConfigData".to_owned()))?;
    assert(written_events(*writer).drop_last() =~= w0);
    write_element(writer, "version", config.version.as_str())?;
    write_list_element(writer, "activeMods", config.active_mods.as_slice())?;
    write_list_element(writer, "knownExpansions", config.known_expansions.as_slice())?;
    let ghost before_end = written_events(*writer);
    write_event(writer, &WriteEvent::EndElement)?;
    assert(written_events(*writer).drop_last() =~= before_end);
    assert(written_events(*writer) =~= w0 + config_events(config.view_of()));
    Ok(())
}

impl ModsConfigData {
    /// The document to save as `ModsConfig.xml`: an indented document with
    /// its declaration, holding the version, then the active mods and the
    /// known expansions in lower case.
    pub fn save(&self) -> (r: Result<Vec<u8>, String>)
        ensures
            r matches Ok(bytes) && bytes@ == xml_document(config_events(self.view_of())),
    {
        let mut writer = new_document_writer();
        write_mods_config(&mut writer, self)?;
        assert(written_events(writer) =~= config_events(self.view_of()));
        Ok(finish_document(writer))
    }
}

/// The name of the backup of a config file named `stem.extension`, made at
/// `timestamp` (microseconds since the Unix epoch): `stem.timestamp.extension`.
pub open spec fn backup_name(stem: Seq<char>, timestamp: nat, extension: Seq<char>) -> Seq<char> {
    stem + "."@ + decimal(timestamp) + "."@ + extension
}

/// The name of the backup of a config file named `stem.extension`, made at
/// `timestamp` (microseconds since the Unix epoch).
pub fn backup_file_name(stem: &str, timestamp: u128, extension: &str) -> (r: String)
    ensures
        r@ == backup_name(stem@, timestamp as nat, extension@),
{
    let mut name = stem.to_owned();
    name.append(".");
    let digits = decimal_string(timestamp);
    name.append(digits.as_str());
    name.append(".");
    name.append(extension);
    name
}

} // verus!
