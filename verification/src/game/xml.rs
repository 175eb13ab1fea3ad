//! XML documents as a stream of events, and the parsers of the elements the
//! game's files are made of.
use std::collections::VecDeque;

use xml::reader::XmlEvent as ReaderEvent;

use crate::collections::{lemma_empty_holds, StringMap, StringSet};
use crate::game::mods::meta::parser::{
    dependencies_from, dependency_rel, lemma_dependencies_suffix, parse_mod_dependencies, DependencyView,
};
use crate::game::mods::meta::ModDependency;
use crate::text::{eq_ignore_ascii_case, eq_ignore_case};
use vstd::prelude::*;

verus! {

/// One event of an XML document, as the reader reports it.
#[derive(Debug)]
pub enum XmlEvent {
    StartDocument,
    EndDocument,
    ProcessingInstruction,
    /// An element starts; its local name.
    StartElement(String),
    /// An element ends; its local name.
    EndElement(String),
    CData(String),
    Comment(String),
    Characters(String),
    Whitespace(String),
    /// The reader failed; its message.
    Error(String),
}

/// An `XmlEvent` with its strings taken as character sequences.
pub enum EventView {
    StartDocument,
    EndDocument,
    ProcessingInstruction,
    StartElement(Seq<char>),
    EndElement(Seq<char>),
    CData(Seq<char>),
    Comment(Seq<char>),
    Characters(Seq<char>),
    Whitespace(Seq<char>),
    Error(Seq<char>),
}

impl View for XmlEvent {
    type V = EventView;

    open spec fn view(&self) -> EventView {
        match self {
            XmlEvent::StartDocument => EventView::StartDocument,
            XmlEvent::EndDocument => EventView::EndDocument,
            XmlEvent::ProcessingInstruction => EventView::ProcessingInstruction,
            XmlEvent::StartElement(s) => EventView::StartElement(s@),
            XmlEvent::EndElement(s) => EventView::EndElement(s@),
            XmlEvent::CData(s) => EventView::CData(s@),
            XmlEvent::Comment(s) => EventView::Comment(s@),
            XmlEvent::Characters(s) => EventView::Characters(s@),
            XmlEvent::Whitespace(s) => EventView::Whitespace(s@),
            XmlEvent::Error(s) => EventView::Error(s@),
        }
    }
}

/// The views of a sequence of events.
pub open spec fn views(s: Seq<XmlEvent>) -> Seq<EventView> {
    s.map_values(|e: XmlEvent| e@)
}

/// The reader stops at the end of the document or at its first error.
pub open spec fn is_terminal(e: EventView) -> bool {
    e is EndDocument || e is Error
}

/// A stream the reader can produce: it ends at its first terminal event.
pub open spec fn stream_wf(s: Seq<EventView>) -> bool {
    &&& s.len() > 0
    &&& is_terminal(s.last())
    &&& forall|i: int| 0 <= i < s.len() - 1 ==> !is_terminal(#[trigger] s[i])
}

/// The events of the document in `bytes`, read with white space and CDATA
/// taken as characters, comments dropped and adjacent characters joined,
/// up to and including the end of the document or the reader's first error.
pub uninterp spec fn xml_events(bytes: Seq<u8>) -> Seq<EventView>;

/// The events `reader` has still to produce, up to and including the end of the
/// document or its first error.
pub uninterp spec fn pending_events(source: EventSource) -> Seq<EventView>;

/// A reader of xml-rs over its own copy of the bytes of a document; what it
/// has still to produce is `pending_events`.
#[verifier::external_body]
pub struct EventSource {
    reader: xml::reader::EventReader<VecDeque<u8>>,
}

/// Creates the reader of xml-rs (`EventReader::new_with_config`) on a copy of
/// `bytes`, configured as `xml_events` says. Claimed: the reader will produce
/// the events `xml_events` names for these bytes, and that sequence ends at
/// its first terminal event.
#[verifier::external_body]
fn open_reader(bytes: &[u8]) -> (r: EventSource)
    ensures
        pending_events(r) == xml_events(bytes@),
        stream_wf(pending_events(r)),
{
    let config = xml::reader::ParserConfig::new().whitespace_to_characters(true).cdata_to_characters(
        true,
    ).ignore_comments(true).coalesce_characters(true);
    EventSource { reader: xml::reader::EventReader::new_with_config(VecDeque::from(bytes.to_vec()), config) }
}

/// Pulls the next event from the reader of xml-rs (`EventReader::next`),
/// taking the local name of elements and the message of an error. Claimed:
/// the event is the first pending one, and the reader then has the rest
/// pending.
#[verifier::external_body]
fn pull_event(reader: &mut EventSource) -> (e: XmlEvent)
    requires
        pending_events(*old(reader)).len() > 0,
    ensures
        e@ == pending_events(*old(reader))[0],
        pending_events(*final(reader)) == pending_events(*old(reader)).drop_first(),
{
    match reader.reader.next() {
        Ok(ReaderEvent::StartDocument { .. }) => XmlEvent::StartDocument,
        Ok(ReaderEvent::EndDocument) => XmlEvent::EndDocument,
        Ok(ReaderEvent::ProcessingInstruction { .. }) => XmlEvent::ProcessingInstruction,
        Ok(ReaderEvent::StartElement { name, .. }) => XmlEvent::StartElement(name.local_name),
        Ok(ReaderEvent::EndElement { name }) => XmlEvent::EndElement(name.local_name),
        Ok(ReaderEvent::CData(s)) => XmlEvent::CData(s),
        Ok(ReaderEvent::Comment(s)) => XmlEvent::Comment(s),
        Ok(ReaderEvent::Characters(s)) => XmlEvent::Characters(s),
        Ok(ReaderEvent::Whitespace(s)) => XmlEvent::Whitespace(s),
        Err(err) => XmlEvent::Error(err.to_string()),
    }
}

pub fn is_terminal_event(e: &XmlEvent) -> (r: bool)
    ensures
        r == is_terminal(e@),
{
    match e {
        XmlEvent::EndDocument => true,
        XmlEvent::Error(_) => true,
        _ => false,
    }
}

/// The events of an XML document, read one after the other. Once the end of
/// the document or an error is reached, reading gives it again and again.
#[derive(Debug)]
pub struct XmlEvents {
    events: Vec<XmlEvent>,
    pos: usize,
}

/// `s` up to and including its first terminal event; a stream without one
/// is ended by `EndDocument`.
pub open spec fn terminated(s: Seq<EventView>) -> Seq<EventView>
    decreases s.len(),
{
    if s.len() == 0 {
        seq![EventView::EndDocument]
    } else if is_terminal(s[0]) {
        seq![s[0]]
    } else {
        seq![s[0]] + terminated(s.drop_first())
    }
}

proof fn lemma_terminated_wf(s: Seq<EventView>)
    ensures
        stream_wf(terminated(s)),
    decreases s.len(),
{
    if s.len() > 0 && !is_terminal(s[0]) {
        lemma_terminated_wf(s.drop_first());
        let t = terminated(s.drop_first());
        assert forall|i: int| 0 <= i < (seq![s[0]] + t).len() - 1 implies !is_terminal(
            #[trigger] (seq![s[0]] + t)[i],
        ) by {
            if i > 0 {
                assert((seq![s[0]] + t)[i] == t[i - 1]);
            }
        }
    }
}

/// The stream after reading one event: terminal events stay.
pub open spec fn advance(s: Seq<EventView>) -> Seq<EventView> {
    if s.len() > 0 && is_terminal(s[0]) {
        s
    } else {
        s.drop_first()
    }
}

impl View for XmlEvents {
    type V = Seq<EventView>;

    /// The events still to be read.
    closed spec fn view(&self) -> Seq<EventView> {
        views(self.events@).skip(self.pos as int)
    }
}

impl XmlEvents {
    #[verifier::type_invariant]
    closed spec fn inv(self) -> bool {
        &&& self.pos < self.events@.len()
        &&& stream_wf(views(self.events@))
    }

    /// The events still to be read form a stream the reader can produce.
    proof fn lemma_wf(&self)
        requires
            self.inv(),
        ensures
            stream_wf(self@),
    {
        let all = views(self.events@);
        let s = self@;
        assert(s.len() > 0);
        assert(s.last() == all.last());
        assert forall|i: int| 0 <= i < s.len() - 1 implies !is_terminal(#[trigger] s[i]) by {
            assert(s[i] == all[i + self.pos]);
        }
    }

    /// Reads the next event. At the end of the document, or at an error, the
    /// same event is read again.
    pub fn next(&mut self) -> (e: XmlEvent)
        ensures
            e@ == old(self)@[0],
            final(self)@ == advance(old(self)@),
    {
        proof {
            use_type_invariant(&*self);
            self.lemma_wf();
        }
        let ghost all = views(self.events@);
        let e = self.events[self.pos].duplicate_event();
        assert(e@ == all[self.pos as int]);
        let terminal = is_terminal_event(&e);
        assert(self.pos < self.events.len());
        if !terminal && self.pos < self.events.len() - 1 {
            self.pos = self.pos + 1;
            assert(self@ =~= old(self)@.drop_first());
        }
        e
    }

    /// The stream of the given events, up to and including the first end of
    /// the document or error; `EndDocument` ends a stream that has neither.
    pub fn from_events(events: Vec<XmlEvent>) -> (r: XmlEvents)
        ensures
            r@ == terminated(views(events@)),
    {
        let ghost src = views(events@);
        let mut out: Vec<XmlEvent> = Vec::new();
        let mut i: usize = 0;
        assert(src.skip(0) =~= src);
        while i < events.len()
            invariant
                i <= events.len(),
                src == views(events@),
                terminated(src) == views(out@) + terminated(src.skip(i as int)),
                forall|k: int| 0 <= k < out@.len() ==> !is_terminal(#[trigger] out@[k]@),
            decreases events.len() - i,
        {
            let e = events[i].duplicate_event();
            let t = is_terminal_event(&e);
            assert(src.skip(i as int)[0] == e@);
            assert(src.skip(i as int).drop_first() =~= src.skip(i + 1));
            let ghost before = views(out@);
            out.push(e);
            assert(views(out@) =~= before.push(e@));
            if t {
                proof {
                    lemma_terminated_wf(src);
                }
                let r = XmlEvents { events: out, pos: 0 };
                assert(r@ =~= views(out@));
                return r;
            }
            i = i + 1;
        }
        assert(src.skip(i as int) =~= Seq::<EventView>::empty());
        let ghost before = views(out@);
        out.push(XmlEvent::EndDocument);
        assert(views(out@) =~= before.push(EventView::EndDocument));
        proof {
            lemma_terminated_wf(src);
        }
        let r = XmlEvents { events: out, pos: 0 };
        assert(r@ =~= views(out@));
        r
    }
}

impl XmlEvent {
    /// A copy of the event.
    pub fn duplicate_event(&self) -> (r: XmlEvent)
        ensures
            r@ == self@,
    {
        match self {
            XmlEvent::StartDocument => XmlEvent::StartDocument,
            XmlEvent::EndDocument => XmlEvent::EndDocument,
            XmlEvent::ProcessingInstruction => XmlEvent::ProcessingInstruction,
            XmlEvent::StartElement(s) => XmlEvent::StartElement(s.clone()),
            XmlEvent::EndElement(s) => XmlEvent::EndElement(s.clone()),
            XmlEvent::CData(s) => XmlEvent::CData(s.clone()),
            XmlEvent::Comment(s) => XmlEvent::Comment(s.clone()),
            XmlEvent::Characters(s) => XmlEvent::Characters(s.clone()),
            XmlEvent::Whitespace(s) => XmlEvent::Whitespace(s.clone()),
            XmlEvent::Error(s) => XmlEvent::Error(s.clone()),
        }
    }
}

/// Reads the document in `bytes` into a stream of events with the reader of
/// xml-rs: white space and CDATA are taken as characters, comments are
/// dropped and adjacent characters joined.
pub fn create_reader(bytes: &[u8]) -> (r: XmlEvents)
    ensures
        r@ == xml_events(bytes@),
{
    let mut reader = open_reader(bytes);
    let ghost all = xml_events(bytes@);
    let mut out: Vec<XmlEvent> = Vec::new();
    loop
        invariant_except_break
            stream_wf(all),
            all == views(out@) + pending_events(reader),
            forall|i: int| 0 <= i < out@.len() ==> !is_terminal(#[trigger] out@[i]@),
        ensures
            all == views(out@),
            stream_wf(all),
        decreases pending_events(reader).len(),
    {
        let ghost before = views(out@);
        let ghost pend = pending_events(reader);
        assert(pend.len() > 0) by {
            if pend.len() == 0 {
                assert(all =~= before);
                assert(is_terminal(all[all.len() - 1]));
                assert(!is_terminal(out@[all.len() - 1]@));
            }
        }
        let e = pull_event(&mut reader);
        let t = is_terminal_event(&e);
        out.push(e);
        assert(views(out@) =~= before.push(e@));
        assert(all =~= views(out@) + pending_events(reader)) by {
            assert(pend =~= seq![pend[0]] + pend.drop_first());
        }
        if t {
            assert(pending_events(reader).len() == 0) by {
                let k: int = before.len() as int;
                assert(all[k] == e@);
                if pending_events(reader).len() > 0 {
                    assert(k < all.len() - 1);
                }
            }
            assert(all =~= views(out@));
            break;
        }
    }
    let r = XmlEvents { events: out, pos: 0 };
    assert(r@ =~= views(out@));
    r
}

/// Result type used for XML parsing functions in this module.
pub type ParseResult<T> = Result<T, String>;

/// The view of a result without a value.
pub open spec fn unit_view(r: ParseResult<()>) -> Result<(), Seq<char>> {
    match r {
        Ok(_) => Ok(()),
        Err(e) => Err(e@),
    }
}

/// The view of a result holding a string.
pub open spec fn text_view(r: ParseResult<String>) -> Result<Seq<char>, Seq<char>> {
    match r {
        Ok(t) => Ok(t@),
        Err(e) => Err(e@),
    }
}

/// How `char::escape_debug` (std) writes `c`.
pub uninterp spec fn char_escape(c: char) -> Seq<char>;

/// Writes `c` as `char::escape_debug` (std) does. Claimed: the result is
/// a function of `c` alone, named `char_escape`.
#[verifier::external_body]
fn escape_char(c: char) -> (r: String)
    ensures
        r@ == char_escape(c),
{
    c.escape_debug().to_string()
}

/// The characters of `s`, each written as `char::escape_debug` writes it.
pub open spec fn escaped(s: Seq<char>) -> Seq<char>
    decreases s.len(),
{
    if s.len() == 0 {
        Seq::empty()
    } else {
        escaped(s.drop_last()) + char_escape(s.last())
    }
}

/// How `{:?}` shows a path on Unix-like systems (std's `Debug` for `Path`):
/// between double quotes, each character escaped as `char::escape_debug`
/// escapes it.
pub open spec fn quoted(s: Seq<char>) -> Seq<char> {
    "\""@ + escaped(s) + "\""@
}

/// Shows the path `s` as `quoted` says.
fn debug_quoted(s: &str) -> (r: String)
    ensures
        r@ == quoted(s@),
{
    let mut out = String::from_str("\"");
    let n = s.unicode_len();
    let mut i: usize = 0;
    while i < n
        invariant
            n == s@.len(),
            i <= n,
            out@ == "\""@ + escaped(s@.take(i as int)),
        decreases n - i,
    {
        let c = s.get_char(i);
        let e = escape_char(c);
        out.append(e.as_str());
        assert(s@.take(i + 1).drop_last() =~= s@.take(i as int));
        i = i + 1;
    }
    assert(s@.take(n as int) =~= s@);
    out.append("\"");
    out
}

/// What is reported when the document ends inside an element.
pub open spec fn end_of_document() -> Seq<char> {
    "unexpected end of document"@
}

/// The message of an error met while parsing `what` from the document at `path`.
pub open spec fn parse_error(what: Seq<char>, path: Seq<char>, cause: Seq<char>) -> Seq<char> {
    "error parsing "@ + what + " from "@ + quoted(path) + ": "@ + cause
}

/// The message of an error met while skipping an element.
pub open spec fn skip_error(cause: Seq<char>) -> Seq<char> {
    "error skipping element: "@ + cause
}

pub fn parse_error_text(what: &str, path: &str, cause: &str) -> (r: String)
    ensures
        r@ == parse_error(what@, path@, cause@),
{
    let mut m = String::from_str("error parsing ");
    m.append(what);
    m.append(" from ");
    let q = debug_quoted(path);
    m.append(q.as_str());
    m.append(": ");
    m.append(cause);
    m
}

/// The cause reported for the terminal event `e`.
pub open spec fn terminal_cause(e: EventView) -> Seq<char> {
    match e {
        EventView::Error(m) => m,
        _ => end_of_document(),
    }
}

pub fn terminal_cause_text(e: &XmlEvent) -> (r: String)
    ensures
        r@ == terminal_cause(e@),
{
    match e {
        XmlEvent::Error(m) => m.clone(),
        _ => String::from_str("unexpected end of document"),
    }
}

/// Skipping the rest of an element `depth` levels deep: the result and the
/// events left.
pub open spec fn skip_from(s: Seq<EventView>, depth: nat) -> (Result<(), Seq<char>>, Seq<EventView>)
    decreases s.len(),
{
    if s.len() == 0 {
        (Err(skip_error(end_of_document())), s)
    } else if is_terminal(s[0]) {
        (Err(skip_error(terminal_cause(s[0]))), s)
    } else {
        match s[0] {
            EventView::StartElement(_) => skip_from(s.drop_first(), depth + 1),
            EventView::EndElement(_) => if depth <= 1 {
                (Ok(()), s.drop_first())
            } else {
                skip_from(s.drop_first(), (depth - 1) as nat)
            },
            _ => skip_from(s.drop_first(), depth),
        }
    }
}

/// What is left after a parse is a suffix of what it started with.
pub open spec fn suffix_of(rest: Seq<EventView>, s: Seq<EventView>) -> bool {
    rest.len() <= s.len() && rest == s.skip(s.len() - rest.len())
}

pub proof fn lemma_suffix_trans(a: Seq<EventView>, b: Seq<EventView>, c: Seq<EventView>)
    requires
        suffix_of(a, b),
        suffix_of(b, c),
    ensures
        suffix_of(a, c),
{
    assert(a =~= c.skip(c.len() - a.len()));
}

pub proof fn lemma_suffix_drop(s: Seq<EventView>)
    requires
        s.len() > 0,
    ensures
        suffix_of(s.drop_first(), s),
        suffix_of(s, s),
{
    assert(s.drop_first() =~= s.skip(1));
    assert(s =~= s.skip(0));
}

pub proof fn lemma_skip_suffix(s: Seq<EventView>, depth: nat)
    ensures
        suffix_of(skip_from(s, depth).1, s),
        skip_from(s, depth).0 is Ok ==> skip_from(s, depth).1.len() < s.len(),
    decreases s.len(),
{
    if s.len() == 0 {
        assert(s =~= s.skip(0));
    } else if is_terminal(s[0]) {
        assert(s =~= s.skip(0));
    } else {
        lemma_suffix_drop(s);
        match s[0] {
            EventView::StartElement(_) => {
                lemma_skip_suffix(s.drop_first(), depth + 1);
                lemma_suffix_trans(skip_from(s, depth).1, s.drop_first(), s);
            },
            EventView::EndElement(_) => if depth > 1 {
                lemma_skip_suffix(s.drop_first(), (depth - 1) as nat);
                lemma_suffix_trans(skip_from(s, depth).1, s.drop_first(), s);
            },
            _ => {
                lemma_skip_suffix(s.drop_first(), depth);
                lemma_suffix_trans(skip_from(s, depth).1, s.drop_first(), s);
            },
        }
    }
}

impl XmlEvents {
    /// The events still to be read form a stream the reader can produce.
    pub fn check(&self)
        ensures
            stream_wf(self@),
            self@.len() <= usize::MAX,
    {
        proof {
            use_type_invariant(self);
            self.lemma_wf();
        }
        let _n = self.events.len();
    }
}

/// Skips the current element and all its children, consuming events until the
/// matching end tag. An error of the reader, or the end of the document,
/// fails the skip.
pub fn skip_element(events: &mut XmlEvents) -> (r: ParseResult<()>)
    ensures
        skip_from(old(events)@, 1) == (unit_view(r), final(events)@),
{
    let ghost orig = events@;
    events.check();
    proof {
        lemma_suffix_drop(orig);
    }
    let mut depth: usize = 1;
    loop
        invariant
            orig == old(events)@,
            orig.len() <= usize::MAX,
            skip_from(orig, 1) == skip_from(events@, depth as nat),
            depth >= 1,
            depth + events@.len() <= orig.len() + 1,
            suffix_of(events@, orig),
        decreases events@.len(),
    {
        events.check();
        let ghost cur = events@;
        proof {
            lemma_suffix_drop(cur);
        }
        let e = events.next();
        if is_terminal_event(&e) {
            let mut m = String::from_str("error skipping element: ");
            let cause = terminal_cause_text(&e);
            m.append(cause.as_str());
            assert(events@ == cur);
            assert(skip_from(cur, depth as nat).0 == Err::<(), Seq<char>>(skip_error(cause@)));
            assert(m@ == skip_error(cause@));
            return Err(m);
        }
        proof {
            lemma_suffix_trans(events@, cur, orig);
        }
        events.check();
        match e {
            XmlEvent::StartElement(_) => {
                depth = depth + 1;
            },
            XmlEvent::EndElement(_) => {
                if depth == 1 {
                    return Ok(());
                }
                depth = depth - 1;
            },
            _ => {},
        }
    }
}

/// Collecting the text of an element named `name`, `acc` so far: the result
/// and the events left.
pub open spec fn text_from(s: Seq<EventView>, path: Seq<char>, name: Seq<char>, acc: Seq<char>) -> (
    Result<Seq<char>, Seq<char>>,
    Seq<EventView>,
)
    decreases s.len(),
{
    if s.len() == 0 {
        (Err(parse_error(name, path, end_of_document())), s)
    } else if is_terminal(s[0]) {
        (Err(parse_error(name, path, terminal_cause(s[0]))), s)
    } else {
        match s[0] {
            EventView::Characters(c) => text_from(s.drop_first(), path, name, acc + c),
            EventView::EndElement(n) => if eq_ignore_case(n, name) {
                (Ok(acc), s.drop_first())
            } else {
                text_from(s.drop_first(), path, name, acc)
            },
            EventView::StartElement(_) => {
                let (r, rest) = skip_from(s.drop_first(), 1);
                match r {
                    Err(e) => (Err(e), rest),
                    Ok(_) => if rest.len() < s.len() {
                        text_from(rest, path, name, acc)
                    } else {
                        (Ok(acc), rest)
                    },
                }
            },
            _ => text_from(s.drop_first(), path, name, acc),
        }
    }
}

pub proof fn lemma_text_suffix(s: Seq<EventView>, path: Seq<char>, name: Seq<char>, acc: Seq<char>)
    ensures
        suffix_of(text_from(s, path, name, acc).1, s),
    decreases s.len(),
{
    if s.len() == 0 || is_terminal(s[0]) {
        assert(s =~= s.skip(0));
    } else {
        lemma_suffix_drop(s);
        match s[0] {
            EventView::Characters(c) => {
                lemma_text_suffix(s.drop_first(), path, name, acc + c);
                lemma_suffix_trans(text_from(s, path, name, acc).1, s.drop_first(), s);
            },
            EventView::EndElement(n) => if !eq_ignore_case(n, name) {
                lemma_text_suffix(s.drop_first(), path, name, acc);
                lemma_suffix_trans(text_from(s, path, name, acc).1, s.drop_first(), s);
            },
            EventView::StartElement(_) => {
                lemma_skip_suffix(s.drop_first(), 1);
                let rest = skip_from(s.drop_first(), 1).1;
                lemma_suffix_trans(rest, s.drop_first(), s);
                if skip_from(s.drop_first(), 1).0 is Ok {
                    lemma_text_suffix(rest, path, name, acc);
                    lemma_suffix_trans(text_from(s, path, name, acc).1, rest, s);
                }
            },
            _ => {
                lemma_text_suffix(s.drop_first(), path, name, acc);
                lemma_suffix_trans(text_from(s, path, name, acc).1, s.drop_first(), s);
            },
        }
    }
}

/// Parses the text content of an XML element, consuming all character data until the end tag.
/// Ignores and skips any unexpected child elements.
pub fn parse_text_element(events: &mut XmlEvents, path: &str, element_name: &str) -> (r: ParseResult<String>)
    ensures
        text_from(old(events)@, path@, element_name@, Seq::empty()) == (text_view(r), final(events)@),
        suffix_of(final(events)@, old(events)@),
{
    let ghost orig = events@;
    proof {
        lemma_text_suffix(orig, path@, element_name@, Seq::empty());
    }
    events.check();
    let mut text = String::new();
    loop
        invariant
            orig == old(events)@,
            text_from(orig, path@, element_name@, Seq::empty()) == text_from(events@, path@, element_name@, text@),
            suffix_of(text_from(orig, path@, element_name@, Seq::empty()).1, orig),
        decreases events@.len(),
    {
        events.check();
        let ghost cur = events@;
        let e = events.next();
        if is_terminal_event(&e) {
            let cause = terminal_cause_text(&e);
            return Err(parse_error_text(element_name, path, cause.as_str()));
        }
        match e {
            XmlEvent::Characters(chars) => {
                text.append(chars.as_str());
            },
            XmlEvent::EndElement(name) => {
                if eq_ignore_ascii_case(name.as_str(), element_name) {
                    return Ok(text);
                }
            },
            XmlEvent::StartElement(_) => {
                proof {
                    lemma_skip_suffix(cur.drop_first(), 1);
                }
                match skip_element(events) {
                    Err(err) => {
                        return Err(err);
                    },
                    Ok(_) => {},
                }
            },
            _ => {},
        }
    }
}

/// The view of a result holding a list of strings.
pub open spec fn list_view(r: ParseResult<Vec<String>>) -> Result<Seq<Seq<char>>, Seq<char>> {
    match r {
        Ok(v) => Ok(v.deep_view()),
        Err(e) => Err(e@),
    }
}

/// After the text of an `li` element: its end tag, or any other event, is
/// consumed; an error of the reader fails the parse.
pub open spec fn after_li_text(u: Seq<EventView>, path: Seq<char>, container: Seq<char>) -> (
    Result<(), Seq<char>>,
    Seq<EventView>,
) {
    if u.len() == 0 {
        (Ok(()), u)
    } else {
        match u[0] {
            EventView::Error(m) => (Err(parse_error(container + " li"@, path, m)), u),
            _ => (Ok(()), advance(u)),
        }
    }
}

/// Collecting the texts of the `li` elements of a container named `container`,
/// `acc` so far: the result and the events left.
pub open spec fn list_from(s: Seq<EventView>, path: Seq<char>, container: Seq<char>, acc: Seq<Seq<char>>) -> (
    Result<Seq<Seq<char>>, Seq<char>>,
    Seq<EventView>,
)
    decreases s.len(),
{
    if s.len() == 0 {
        (Err(parse_error(container, path, end_of_document())), s)
    } else if is_terminal(s[0]) {
        (Err(parse_error(container, path, terminal_cause(s[0]))), s)
    } else {
        match s[0] {
            EventView::StartElement(n) => if eq_ignore_case(n, "li"@) {
                let t = s.drop_first();
                if t.len() == 0 {
                    (Err(parse_error(container, path, end_of_document())), t)
                } else {
                    match t[0] {
                        EventView::Error(m) => (Err(parse_error(container + " li"@, path, m)), t),
                        EventView::Characters(c) => {
                            let (r, u) = after_li_text(t.drop_first(), path, container);
                            match r {
                                Err(e) => (Err(e), u),
                                Ok(_) => if u.len() < s.len() {
                                    list_from(u, path, container, acc.push(c))
                                } else {
                                    (Ok(acc), u)
                                },
                            }
                        },
                        _ => list_from(advance(t), path, container, acc),
                    }
                }
            } else {
                list_from(s.drop_first(), path, container, acc)
            },
            EventView::EndElement(n) => if eq_ignore_case(n, container) {
                (Ok(acc), s.drop_first())
            } else {
                list_from(s.drop_first(), path, container, acc)
            },
            _ => list_from(s.drop_first(), path, container, acc),
        }
    }
}

pub proof fn lemma_advance_suffix(s: Seq<EventView>)
    requires
        s.len() > 0,
    ensures
        suffix_of(advance(s), s),
{
    lemma_suffix_drop(s);
}

pub proof fn lemma_list_suffix(s: Seq<EventView>, path: Seq<char>, container: Seq<char>, acc: Seq<Seq<char>>)
    ensures
        suffix_of(list_from(s, path, container, acc).1, s),
    decreases s.len(),
{
    let res = list_from(s, path, container, acc).1;
    if s.len() == 0 || is_terminal(s[0]) {
        assert(s =~= s.skip(0));
    } else {
        lemma_suffix_drop(s);
        let d = s.drop_first();
        match s[0] {
            EventView::StartElement(n) => if eq_ignore_case(n, "li"@) {
                if d.len() > 0 {
                    lemma_suffix_drop(d);
                    lemma_suffix_trans(d.drop_first(), d, s);
                    match d[0] {
                        EventView::Error(m) => {},
                        EventView::Characters(c) => {
                            let u0 = d.drop_first();
                            let u = after_li_text(u0, path, container).1;
                            if u0.len() > 0 {
                                lemma_advance_suffix(u0);
                                lemma_suffix_trans(u, u0, s);
                            } else {
                                assert(u == u0);
                            }
                            if after_li_text(u0, path, container).0 is Ok && u.len() < s.len() {
                                lemma_list_suffix(u, path, container, acc.push(c));
                                lemma_suffix_trans(res, u, s);
                            }
                        },
                        _ => {
                            lemma_advance_suffix(d);
                            lemma_suffix_trans(advance(d), d, s);
                            lemma_list_suffix(advance(d), path, container, acc);
                            lemma_suffix_trans(res, advance(d), s);
                        },
                    }
                }
            } else {
                lemma_list_suffix(d, path, container, acc);
                lemma_suffix_trans(res, d, s);
            },
            EventView::EndElement(n) => if !eq_ignore_case(n, container) {
                lemma_list_suffix(d, path, container, acc);
                lemma_suffix_trans(res, d, s);
            },
            _ => {
                lemma_list_suffix(d, path, container, acc);
                lemma_suffix_trans(res, d, s);
            },
        }
    }
}

/// Parses a collection of strings from a container of <li> elements.
///
/// # Example XML
/// <container>
///   <li>foo</li>
///   <li>bar</li>
/// </container>
pub fn parse_string_collection(events: &mut XmlEvents, path: &str, container_name: &str) -> (r: ParseResult<Vec<String>>)
    ensures
        list_from(old(events)@, path@, container_name@, Seq::empty()) == (list_view(r), final(events)@),
        suffix_of(final(events)@, old(events)@),
{
    let ghost orig = events@;
    proof {
        lemma_list_suffix(orig, path@, container_name@, Seq::empty());
    }
    events.check();
    let mut items: Vec<String> = Vec::new();
    assert(items.deep_view() =~= Seq::<Seq<char>>::empty());
    loop
        invariant
            orig == old(events)@,
            list_from(orig, path@, container_name@, Seq::empty()) == list_from(events@, path@, container_name@, items.deep_view()),
            suffix_of(list_from(orig, path@, container_name@, Seq::empty()).1, orig),
        decreases events@.len(),
    {
        events.check();
        let ghost cur = events@;
        let e = events.next();
        if is_terminal_event(&e) {
            let cause = terminal_cause_text(&e);
            return Err(parse_error_text(container_name, path, cause.as_str()));
        }
        match e {
            XmlEvent::StartElement(name) => {
                if eq_ignore_ascii_case(name.as_str(), "li") {
                    events.check();
                    let ghost t = events@;
                    let e2 = events.next();
                    match e2 {
                        XmlEvent::Error(m) => {
                            let mut what = container_name.to_owned();
                            what.append(" li");
                            return Err(parse_error_text(what.as_str(), path, m.as_str()));
                        },
                        XmlEvent::Characters(chars) => {
                            events.check();
                            let e3 = events.next();
                            match e3 {
                                XmlEvent::Error(m) => {
                                    let mut what = container_name.to_owned();
                                    what.append(" li");
                                    return Err(parse_error_text(what.as_str(), path, m.as_str()));
                                },
                                _ => {},
                            }
                            let ghost before = items.deep_view();
                            items.push(chars);
                            assert(items.deep_view() =~= before.push(chars@));
                        },
                        _ => {},
                    }
                }
            },
            XmlEvent::EndElement(name) => {
                if eq_ignore_ascii_case(name.as_str(), container_name) {
                    return Ok(items);
                }
            },
            _ => {},
        }
    }
}

/// Parses the texts of the `li` elements of a container into a list.
pub fn parse_string_list(events: &mut XmlEvents, path: &str, container_name: &str) -> (r: ParseResult<Vec<String>>)
    ensures
        list_from(old(events)@, path@, container_name@, Seq::empty()) == (list_view(r), final(events)@),
        suffix_of(final(events)@, old(events)@),
{
    parse_string_collection(events, path, container_name)
}

/// Parses the texts of the `li` elements of a container into a set.
pub fn parse_string_set(events: &mut XmlEvents, path: &str, container_name: &str) -> (r: ParseResult<StringSet>)
    ensures
        list_from(old(events)@, path@, container_name@, Seq::empty()).1 == final(events)@,
        suffix_of(final(events)@, old(events)@),
        match (list_from(old(events)@, path@, container_name@, Seq::empty()).0, r) {
            (Ok(items), Ok(set)) => set.wf() && set@.to_set() == items.to_set(),
            (Err(m), Err(e)) => e@ == m,
            _ => false,
        },
{
    match parse_string_collection(events, path, container_name) {
        Ok(items) => Ok(StringSet::from_strings(items)),
        Err(e) => Err(e),
    }
}

/// A parser of the value of a child element: from the events after its start
/// tag and its name, the value and the events left.
pub type ValueParser<W> = spec_fn(Seq<EventView>, Seq<char>) -> (Result<W, Seq<char>>, Seq<EventView>);

/// A parser leaves a suffix of the events it is given.
pub open spec fn parser_leaves_suffix<W>(parse: ValueParser<W>) -> bool {
    forall|s: Seq<EventView>, k: Seq<char>| #[trigger] suffix_of(parse(s, k).1, s)
}

/// Collecting the children of a container named `container` as key/value
/// pairs, the key being the child's name and the value what `parse` makes of
/// the child; `acc` so far. The result and the events left.
pub open spec fn map_from<W>(
    s: Seq<EventView>,
    path: Seq<char>,
    container: Seq<char>,
    parse: ValueParser<W>,
    acc: Seq<(Seq<char>, W)>,
) -> (Result<Seq<(Seq<char>, W)>, Seq<char>>, Seq<EventView>)
    decreases s.len(),
{
    if s.len() == 0 {
        (Err(parse_error(container, path, end_of_document())), s)
    } else if is_terminal(s[0]) {
        (Err(parse_error(container, path, terminal_cause(s[0]))), s)
    } else {
        match s[0] {
            EventView::StartElement(key) => {
                let (r, rest) = parse(s.drop_first(), key);
                match r {
                    Err(e) => (Err(e), rest),
                    Ok(w) => if rest.len() < s.len() {
                        map_from(rest, path, container, parse, acc.push((key, w)))
                    } else {
                        (Ok(acc.push((key, w))), rest)
                    },
                }
            },
            EventView::EndElement(n) => if eq_ignore_case(n, container) {
                (Ok(acc), s.drop_first())
            } else {
                map_from(s.drop_first(), path, container, parse, acc)
            },
            _ => map_from(s.drop_first(), path, container, parse, acc),
        }
    }
}

pub proof fn lemma_map_suffix<W>(
    s: Seq<EventView>,
    path: Seq<char>,
    container: Seq<char>,
    parse: ValueParser<W>,
    acc: Seq<(Seq<char>, W)>,
)
    requires
        parser_leaves_suffix(parse),
    ensures
        suffix_of(map_from(s, path, container, parse, acc).1, s),
    decreases s.len(),
{
    let res = map_from(s, path, container, parse, acc).1;
    if s.len() == 0 || is_terminal(s[0]) {
        assert(s =~= s.skip(0));
    } else {
        lemma_suffix_drop(s);
        let d = s.drop_first();
        match s[0] {
            EventView::StartElement(key) => {
                let (r, rest) = parse(d, key);
                assert(suffix_of(parse(d, key).1, d));
                lemma_suffix_trans(rest, d, s);
                if r is Ok && rest.len() < s.len() {
                    lemma_map_suffix(rest, path, container, parse, acc.push((key, r->Ok_0)));
                    lemma_suffix_trans(res, rest, s);
                }
            },
            EventView::EndElement(n) => if !eq_ignore_case(n, container) {
                lemma_map_suffix(d, path, container, parse, acc);
                lemma_suffix_trans(res, d, s);
            },
            _ => {
                lemma_map_suffix(d, path, container, parse, acc);
                lemma_suffix_trans(res, d, s);
            },
        }
    }
}

/// The text of a child element, as `parse_text_element` reads it.
pub open spec fn text_parser(path: Seq<char>) -> ValueParser<Seq<char>> {
    |s: Seq<EventView>, k: Seq<char>| text_from(s, path, k, Seq::empty())
}

/// The `li` texts of a child element, as `parse_string_collection` reads them.
pub open spec fn list_parser(path: Seq<char>) -> ValueParser<Seq<Seq<char>>> {
    |s: Seq<EventView>, k: Seq<char>| list_from(s, path, k, Seq::empty())
}

proof fn lemma_text_parser_suffix(path: Seq<char>)
    ensures
        parser_leaves_suffix(text_parser(path)),
{
    assert forall|s: Seq<EventView>, k: Seq<char>| #[trigger] suffix_of(text_parser(path)(s, k).1, s) by {
        lemma_text_suffix(s, path, k, Seq::empty());
    }
}

proof fn lemma_list_parser_suffix(path: Seq<char>)
    ensures
        parser_leaves_suffix(list_parser(path)),
{
    assert forall|s: Seq<EventView>, k: Seq<char>| #[trigger] suffix_of(list_parser(path)(s, k).1, s) by {
        lemma_list_suffix(s, path, k, Seq::empty());
    }
}

/// A string holds the text it is paired with.
pub open spec fn text_rel() -> spec_fn(String, Seq<char>) -> bool {
    |v: String, w: Seq<char>| v@ == w
}

/// A list of strings holds the texts it is paired with.
pub open spec fn list_rel() -> spec_fn(Vec<String>, Seq<Seq<char>>) -> bool {
    |v: Vec<String>, w: Seq<Seq<char>>| v.deep_view() == w
}

/// A parse into a map agrees with the pairs the events give, or fails with
/// the same message.
pub open spec fn map_result<V, W>(
    spec_result: Result<Seq<(Seq<char>, W)>, Seq<char>>,
    r: ParseResult<StringMap<V>>,
    rel: spec_fn(V, W) -> bool,
) -> bool {
    match (spec_result, r) {
        (Ok(pairs), Ok(m)) => m.holds_pairs(pairs, rel),
        (Err(a), Err(b)) => b@ == a,
        _ => false,
    }
}

/// Parses a map of strings from XML, where each child element's tag is the key and its text content is the value.
/// For example:
/// <container>
///   <Key1>Value1</Key1>
///   <Key2>Value2</Key2>
/// </container>
pub fn parse_string_map(events: &mut XmlEvents, path: &str, container_name: &str) -> (r: ParseResult<StringMap<String>>)
    ensures
        map_from(old(events)@, path@, container_name@, text_parser(path@), Seq::empty()).1 == final(events)@,
        map_result(map_from(old(events)@, path@, container_name@, text_parser(path@), Seq::empty()).0, r, text_rel()),
        suffix_of(final(events)@, old(events)@),
{
    let ghost orig = events@;
    let ghost parse = text_parser(path@);
    proof {
        lemma_text_parser_suffix(path@);
        lemma_map_suffix(orig, path@, container_name@, parse, Seq::empty());
    }
    let mut map: StringMap<String> = StringMap::new();
    let ghost mut pairs: Seq<(Seq<char>, Seq<char>)> = Seq::empty();
    proof {
        lemma_empty_holds(map, text_rel());
    }
    loop
        invariant
            orig == old(events)@,
            parse == text_parser(path@),
            map_from(orig, path@, container_name@, parse, Seq::empty()) == map_from(events@, path@, container_name@, parse, pairs),
            suffix_of(map_from(orig, path@, container_name@, parse, Seq::empty()).1, orig),
            map.holds_pairs(pairs, text_rel()),
        decreases events@.len(),
    {
        events.check();
        let ghost cur = events@;
        let e = events.next();
        if is_terminal_event(&e) {
            let cause = terminal_cause_text(&e);
            return Err(parse_error_text(container_name, path, cause.as_str()));
        }
        match e {
            XmlEvent::StartElement(key) => {
                let ghost t = events@;
                proof {
                    lemma_text_suffix(t, path@, key@, Seq::empty());
                    lemma_suffix_drop(cur);
                }
                match parse_text_element(events, path, key.as_str()) {
                    Err(err) => {
                        return Err(err);
                    },
                    Ok(value) => {
                        proof {
                            lemma_suffix_trans(events@, t, cur);
                        }
                        let ghost kv = key@;
                        let ghost vv = value@;
                        map.insert_pair(key, value, Ghost(pairs), Ghost(vv), Ghost(text_rel()));
                        proof {
                            pairs = pairs.push((kv, vv));
                        }
                    },
                }
            },
            XmlEvent::EndElement(name) => {
                if eq_ignore_ascii_case(name.as_str(), container_name) {
                    return Ok(map);
                }
            },
            _ => {},
        }
    }
}

/// Parses a map from keys to collections of strings, where each key is a child element and its value is a collection of <li> elements.
///
/// # Example XML
/// <container>
///   <Version1>
///     <li>foo</li>
///     <li>bar</li>
///   </Version1>
///   <Version2>
///     <li>baz</li>
///   </Version2>
/// </container>
pub fn parse_string_collection_map(events: &mut XmlEvents, path: &str, container_name: &str) -> (r: ParseResult<StringMap<Vec<String>>>)
    ensures
        map_from(old(events)@, path@, container_name@, list_parser(path@), Seq::empty()).1 == final(events)@,
        map_result(map_from(old(events)@, path@, container_name@, list_parser(path@), Seq::empty()).0, r, list_rel()),
        suffix_of(final(events)@, old(events)@),
{
    let ghost orig = events@;
    let ghost parse = list_parser(path@);
    proof {
        lemma_list_parser_suffix(path@);
        lemma_map_suffix(orig, path@, container_name@, parse, Seq::empty());
    }
    let mut map: StringMap<Vec<String>> = StringMap::new();
    let ghost mut pairs: Seq<(Seq<char>, Seq<Seq<char>>)> = Seq::empty();
    proof {
        lemma_empty_holds(map, list_rel());
    }
    loop
        invariant
            orig == old(events)@,
            parse == list_parser(path@),
            map_from(orig, path@, container_name@, parse, Seq::empty()) == map_from(events@, path@, container_name@, parse, pairs),
            suffix_of(map_from(orig, path@, container_name@, parse, Seq::empty()).1, orig),
            map.holds_pairs(pairs, list_rel()),
        decreases events@.len(),
    {
        events.check();
        let ghost cur = events@;
        let e = events.next();
        if is_terminal_event(&e) {
            let cause = terminal_cause_text(&e);
            return Err(parse_error_text(container_name, path, cause.as_str()));
        }
        match e {
            XmlEvent::StartElement(key) => {
                let ghost t = events@;
                proof {
                    lemma_list_suffix(t, path@, key@, Seq::empty());
                    lemma_suffix_drop(cur);
                }
                match parse_string_collection(events, path, key.as_str()) {
                    Err(err) => {
                        return Err(err);
                    },
                    Ok(items) => {
                        proof {
                            lemma_suffix_trans(events@, t, cur);
                        }
                        let ghost kv = key@;
                        let ghost vv = items.deep_view();
                        map.insert_pair(key, items, Ghost(pairs), Ghost(vv), Ghost(list_rel()));
                        proof {
                            pairs = pairs.push((kv, vv));
                        }
                    },
                }
            },
            XmlEvent::EndElement(name) => {
                if eq_ignore_ascii_case(name.as_str(), container_name) {
                    return Ok(map);
                }
            },
            _ => {},
        }
    }
}

/// A parser of the value held by a child element of a container, which
/// `parse_map_of_maps` calls on each child: what it reads is stated over the
/// events by `parse_spec`, and `stands_for` relates what it makes to that.
pub trait ValueParse {
    /// What the parser makes.
    type Value;

    /// What a parsed value stands for.
    type ValueView;

    /// What parsing the events `s` after the start tag of a child named
    /// `key` gives, and the events left.
    spec fn parse_spec(&self, s: Seq<EventView>, path: Seq<char>, key: Seq<char>) -> (
        Result<Self::ValueView, Seq<char>>,
        Seq<EventView>,
    );

    /// The parsed value `v` stands for `w`.
    spec fn stands_for(&self, v: Self::Value, w: Self::ValueView) -> bool;

    /// Parsing leaves a suffix of the events it is given.
    proof fn lemma_parse_suffix(&self, s: Seq<EventView>, path: Seq<char>, key: Seq<char>)
        ensures
            suffix_of(self.parse_spec(s, path, key).1, s),
    ;

    /// Parses the value of a child named `key`, whose start tag was read.
    fn parse(&self, events: &mut XmlEvents, path: &str, key: &str) -> (r: ParseResult<Self::Value>)
        ensures
            self.parse_spec(old(events)@, path@, key@).1 == final(events)@,
            match (self.parse_spec(old(events)@, path@, key@).0, r) {
                (Ok(w), Ok(v)) => self.stands_for(v, w),
                (Err(a), Err(b)) => b@ == a,
                _ => false,
            },
    ;
}

/// The parser `p` as a function of the events and the child's name.
pub open spec fn parser_of<P: ValueParse>(p: P, path: Seq<char>) -> ValueParser<P::ValueView> {
    |s: Seq<EventView>, k: Seq<char>| p.parse_spec(s, path, k)
}

/// What `p` makes stands for what it reads.
pub open spec fn stands_for_rel<P: ValueParse>(p: P) -> spec_fn(P::Value, P::ValueView) -> bool {
    |v: P::Value, w: P::ValueView| p.stands_for(v, w)
}

/// The `li` items of a child element, as `parse_string_collection` reads them.
pub struct StringListParser;

impl ValueParse for StringListParser {
    type Value = Vec<String>;

    type ValueView = Seq<Seq<char>>;

    open spec fn parse_spec(&self, s: Seq<EventView>, path: Seq<char>, key: Seq<char>) -> (
        Result<Seq<Seq<char>>, Seq<char>>,
        Seq<EventView>,
    ) {
        list_from(s, path, key, Seq::empty())
    }

    open spec fn stands_for(&self, v: Vec<String>, w: Seq<Seq<char>>) -> bool {
        v.deep_view() == w
    }

    proof fn lemma_parse_suffix(&self, s: Seq<EventView>, path: Seq<char>, key: Seq<char>) {
        lemma_list_suffix(s, path, key, Seq::empty());
    }

    fn parse(&self, events: &mut XmlEvents, path: &str, key: &str) -> (r: ParseResult<Vec<String>>) {
        parse_string_collection(events, path, key)
    }
}

/// The dependencies listed by a child element, as `parse_mod_dependencies`
/// reads them.
pub struct DependencyListParser;

impl ValueParse for DependencyListParser {
    type Value = StringMap<ModDependency>;

    type ValueView = Seq<(Seq<char>, DependencyView)>;

    open spec fn parse_spec(&self, s: Seq<EventView>, path: Seq<char>, key: Seq<char>) -> (
        Result<Seq<(Seq<char>, DependencyView)>, Seq<char>>,
        Seq<EventView>,
    ) {
        dependencies_from(s, path, key, Seq::empty())
    }

    open spec fn stands_for(&self, v: StringMap<ModDependency>, w: Seq<(Seq<char>, DependencyView)>) -> bool {
        v.holds_pairs(w, dependency_rel())
    }

    proof fn lemma_parse_suffix(&self, s: Seq<EventView>, path: Seq<char>, key: Seq<char>) {
        lemma_dependencies_suffix(s, path, key, Seq::empty());
    }

    fn parse(&self, events: &mut XmlEvents, path: &str, key: &str) -> (r: ParseResult<StringMap<ModDependency>>) {
        parse_mod_dependencies(events, path, key)
    }
}

/// Parses a map whose keys are the names of the children of the container and
/// whose values are what `value_parser` makes of each child (as the
/// dependency lists of `modDependenciesByVersion`): the parser is called once
/// per child, in document order, and a failure of it ends the parse.
pub fn parse_map_of_maps<P: ValueParse>(
    events: &mut XmlEvents,
    path: &str,
    container_name: &str,
    value_parser: &P,
) -> (r: ParseResult<StringMap<P::Value>>)
    ensures
        map_from(old(events)@, path@, container_name@, parser_of(*value_parser, path@), Seq::empty()).1
            == final(events)@,
        map_result(
            map_from(old(events)@, path@, container_name@, parser_of(*value_parser, path@), Seq::empty()).0,
            r,
            stands_for_rel(*value_parser),
        ),
        suffix_of(final(events)@, old(events)@),
{
    let ghost orig = events@;
    let ghost parse = parser_of(*value_parser, path@);
    let ghost rel = stands_for_rel(*value_parser);
    proof {
        assert forall|s: Seq<EventView>, k: Seq<char>| #[trigger] suffix_of(parse(s, k).1, s) by {
            value_parser.lemma_parse_suffix(s, path@, k);
        }
        lemma_map_suffix(orig, path@, container_name@, parse, Seq::empty());
    }
    let mut map: StringMap<P::Value> = StringMap::new();
    let ghost mut pairs: Seq<(Seq<char>, P::ValueView)> = Seq::empty();
    proof {
        lemma_empty_holds(map, rel);
    }
    loop
        invariant
            orig == old(events)@,
            parse == parser_of(*value_parser, path@),
            rel == stands_for_rel(*value_parser),
            map_from(orig, path@, container_name@, parse, Seq::empty()) == map_from(events@, path@, container_name@, parse, pairs),
            suffix_of(map_from(orig, path@, container_name@, parse, Seq::empty()).1, orig),
            map.holds_pairs(pairs, rel),
        decreases events@.len(),
    {
        events.check();
        let ghost cur = events@;
        let e = events.next();
        if is_terminal_event(&e) {
            let cause = terminal_cause_text(&e);
            return Err(parse_error_text(container_name, path, cause.as_str()));
        }
        match e {
            XmlEvent::StartElement(key) => {
                let ghost t = events@;
                proof {
                    value_parser.lemma_parse_suffix(t, path@, key@);
                    lemma_suffix_drop(cur);
                }
                let res = value_parser.parse(events, path, key.as_str());
                match res {
                    Err(err) => {
                        return Err(err);
                    },
                    Ok(v) => {
                        proof {
                            lemma_suffix_trans(events@, t, cur);
                        }
                        let ghost kv = key@;
                        let ghost w = value_parser.parse_spec(t, path@, kv).0->Ok_0;
                        map.insert_pair(key, v, Ghost(pairs), Ghost(w), Ghost(rel));
                        proof {
                            pairs = pairs.push((kv, w));
                        }
                    },
                }
            },
            XmlEvent::EndElement(name) => {
                if eq_ignore_ascii_case(name.as_str(), container_name) {
                    return Ok(map);
                }
            },
            _ => {},
        }
    }
}

} // verus!
