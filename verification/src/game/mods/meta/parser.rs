//! Reading `About.xml`: the `modMetaData` element and the dependencies it lists.
use crate::collections::{lemma_empty_holds, StringMap};
use crate::game::mods::meta::{ModDependency, ModMetaData};
use crate::game::xml::{
    end_of_document, is_terminal, lemma_list_suffix, lemma_skip_suffix, lemma_suffix_drop,
    lemma_suffix_trans, lemma_text_suffix, list_from, map_result, parse_error, skip_from,
    suffix_of, terminal_cause, text_from, EventView, ParseResult, XmlEvent, XmlEvents,
};
use crate::game::xml::{is_terminal_event, parse_error_text, parse_text_element, skip_element, terminal_cause_text};
use crate::game::xml::{parse_string_collection, parse_string_set};
use crate::text::{eq_ignore_ascii_case, eq_ignore_case, split_char, split_seq, trim, trim_seq};
use vstd::prelude::*;

verus! {

/// A dependency as text: its id and its name.
pub type DependencyView = (Seq<char>, Seq<char>);

/// A dependency holds the id and name it is paired with.
pub open spec fn dependency_rel() -> spec_fn(ModDependency, DependencyView) -> bool {
    |v: ModDependency, w: DependencyView| v.id@ == w.0 && v.name@ == w.1
}

/// Reading the children of one `li` of a dependency list named `container`,
/// with `id` and `name` read so far: the dependency and the events left.
/// `packageId` gives the id, `displayName` and `name` the name; other children
/// are skipped.
pub open spec fn dependency_from(
    s: Seq<EventView>,
    path: Seq<char>,
    container: Seq<char>,
    id: Seq<char>,
    name: Seq<char>,
) -> (Result<DependencyView, Seq<char>>, Seq<EventView>)
    decreases s.len(),
{
    if s.len() == 0 {
        (Err(parse_error(container + " li"@, path, end_of_document())), s)
    } else if is_terminal(s[0]) {
        (Err(parse_error(container + " li"@, path, terminal_cause(s[0]))), s)
    } else {
        match s[0] {
            EventView::StartElement(n) => {
                let t = s.drop_first();
                if eq_ignore_case(n, "packageId"@) || eq_ignore_case(n, "displayName"@) || eq_ignore_case(
                    n,
                    "name"@,
                ) {
                    let (r, rest) = text_from(t, path, n, Seq::empty());
                    match r {
                        Err(e) => (Err(e), rest),
                        Ok(v) => {
                            let (id2, name2) = if eq_ignore_case(n, "packageId"@) {
                                (v, name)
                            } else {
                                (id, v)
                            };
                            if rest.len() < s.len() {
                                dependency_from(rest, path, container, id2, name2)
                            } else {
                                (Ok((id2, name2)), rest)
                            }
                        },
                    }
                } else {
                    let (r, rest) = skip_from(t, 1);
                    match r {
                        Err(e) => (Err(e), rest),
                        Ok(_) => if rest.len() < s.len() {
                            dependency_from(rest, path, container, id, name)
                        } else {
                            (Ok((id, name)), rest)
                        },
                    }
                }
            },
            EventView::EndElement(n) => if eq_ignore_case(n, "li"@) {
                (Ok((id, name)), s.drop_first())
            } else {
                dependency_from(s.drop_first(), path, container, id, name)
            },
            _ => dependency_from(s.drop_first(), path, container, id, name),
        }
    }
}

/// Reading a dependency list named `container`, `acc` so far: each `li` gives
/// a dependency paired with its id; other children are skipped.
pub open spec fn dependencies_from(
    s: Seq<EventView>,
    path: Seq<char>,
    container: Seq<char>,
    acc: Seq<(Seq<char>, DependencyView)>,
) -> (Result<Seq<(Seq<char>, DependencyView)>, Seq<char>>, Seq<EventView>)
    decreases s.len(),
{
    if s.len() == 0 {
        (Err(parse_error(container, path, end_of_document())), s)
    } else if is_terminal(s[0]) {
        (Err(parse_error(container, path, terminal_cause(s[0]))), s)
    } else {
        match s[0] {
            EventView::StartElement(n) => {
                let t = s.drop_first();
                let (r, rest) = if eq_ignore_case(n, "li"@) {
                    match dependency_from(t, path, container, Seq::empty(), Seq::empty()) {
                        (Ok(d), rest) => (Ok(Some(d)), rest),
                        (Err(e), rest) => (Err(e), rest),
                    }
                } else {
                    match skip_from(t, 1) {
                        (Ok(_), rest) => (Ok(None::<DependencyView>), rest),
                        (Err(e), rest) => (Err(e), rest),
                    }
                };
                match r {
                    Err(e) => (Err(e), rest),
                    Ok(found) => {
                        let acc2 = match found {
                            Some(d) => acc.push((d.0, d)),
                            None => acc,
                        };
                        if rest.len() < s.len() {
                            dependencies_from(rest, path, container, acc2)
                        } else {
                            (Ok(acc2), rest)
                        }
                    },
                }
            },
            EventView::EndElement(n) => if eq_ignore_case(n, container) {
                (Ok(acc), s.drop_first())
            } else {
                dependencies_from(s.drop_first(), path, container, acc)
            },
            _ => dependencies_from(s.drop_first(), path, container, acc),
        }
    }
}

pub proof fn lemma_dependency_suffix(
    s: Seq<EventView>,
    path: Seq<char>,
    container: Seq<char>,
    id: Seq<char>,
    name: Seq<char>,
)
    ensures
        suffix_of(dependency_from(s, path, container, id, name).1, s),
    decreases s.len(),
{
    let res = dependency_from(s, path, container, id, name).1;
    if s.len() == 0 || is_terminal(s[0]) {
        assert(s =~= s.skip(0));
    } else {
        lemma_suffix_drop(s);
        let t = s.drop_first();
        match s[0] {
            EventView::StartElement(n) => {
                if eq_ignore_case(n, "packageId"@) || eq_ignore_case(n, "displayName"@) || eq_ignore_case(
                    n,
                    "name"@,
                ) {
                    lemma_text_suffix(t, path, n, Seq::empty());
                    let (r, rest) = text_from(t, path, n, Seq::empty());
                    lemma_suffix_trans(rest, t, s);
                    if r is Ok && rest.len() < s.len() {
                        let v = r->Ok_0;
                        if eq_ignore_case(n, "packageId"@) {
                            lemma_dependency_suffix(rest, path, container, v, name);
                        } else {
                            lemma_dependency_suffix(rest, path, container, id, v);
                        }
                        lemma_suffix_trans(res, rest, s);
                    }
                } else {
                    lemma_skip_suffix(t, 1);
                    let (r, rest) = skip_from(t, 1);
                    lemma_suffix_trans(rest, t, s);
                    if r is Ok && rest.len() < s.len() {
                        lemma_dependency_suffix(rest, path, container, id, name);
                        lemma_suffix_trans(res, rest, s);
                    }
                }
            },
            EventView::EndElement(n) => if !eq_ignore_case(n, "li"@) {
                lemma_dependency_suffix(t, path, container, id, name);
                lemma_suffix_trans(res, t, s);
            },
            _ => {
                lemma_dependency_suffix(t, path, container, id, name);
                lemma_suffix_trans(res, t, s);
            },
        }
    }
}

pub proof fn lemma_dependencies_suffix(
    s: Seq<EventView>,
    path: Seq<char>,
    container: Seq<char>,
    acc: Seq<(Seq<char>, DependencyView)>,
)
    ensures
        suffix_of(dependencies_from(s, path, container, acc).1, s),
    decreases s.len(),
{
    let res = dependencies_from(s, path, container, acc).1;
    if s.len() == 0 || is_terminal(s[0]) {
        assert(s =~= s.skip(0));
    } else {
        lemma_suffix_drop(s);
        let t = s.drop_first();
        match s[0] {
            EventView::StartElement(n) => {
                if eq_ignore_case(n, "li"@) {
                    lemma_dependency_suffix(t, path, container, Seq::empty(), Seq::empty());
                    let (r, rest) = dependency_from(t, path, container, Seq::empty(), Seq::empty());
                    lemma_suffix_trans(rest, t, s);
                    if r is Ok && rest.len() < s.len() {
                        let d = r->Ok_0;
                        lemma_dependencies_suffix(rest, path, container, acc.push((d.0, d)));
                        lemma_suffix_trans(res, rest, s);
                    }
                } else {
                    lemma_skip_suffix(t, 1);
                    let (r, rest) = skip_from(t, 1);
                    lemma_suffix_trans(rest, t, s);
                    if r is Ok && rest.len() < s.len() {
                        lemma_dependencies_suffix(rest, path, container, acc);
                        lemma_suffix_trans(res, rest, s);
                    }
                }
            },
            EventView::EndElement(n) => if !eq_ignore_case(n, container) {
                lemma_dependencies_suffix(t, path, container, acc);
                lemma_suffix_trans(res, t, s);
            },
            _ => {
                lemma_dependencies_suffix(t, path, container, acc);
                lemma_suffix_trans(res, t, s);
            },
        }
    }
}

/// Reads the children of one `li` of a dependency list.
fn parse_dependency(events: &mut XmlEvents, path: &str, container_name: &str) -> (r: ParseResult<ModDependency>)
    ensures
        dependency_from(old(events)@, path@, container_name@, Seq::empty(), Seq::empty()).1 == final(events)@,
        match (dependency_from(old(events)@, path@, container_name@, Seq::empty(), Seq::empty()).0, r) {
            (Ok(w), Ok(d)) => dependency_rel()(d, w),
            (Err(a), Err(b)) => b@ == a,
            _ => false,
        },
{
    let ghost orig = events@;
    let mut dependency = ModDependency::default();
    loop
        invariant
            orig == old(events)@,
            dependency_from(orig, path@, container_name@, Seq::empty(), Seq::empty()) == dependency_from(
                events@,
                path@,
                container_name@,
                dependency.id@,
                dependency.name@,
            ),
        decreases events@.len(),
    {
        events.check();
        let ghost cur = events@;
        proof {
            lemma_suffix_drop(cur);
        }
        let e = events.next();
        if is_terminal_event(&e) {
            let cause = terminal_cause_text(&e);
            let mut what = container_name.to_owned();
            what.append(" li");
            return Err(parse_error_text(what.as_str(), path, cause.as_str()));
        }
        match e {
            XmlEvent::StartElement(name) => {
                let ghost t = events@;
                let is_id = eq_ignore_ascii_case(name.as_str(), "packageId");
                let is_name = eq_ignore_ascii_case(name.as_str(), "displayName") || eq_ignore_ascii_case(
                    name.as_str(),
                    "name",
                );
                if is_id || is_name {
                    proof {
                        lemma_text_suffix(t, path@, name@, Seq::empty());
                    }
                    match parse_text_element(events, path, name.as_str()) {
                        Err(err) => {
                            return Err(err);
                        },
                        Ok(text) => {
                            proof {
                                lemma_suffix_trans(events@, t, cur);
                            }
                            if is_id {
                                dependency.id = text;
                            } else {
                                dependency.name = text;
                            }
                        },
                    }
                } else {
                    proof {
                        lemma_skip_suffix(t, 1);
                    }
                    match skip_element(events) {
                        Err(err) => {
                            return Err(err);
                        },
                        Ok(_) => {
                            proof {
                                lemma_suffix_trans(events@, t, cur);
                            }
                        },
                    }
                }
            },
            XmlEvent::EndElement(name) => {
                if eq_ignore_ascii_case(name.as_str(), "li") {
                    return Ok(dependency);
                }
            },
            _ => {},
        }
    }
}

/// Reads a list of dependencies: each `li` holds a `packageId` and a
/// `displayName` (or `name`); the map is keyed by the id.
pub fn parse_mod_dependencies(events: &mut XmlEvents, path: &str, container_name: &str) -> (r: ParseResult<
    StringMap<ModDependency>,
>)
    ensures
        dependencies_from(old(events)@, path@, container_name@, Seq::empty()).1 == final(events)@,
        map_result(dependencies_from(old(events)@, path@, container_name@, Seq::empty()).0, r, dependency_rel()),
        suffix_of(final(events)@, old(events)@),
{
    let ghost orig = events@;
    proof {
        lemma_dependencies_suffix(orig, path@, container_name@, Seq::empty());
    }
    let mut map: StringMap<ModDependency> = StringMap::new();
    let ghost mut pairs: Seq<(Seq<char>, DependencyView)> = Seq::empty();
    proof {
        lemma_empty_holds(map, dependency_rel());
    }
    loop
        invariant
            orig == old(events)@,
            dependencies_from(orig, path@, container_name@, Seq::empty()) == dependencies_from(
                events@,
                path@,
                container_name@,
                pairs,
            ),
            suffix_of(dependencies_from(orig, path@, container_name@, Seq::empty()).1, orig),
            map.holds_pairs(pairs, dependency_rel()),
        decreases events@.len(),
    {
        events.check();
        let ghost cur = events@;
        proof {
            lemma_suffix_drop(cur);
        }
        let e = events.next();
        if is_terminal_event(&e) {
            let cause = terminal_cause_text(&e);
            return Err(parse_error_text(container_name, path, cause.as_str()));
        }
        match e {
            XmlEvent::StartElement(name) => {
                let ghost t = events@;
                if eq_ignore_ascii_case(name.as_str(), "li") {
                    proof {
                        lemma_dependency_suffix(t, path@, container_name@, Seq::empty(), Seq::empty());
                    }
                    match parse_dependency(events, path, container_name) {
                        Err(err) => {
                            return Err(err);
                        },
                        Ok(dependency) => {
                            proof {
                                lemma_suffix_trans(events@, t, cur);
                            }
                            let ghost w: DependencyView = (dependency.id@, dependency.name@);
                            let key = dependency.id.clone();
                            map.insert_pair(key, dependency, Ghost(pairs), Ghost(w), Ghost(dependency_rel()));
                            proof {
                                pairs = pairs.push((w.0, w));
                            }
                        },
                    }
                } else {
                    proof {
                        lemma_skip_suffix(t, 1);
                    }
                    match skip_element(events) {
                        Err(err) => {
                            return Err(err);
                        },
                        Ok(_) => {
                            proof {
                                lemma_suffix_trans(events@, t, cur);
                            }
                        },
                    }
                }
            },
            XmlEvent::EndElement(name) => {
                if eq_ignore_ascii_case(name.as_str(), container_name) {
                    return Ok(map);
                }
            },
            _ => {},
        }
    }
}

/// What reading a `modMetaData` element has found so far. A field left `None`
/// was not found and keeps the value it had; `authors` is the whole list.
pub struct MetaParse {
    pub id: Option<Seq<char>>,
    pub name: Option<Seq<char>>,
    pub description: Option<Seq<char>>,
    pub authors: Seq<Seq<char>>,
    pub dependencies: Option<Seq<(Seq<char>, DependencyView)>>,
    pub load_after: Option<Seq<Seq<char>>>,
    pub load_before: Option<Seq<Seq<char>>>,
    pub force_load_after: Option<Seq<Seq<char>>>,
    pub force_load_before: Option<Seq<Seq<char>>>,
    pub steam_app_id: Option<Seq<char>>,
}

/// Nothing found yet; the authors are those already known.
pub open spec fn nothing_found(authors: Seq<Seq<char>>) -> MetaParse {
    MetaParse {
        id: None,
        name: None,
        description: None,
        authors,
        dependencies: None,
        load_after: None,
        load_before: None,
        force_load_after: None,
        force_load_before: None,
        steam_app_id: None,
    }
}

/// The authors an `author` element names: its text split at commas, each
/// piece trimmed.
pub open spec fn author_pieces(text: Seq<char>) -> Seq<Seq<char>> {
    split_seq(text, ',').map_values(|p: Seq<char>| trim_seq(p))
}

/// Reading one child named `n` of `modMetaData` (the events after its start
/// tag), with `m` found so far.
pub open spec fn meta_child(t: Seq<EventView>, path: Seq<char>, n: Seq<char>, m: MetaParse) -> (
    Result<MetaParse, Seq<char>>,
    Seq<EventView>,
) {
    if eq_ignore_case(n, "author"@) {
        match text_from(t, path, n, Seq::empty()) {
            (Ok(v), rest) => (Ok(MetaParse { authors: m.authors + author_pieces(v), ..m }), rest),
            (Err(e), rest) => (Err(e), rest),
        }
    } else if eq_ignore_case(n, "authors"@) {
        match list_from(t, path, n, Seq::empty()) {
            (Ok(v), rest) => (Ok(MetaParse { authors: v, ..m }), rest),
            (Err(e), rest) => (Err(e), rest),
        }
    } else if eq_ignore_case(n, "description"@) {
        match text_from(t, path, n, Seq::empty()) {
            (Ok(v), rest) => (Ok(MetaParse { description: Some(v), ..m }), rest),
            (Err(e), rest) => (Err(e), rest),
        }
    } else if eq_ignore_case(n, "forceLoadAfter"@) {
        match list_from(t, path, n, Seq::empty()) {
            (Ok(v), rest) => (Ok(MetaParse { force_load_after: Some(v), ..m }), rest),
            (Err(e), rest) => (Err(e), rest),
        }
    } else if eq_ignore_case(n, "forceLoadBefore"@) {
        match list_from(t, path, n, Seq::empty()) {
            (Ok(v), rest) => (Ok(MetaParse { force_load_before: Some(v), ..m }), rest),
            (Err(e), rest) => (Err(e), rest),
        }
    } else if eq_ignore_case(n, "loadAfter"@) {
        match list_from(t, path, n, Seq::empty()) {
            (Ok(v), rest) => (Ok(MetaParse { load_after: Some(v), ..m }), rest),
            (Err(e), rest) => (Err(e), rest),
        }
    } else if eq_ignore_case(n, "loadBefore"@) {
        match list_from(t, path, n, Seq::empty()) {
            (Ok(v), rest) => (Ok(MetaParse { load_before: Some(v), ..m }), rest),
            (Err(e), rest) => (Err(e), rest),
        }
    } else if eq_ignore_case(n, "modDependencies"@) {
        match dependencies_from(t, path, n, Seq::empty()) {
            (Ok(v), rest) => (Ok(MetaParse { dependencies: Some(v), ..m }), rest),
            (Err(e), rest) => (Err(e), rest),
        }
    } else if eq_ignore_case(n, "name"@) {
        match text_from(t, path, n, Seq::empty()) {
            (Ok(v), rest) => (Ok(MetaParse { name: Some(v), ..m }), rest),
            (Err(e), rest) => (Err(e), rest),
        }
    } else if eq_ignore_case(n, "packageId"@) {
        match text_from(t, path, n, Seq::empty()) {
            (Ok(v), rest) => (Ok(MetaParse { id: Some(v), ..m }), rest),
            (Err(e), rest) => (Err(e), rest),
        }
    } else if eq_ignore_case(n, "steamAppId"@) {
        match text_from(t, path, n, Seq::empty()) {
            (Ok(v), rest) => (Ok(MetaParse { steam_app_id: Some(v), ..m }), rest),
            (Err(e), rest) => (Err(e), rest),
        }
    } else {
        match skip_from(t, 1) {
            (Ok(_), rest) => (Ok(m), rest),
            (Err(e), rest) => (Err(e), rest),
        }
    }
}

/// Reading the children of `modMetaData` up to its end tag, with `m` found so far.
pub open spec fn meta_from(s: Seq<EventView>, path: Seq<char>, m: MetaParse) -> (
    Result<MetaParse, Seq<char>>,
    Seq<EventView>,
)
    decreases s.len(),
{
    if s.len() == 0 {
        (Err(parse_error("event in modMetaData"@, path, end_of_document())), s)
    } else if is_terminal(s[0]) {
        (Err(parse_error("event in modMetaData"@, path, terminal_cause(s[0]))), s)
    } else {
        match s[0] {
            EventView::StartElement(n) => {
                let (r, rest) = meta_child(s.drop_first(), path, n, m);
                match r {
                    Err(e) => (Err(e), rest),
                    Ok(m2) => if rest.len() < s.len() {
                        meta_from(rest, path, m2)
                    } else {
                        (Ok(m2), rest)
                    },
                }
            },
            EventView::EndElement(n) => if eq_ignore_case(n, "modMetaData"@) {
                (Ok(m), s.drop_first())
            } else {
                meta_from(s.drop_first(), path, m)
            },
            _ => meta_from(s.drop_first(), path, m),
        }
    }
}

/// Reading a whole `About.xml` document: every `modMetaData` element is read
/// in turn, other elements are skipped; the end of the document ends the read.
pub open spec fn about_from(s: Seq<EventView>, path: Seq<char>, m: MetaParse) -> Result<MetaParse, Seq<char>>
    decreases s.len(),
{
    if s.len() == 0 {
        Ok(m)
    } else {
        match s[0] {
            EventView::EndDocument => Ok(m),
            EventView::Error(msg) => Err(parse_error("root event"@, path, msg)),
            EventView::StartElement(n) => {
                let (r, rest) = if eq_ignore_case(n, "modMetaData"@) {
                    meta_from(s.drop_first(), path, m)
                } else {
                    match skip_from(s.drop_first(), 1) {
                        (Ok(_), rest) => (Ok(m), rest),
                        (Err(e), rest) => (Err(e), rest),
                    }
                };
                match r {
                    Err(e) => Err(e),
                    Ok(m2) => if rest.len() < s.len() {
                        about_from(rest, path, m2)
                    } else {
                        Ok(m2)
                    },
                }
            },
            _ => about_from(s.drop_first(), path, m),
        }
    }
}

/// A set read from the given items, or left as it was.
pub open spec fn set_found(
    after: crate::collections::StringSet,
    before: crate::collections::StringSet,
    found: Option<Seq<Seq<char>>>,
) -> bool {
    match found {
        Some(items) => after.wf() && after@.to_set() == items.to_set(),
        None => after == before,
    }
}

/// A text read, or left as it was.
pub open spec fn text_found(after: String, before: String, found: Option<Seq<char>>) -> bool {
    match found {
        Some(v) => after@ == v,
        None => after == before,
    }
}

/// `after` is `before` with what `m` found put in: the fields the parse does
/// not touch are unchanged.
pub open spec fn meta_applied(before: ModMetaData, after: ModMetaData, m: MetaParse) -> bool {
    &&& text_found(after.id, before.id, m.id)
    &&& text_found(after.name, before.name, m.name)
    &&& text_found(after.description, before.description, m.description)
    &&& after.authors.deep_view() == m.authors
    &&& match m.dependencies {
        Some(p) => after.dependencies.holds_pairs(p, dependency_rel()),
        None => after.dependencies == before.dependencies,
    }
    &&& set_found(after.load_after, before.load_after, m.load_after)
    &&& set_found(after.load_before, before.load_before, m.load_before)
    &&& set_found(after.force_load_after, before.force_load_after, m.force_load_after)
    &&& set_found(after.force_load_before, before.force_load_before, m.force_load_before)
    &&& match m.steam_app_id {
        Some(v) => after.steam_app_id matches Some(a) && a@ == v,
        None => after.steam_app_id == before.steam_app_id,
    }
    &&& after.short_name == before.short_name
    &&& after.icon_path == before.icon_path
    &&& after.version == before.version
    &&& after.descriptions_by_version == before.descriptions_by_version
    &&& after.dependencies_by_version == before.dependencies_by_version
    &&& after.load_after_by_version == before.load_after_by_version
    &&& after.load_before_by_version == before.load_before_by_version
    &&& after.incompatible_with == before.incompatible_with
    &&& after.incompatible_with_by_version == before.incompatible_with_by_version
    &&& after.supported_versions == before.supported_versions
    &&& after.url == before.url
    &&& after.path == before.path
    &&& after.source == before.source
    &&& after.created == before.created
    &&& after.modified == before.modified
}

/// The authors an `author` element names.
fn authors_of(text: &str) -> (r: Vec<String>)
    ensures
        r.deep_view() == author_pieces(text@),
{
    let pieces = split_char(text, ',');
    let mut out: Vec<String> = Vec::new();
    let mut i: usize = 0;
    while i < pieces.len()
        invariant
            i <= pieces.len(),
            out.deep_view() == author_pieces(text@).take(i as int),
            pieces.deep_view() == split_seq(text@, ','),
        decreases pieces.len() - i,
    {
        let piece = trim(pieces[i].as_str());
        let ghost before = out.deep_view();
        out.push(piece);
        assert(out.deep_view() =~= author_pieces(text@).take(i + 1)) by {
            assert(out.deep_view() =~= before.push(piece@));
        }
        i = i + 1;
    }
    assert(author_pieces(text@).take(pieces.len() as int) =~= author_pieces(text@));
    out
}

/// Reads one child named `name` of `modMetaData` into `mod_meta`.
fn parse_meta_child(
    events: &mut XmlEvents,
    path: &str,
    name: &str,
    mod_meta: &mut ModMetaData,
    Ghost(before): Ghost<ModMetaData>,
    Ghost(m): Ghost<MetaParse>,
) -> (r: ParseResult<()>)
    requires
        meta_applied(before, *old(mod_meta), m),
    ensures
        meta_child(old(events)@, path@, name@, m).1 == final(events)@,
        match meta_child(old(events)@, path@, name@, m).0 {
            Ok(m2) => r is Ok && meta_applied(before, *final(mod_meta), m2),
            Err(e) => r is Err && r->Err_0@ == e,
        },
{
    if eq_ignore_ascii_case(name, "author") {
        let text = match parse_text_element(events, path, name) {
            Ok(t) => t,
            Err(e) => {
                return Err(e);
            },
        };
        let mut pieces = authors_of(text.as_str());
        let ghost old_authors = mod_meta.authors.deep_view();
        let ghost added = pieces.deep_view();
        mod_meta.authors.append(&mut pieces);
        assert(mod_meta.authors.deep_view() =~= old_authors + added);
        Ok(())
    } else if eq_ignore_ascii_case(name, "authors") {
        match parse_string_collection(events, path, name) {
            Ok(items) => {
                mod_meta.authors = items;
                Ok(())
            },
            Err(e) => Err(e),
        }
    } else if eq_ignore_ascii_case(name, "description") {
        match parse_text_element(events, path, name) {
            Ok(t) => {
                mod_meta.description = t;
                Ok(())
            },
            Err(e) => Err(e),
        }
    } else if eq_ignore_ascii_case(name, "forceLoadAfter") {
        match parse_string_set(events, path, name) {
            Ok(set) => {
                mod_meta.force_load_after = set;
                Ok(())
            },
            Err(e) => Err(e),
        }
    } else if eq_ignore_ascii_case(name, "forceLoadBefore") {
        match parse_string_set(events, path, name) {
            Ok(set) => {
                mod_meta.force_load_before = set;
                Ok(())
            },
            Err(e) => Err(e),
        }
    } else if eq_ignore_ascii_case(name, "loadAfter") {
        match parse_string_set(events, path, name) {
            Ok(set) => {
                mod_meta.load_after = set;
                Ok(())
            },
            Err(e) => Err(e),
        }
    } else if eq_ignore_ascii_case(name, "loadBefore") {
        match parse_string_set(events, path, name) {
            Ok(set) => {
                mod_meta.load_before = set;
                Ok(())
            },
            Err(e) => Err(e),
        }
    } else if eq_ignore_ascii_case(name, "modDependencies") {
        match parse_mod_dependencies(events, path, name) {
            Ok(deps) => {
                mod_meta.dependencies = deps;
                Ok(())
            },
            Err(e) => Err(e),
        }
    } else if eq_ignore_ascii_case(name, "name") {
        match parse_text_element(events, path, name) {
            Ok(t) => {
                mod_meta.name = t;
                Ok(())
            },
            Err(e) => Err(e),
        }
    } else if eq_ignore_ascii_case(name, "packageId") {
        match parse_text_element(events, path, name) {
            Ok(t) => {
                mod_meta.id = t;
                Ok(())
            },
            Err(e) => Err(e),
        }
    } else if eq_ignore_ascii_case(name, "steamAppId") {
        match parse_text_element(events, path, name) {
            Ok(t) => {
                mod_meta.steam_app_id = Some(t);
                Ok(())
            },
            Err(e) => Err(e),
        }
    } else {
        skip_element(events)
    }
}

pub proof fn lemma_meta_child_suffix(t: Seq<EventView>, path: Seq<char>, n: Seq<char>, m: MetaParse)
    ensures
        suffix_of(meta_child(t, path, n, m).1, t),
{
    lemma_text_suffix(t, path, n, Seq::empty());
    lemma_list_suffix(t, path, n, Seq::empty());
    lemma_dependencies_suffix(t, path, n, Seq::empty());
    lemma_skip_suffix(t, 1);
}

pub proof fn lemma_meta_suffix(s: Seq<EventView>, path: Seq<char>, m: MetaParse)
    ensures
        suffix_of(meta_from(s, path, m).1, s),
    decreases s.len(),
{
    let res = meta_from(s, path, m).1;
    if s.len() == 0 || is_terminal(s[0]) {
        assert(s =~= s.skip(0));
    } else {
        lemma_suffix_drop(s);
        let t = s.drop_first();
        match s[0] {
            EventView::StartElement(n) => {
                lemma_meta_child_suffix(t, path, n, m);
                let (r, rest) = meta_child(t, path, n, m);
                lemma_suffix_trans(rest, t, s);
                if r is Ok && rest.len() < s.len() {
                    lemma_meta_suffix(rest, path, r->Ok_0);
                    lemma_suffix_trans(res, rest, s);
                }
            },
            EventView::EndElement(n) => if !eq_ignore_case(n, "modMetaData"@) {
                lemma_meta_suffix(t, path, m);
                lemma_suffix_trans(res, t, s);
            },
            _ => {
                lemma_meta_suffix(t, path, m);
                lemma_suffix_trans(res, t, s);
            },
        }
    }
}

/// Reads the children of a `modMetaData` element into `mod_meta`, up to its
/// end tag.
fn parse_mod_metadata_data(
    events: &mut XmlEvents,
    mod_meta: &mut ModMetaData,
    Ghost(before): Ghost<ModMetaData>,
    Ghost(m0): Ghost<MetaParse>,
) -> (r: ParseResult<()>)
    requires
        meta_applied(before, *old(mod_meta), m0),
    ensures
        meta_from(old(events)@, before.path@, m0).1 == final(events)@,
        match meta_from(old(events)@, before.path@, m0).0 {
            Ok(m2) => r is Ok && meta_applied(before, *final(mod_meta), m2),
            Err(e) => r is Err && r->Err_0@ == e,
        },
{
    let path = mod_meta.path.clone();
    let ghost orig = events@;
    let ghost mut m = m0;
    proof {
        lemma_meta_suffix(orig, path@, m0);
    }
    loop
        invariant
            orig == old(events)@,
            path@ == before.path@,
            meta_from(orig, path@, m0) == meta_from(events@, path@, m),
            suffix_of(meta_from(orig, path@, m0).1, orig),
            meta_applied(before, *mod_meta, m),
        decreases events@.len(),
    {
        events.check();
        let ghost cur = events@;
        proof {
            lemma_suffix_drop(cur);
        }
        let e = events.next();
        if is_terminal_event(&e) {
            let cause = terminal_cause_text(&e);
            return Err(parse_error_text("event in modMetaData", path.as_str(), cause.as_str()));
        }
        match e {
            XmlEvent::StartElement(name) => {
                let ghost t = events@;
                proof {
                    lemma_meta_child_suffix(t, path@, name@, m);
                }
                match parse_meta_child(events, path.as_str(), name.as_str(), mod_meta, Ghost(before), Ghost(m)) {
                    Err(err) => {
                        return Err(err);
                    },
                    Ok(_) => {
                        proof {
                            lemma_suffix_trans(events@, t, cur);
                            m = meta_child(t, path@, name@, m).0->Ok_0;
                        }
                    },
                }
            },
            XmlEvent::EndElement(name) => {
                if eq_ignore_ascii_case(name.as_str(), "modMetaData") {
                    return Ok(());
                }
            },
            _ => {},
        }
    }
}

/// Reads a whole `About.xml` document into `mod_meta`: the children of each
/// `modMetaData` element fill its fields, other elements are skipped.
pub fn parse_mod_metadata(events: XmlEvents, mod_meta: &mut ModMetaData) -> (r: ParseResult<()>)
    ensures
        match about_from(events@, old(mod_meta).path@, nothing_found(old(mod_meta).authors.deep_view())) {
            Ok(m) => r is Ok && meta_applied(*old(mod_meta), *final(mod_meta), m),
            Err(e) => r is Err && r->Err_0@ == e,
        },
{
    let mut stream = events;
    let ghost before = *mod_meta;
    let ghost m0 = nothing_found(mod_meta.authors.deep_view());
    let ghost mut m = m0;
    let ghost orig = stream@;
    let path = mod_meta.path.clone();
    loop
        invariant
            path@ == before.path@,
            before == *old(mod_meta),
            orig == events@,
            m0 == nothing_found(before.authors.deep_view()),
            about_from(orig, path@, m0) == about_from(stream@, path@, m),
            meta_applied(before, *mod_meta, m),
        decreases stream@.len(),
    {
        stream.check();
        let ghost cur = stream@;
        proof {
            lemma_suffix_drop(cur);
        }
        let e = stream.next();
        match e {
            XmlEvent::EndDocument => {
                return Ok(());
            },
            XmlEvent::Error(msg) => {
                return Err(parse_error_text("root event", path.as_str(), msg.as_str()));
            },
            XmlEvent::StartElement(name) => {
                let ghost t = stream@;
                if eq_ignore_ascii_case(name.as_str(), "modMetaData") {
                    proof {
                        lemma_meta_suffix(t, path@, m);
                    }
                    match parse_mod_metadata_data(&mut stream, mod_meta, Ghost(before), Ghost(m)) {
                        Err(err) => {
                            return Err(err);
                        },
                        Ok(_) => {
                            proof {
                                lemma_suffix_trans(stream@, t, cur);
                                m = meta_from(t, path@, m).0->Ok_0;
                            }
                        },
                    }
                } else {
                    proof {
                        lemma_skip_suffix(t, 1);
                    }
                    match skip_element(&mut stream) {
                        Err(err) => {
                            return Err(err);
                        },
                        Ok(_) => {
                            proof {
                                lemma_suffix_trans(stream@, t, cur);
                            }
                        },
                    }
                }
            },
            _ => {},
        }
    }
}

} // verus!
