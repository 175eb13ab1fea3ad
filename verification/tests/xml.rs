use rimru::game::xml::{
    create_reader, parse_map_of_maps, parse_string_collection, parse_string_collection_map, parse_string_list, parse_string_map,
    parse_string_set, parse_text_element, skip_element, DependencyListParser, StringListParser, XmlEvent, XmlEvents,
};

/// Reads up to and including the start tag of the first element named `name`.
fn open(doc: &str, name: &str) -> XmlEvents {
    let mut events = create_reader(doc.as_bytes());
    loop {
        match events.next() {
            XmlEvent::StartElement(n) if n == name => return events,
            XmlEvent::EndDocument | XmlEvent::Error(_) => panic!("no element {name}"),
            _ => {}
        }
    }
}

#[test]
fn xml_reader_reports_events_and_stays_at_the_end() {
    let mut events = create_reader(b"<a>hi<!-- no --><![CDATA[ there]]></a>");
    assert!(matches!(events.next(), XmlEvent::StartDocument));
    assert!(matches!(events.next(), XmlEvent::StartElement(n) if n == "a"));
    assert!(matches!(events.next(), XmlEvent::Characters(t) if t == "hi there"));
    assert!(matches!(events.next(), XmlEvent::EndElement(n) if n == "a"));
    assert!(matches!(events.next(), XmlEvent::EndDocument));
    assert!(matches!(events.next(), XmlEvent::EndDocument));
}

#[test]
fn xml_reader_error_is_sticky() {
    let mut events = create_reader(b"<a><b></a>");
    let mut saw_error = false;
    for _ in 0..10 {
        if let XmlEvent::Error(_) = events.next() {
            saw_error = true;
            assert!(matches!(events.next(), XmlEvent::Error(_)));
            break;
        }
    }
    assert!(saw_error);
}

#[test]
fn xml_from_events_ends_streams() {
    let mut events = XmlEvents::from_events(vec![XmlEvent::Characters("x".into())]);
    assert!(matches!(events.next(), XmlEvent::Characters(t) if t == "x"));
    assert!(matches!(events.next(), XmlEvent::EndDocument));
}

#[test]
fn xml_text_element_joins_text_and_skips_children() {
    let mut events = open("<r><name>Mod <b>bold</b>Name</name><after/></r>", "name");
    assert_eq!(parse_text_element(&mut events, "p", "name").unwrap(), "Mod Name");
    assert!(matches!(events.next(), XmlEvent::StartElement(n) if n == "after"));
}

#[test]
fn xml_text_element_case_insensitive_end() {
    let mut events = open("<r><Name>x</Name></r>", "Name");
    assert_eq!(parse_text_element(&mut events, "p", "NAME").unwrap(), "x");
}

#[test]
fn xml_text_element_fails_at_the_end_of_the_document() {
    let mut events = XmlEvents::from_events(vec![XmlEvent::Characters("x".into()), XmlEvent::EndDocument]);
    let err = parse_text_element(&mut events, "file.xml", "name").unwrap_err();
    assert_eq!(err, "error parsing name from \"file.xml\": unexpected end of document");
}

#[test]
fn xml_reader_error_fails_parse() {
    let mut events = open("<r><name>x</r>", "name");
    let err = parse_text_element(&mut events, "f", "name").unwrap_err();
    assert!(err.starts_with("error parsing name from \"f\": "), "{err}");
}

#[test]
fn xml_skip_element_skips_nested() {
    let mut events = open("<r><s><t><u/></t>text</s><next/></r>", "s");
    skip_element(&mut events).unwrap();
    assert!(matches!(events.next(), XmlEvent::StartElement(n) if n == "next"));
}

#[test]
fn xml_skip_element_reports_end_of_document() {
    let mut events = XmlEvents::from_events(vec![XmlEvent::StartElement("x".into())]);
    assert_eq!(skip_element(&mut events).unwrap_err(), "error skipping element: unexpected end of document");
}

#[test]
fn xml_string_collection_reads_li_items() {
    let doc = "<r><loadAfter>\n  <li>foo</li>\n  <li>bar</li>\n  <li></li>\n  <li>foo</li>\n</loadAfter></r>";
    let mut events = open(doc, "loadAfter");
    let items = parse_string_collection(&mut events, "p", "loadAfter").unwrap();
    assert_eq!(items, vec!["foo".to_string(), "bar".to_string(), "foo".to_string()]);

    let mut events = open(doc, "loadAfter");
    let list = parse_string_list(&mut events, "p", "loadAfter").unwrap();
    assert_eq!(list, vec!["foo".to_string(), "bar".to_string(), "foo".to_string()]);
    assert!(matches!(events.next(), XmlEvent::EndElement(n) if n == "r"));

    let mut events = open(doc, "loadAfter");
    let set = parse_string_set(&mut events, "p", "loadAfter").unwrap();
    assert_eq!(set.as_slice(), &["bar".to_string(), "foo".to_string()]);
    assert!(set.contains("foo"));
    assert!(!set.contains("baz"));
}

#[test]
fn xml_string_map_keeps_last_value() {
    let doc = "<r><m><k1>v1</k1><k2>v2</k2><k1>v3</k1></m></r>";
    let mut events = open(doc, "m");
    let map = parse_string_map(&mut events, "p", "m").unwrap();
    assert_eq!(map.len(), 2);
    assert_eq!(map.get("k1").unwrap(), "v3");
    assert_eq!(map.get("k2").unwrap(), "v2");
    assert!(map.get("k3").is_none());
    assert_eq!(map.keys(), &["k1".to_string(), "k2".to_string()]);
}

#[test]
fn xml_string_collection_map_reads_lists() {
    let doc = "<r><c><Version1><li>foo</li><li>bar</li></Version1><Version2><li>baz</li></Version2></c></r>";
    let mut events = open(doc, "c");
    let map = parse_string_collection_map(&mut events, "p", "c").unwrap();
    assert_eq!(map.get("Version1").unwrap(), &vec!["foo".to_string(), "bar".to_string()]);
    assert_eq!(map.get("Version2").unwrap(), &vec!["baz".to_string()]);
}

#[test]
fn xml_map_of_maps_reads_dependency_lists() {
    let doc = "<r><modDependenciesByVersion><v1.4><li><packageId>x.y</packageId><displayName>XY</displayName></li></v1.4></modDependenciesByVersion></r>";
    let mut events = open(doc, "modDependenciesByVersion");
    let map = parse_map_of_maps(&mut events, "p", "modDependenciesByVersion", &DependencyListParser).unwrap();
    let deps = map.get("v1.4").unwrap();
    let dep = deps.get("x.y").unwrap();
    assert_eq!(dep.id, "x.y");
    assert_eq!(dep.name, "XY");
}

#[test]
fn xml_map_of_maps_takes_the_value_parser() {
    let doc = "<r><c><V1><li>foo</li></V1> <V2><li>bar</li><li>baz</li></V2><V1><li>qux</li></V1></c><after/></r>";
    let mut events = open(doc, "c");
    let map = parse_map_of_maps(&mut events, "p", "c", &StringListParser).unwrap();
    assert_eq!(map.get("V1").unwrap(), &vec!["qux".to_string()]);
    assert_eq!(map.get("V2").unwrap(), &vec!["bar".to_string(), "baz".to_string()]);
    assert!(matches!(events.next(), XmlEvent::StartElement(n) if n == "after"));
}

#[test]
fn xml_error_shows_the_path_as_debug_of_a_path() {
    let mut events = XmlEvents::from_events(vec![XmlEvent::EndDocument]);
    let err = parse_text_element(&mut events, "/mods/Bob's Mod\u{301}", "name").unwrap_err();
    assert_eq!(err, "error parsing name from \"/mods/Bob\\'s Mod\\u{301}\": unexpected end of document");
}
