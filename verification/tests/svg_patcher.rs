use obadgen::patcher::svg::{
    add_assertion, add_namespace, bake_events, find_verify, is_assertion_name, is_svg_root_name,
    set_value, step, Attribute, Event, Name, StartTag, State,
};
use obadgen::patcher::Patcher;
use obadgen::patcher::PatcherError;
use xml::reader::XmlEvent;

const SVG_NS: &str = "http://www.w3.org/2000/svg";
const OB_NS: &str = "http://openbadges.org";

fn rewrite(input: &str, verify: &str, fail: bool) -> Result<String, PatcherError> {
    obadgen::patcher::svg::Patcher::rewrite(input.as_bytes().to_vec(), verify, fail)
        .map(|bytes| String::from_utf8(bytes).unwrap())
}

/// The events of a document, without the start and the end of the document.
fn events(text: &str) -> Vec<XmlEvent> {
    xml::reader::EventReader::new(text.as_bytes())
        .into_iter()
        .map(|e| e.unwrap())
        .filter(|e| !matches!(e, XmlEvent::StartDocument { .. } | XmlEvent::EndDocument))
        .collect()
}

/// Each element start as (prefix:local, namespace, attributes), each end as its name.
fn outline(text: &str) -> Vec<String> {
    events(text)
        .iter()
        .map(|e| match e {
            XmlEvent::StartElement { name, attributes, .. } => {
                let attrs: Vec<String> =
                    attributes.iter().map(|a| format!("{}={}", a.name.local_name, a.value)).collect();
                format!("<{} {{{}}} [{}]", name.local_name, name.namespace.clone().unwrap_or_default(), attrs.join(","))
            }
            XmlEvent::EndElement { name } => format!("</{}", name.local_name),
            XmlEvent::Characters(t) | XmlEvent::Whitespace(t) => format!("text {:?}", t),
            other => format!("{:?}", other),
        })
        .collect()
}

fn root_namespace(text: &str, prefix: &str) -> Option<String> {
    for e in events(text) {
        if let XmlEvent::StartElement { namespace, .. } = e {
            return namespace.get(prefix).map(|s| s.to_owned());
        }
    }
    None
}

#[test]
fn svg_without_marker_gets_one() {
    let input = r#"<svg xmlns="http://www.w3.org/2000/svg"><rect/></svg>"#;
    let output = rewrite(input, "V1", true).unwrap();
    let expected = r#"<svg xmlns="http://www.w3.org/2000/svg" xmlns:openbadges="http://openbadges.org"><openbadges:assertion verify="V1"></openbadges:assertion><rect/></svg>"#;
    assert_eq!(events(&output), events(expected));
    assert_eq!(
        outline(&output),
        vec![
            format!("<svg {{{}}} []", SVG_NS),
            format!("<assertion {{{}}} [verify=V1]", OB_NS),
            "</assertion".to_owned(),
            format!("<rect {{{}}} []", SVG_NS),
            "</rect".to_owned(),
            "</svg".to_owned(),
        ]
    );
    assert_eq!(output.matches("xmlns:openbadges=").count(), 1);
    assert_eq!(output.matches("<openbadges:assertion").count(), 1);
}

#[test]
fn svg_with_matching_marker_is_left_as_it_is() {
    let input = r#"<svg xmlns="http://www.w3.org/2000/svg" xmlns:openbadges="http://openbadges.org"><openbadges:assertion verify="V1"></openbadges:assertion><rect/></svg>"#;
    let output = rewrite(input, "V1", true).unwrap();
    assert_eq!(events(&output), events(input));
    assert_eq!(output.matches("<openbadges:assertion").count(), 1);
    assert_eq!(output.matches("xmlns:openbadges=").count(), 1);
}

#[test]
fn svg_bake_twice_is_idempotent() {
    let input = "<svg xmlns=\"http://www.w3.org/2000/svg\">\n  <g id=\"a\"><rect/></g>\n  <!-- c -->text</svg>";
    let once = rewrite(input, "P", true).unwrap();
    let twice = rewrite(&once, "P", true).unwrap();
    assert_eq!(twice, once);
    assert_eq!(once.matches("<openbadges:assertion").count(), 1);
    assert_eq!(outline(&once)[1], format!("<assertion {{{}}} [verify=P]", OB_NS));
}

#[test]
fn svg_conflict_is_reported() {
    let marked = rewrite(r#"<svg xmlns="http://www.w3.org/2000/svg"><rect/></svg>"#, "A", true).unwrap();
    match rewrite(&marked, "B", true) {
        Err(PatcherError::VerifyAlreadySet { present, proposed }) => {
            assert_eq!(present, "A");
            assert_eq!(proposed, "B");
        }
        other => panic!("unexpected: {:?}", other),
    }
}

#[test]
fn svg_overwrite_replaces_the_payload() {
    let marked = rewrite(r#"<svg xmlns="http://www.w3.org/2000/svg"><rect/></svg>"#, "A", true).unwrap();
    let output = rewrite(&marked, "B", false).unwrap();
    assert_eq!(
        outline(&output),
        vec![
            format!("<svg {{{}}} []", SVG_NS),
            format!("<assertion {{{}}} [verify=B]", OB_NS),
            "</assertion".to_owned(),
            format!("<rect {{{}}} []", SVG_NS),
            "</rect".to_owned(),
            "</svg".to_owned(),
        ]
    );
    assert!(!output.contains("verify=\"A\""));
    assert!(matches!(rewrite(&output, "B", true), Ok(ref again) if *again == output));
}

#[test]
fn svg_overwrite_keeps_other_attributes_and_the_prefix() {
    let input = r#"<svg xmlns="http://www.w3.org/2000/svg" xmlns:ob="http://openbadges.org"><ob:assertion id="m" verify="A" lang="en">inside</ob:assertion></svg>"#;
    let output = rewrite(input, "B", false).unwrap();
    assert_eq!(
        outline(&output),
        vec![
            format!("<svg {{{}}} []", SVG_NS),
            format!("<assertion {{{}}} [id=m,verify=B,lang=en]", OB_NS),
            "text \"inside\"".to_owned(),
            "</assertion".to_owned(),
            "</svg".to_owned(),
        ]
    );
    assert!(output.contains("<ob:assertion"));
    assert_eq!(root_namespace(&output, "openbadges").as_deref(), Some(OB_NS));
}

#[test]
fn svg_content_is_preserved() {
    let input = r##"<?xml version="1.0" encoding="UTF-8"?><!-- before --><svg xmlns="http://www.w3.org/2000/svg" xmlns:xlink="http://www.w3.org/1999/xlink" viewBox="0 0 1 1" version="1.1"><title>T &amp; t</title><g><use xlink:href="#a"/><![CDATA[raw <data>]]></g><?pi data?></svg>"##;
    let output = rewrite(input, "P", true).unwrap();
    let before = events(input);
    let after = events(&output);
    // the root, then the new marker, then everything else as it was
    assert_eq!(after.len(), before.len() + 2);
    assert_eq!(&outline(&output)[3..], &outline(input)[1..]);
    assert_eq!(outline(input).len(), 11);
    match (&before[0], &after[0]) {
        (
            XmlEvent::StartElement { name: n0, attributes: a0, namespace: ns0 },
            XmlEvent::StartElement { name: n1, attributes: a1, namespace: ns1 },
        ) => {
            assert_eq!(n0, n1);
            assert_eq!(a0, a1);
            let mut expected = ns0.clone();
            expected.put("openbadges", OB_NS);
            assert_eq!(*ns1, expected);
        }
        other => panic!("unexpected: {:?}", other),
    }
}

#[test]
fn svg_declared_prefix_is_not_declared_again() {
    let input = r#"<svg xmlns="http://www.w3.org/2000/svg" xmlns:openbadges="http://openbadges.org"><rect/></svg>"#;
    let output = rewrite(input, "P", true).unwrap();
    assert_eq!(output.matches("xmlns:openbadges=").count(), 1);
    let taken = r#"<svg xmlns="http://www.w3.org/2000/svg" xmlns:openbadges="urn:other"><rect/></svg>"#;
    let output = rewrite(taken, "P", true).unwrap();
    assert_eq!(root_namespace(&output, "openbadges").as_deref(), Some("urn:other"));
}

#[test]
fn svg_marker_goes_before_leading_whitespace() {
    let input = "<svg xmlns=\"http://www.w3.org/2000/svg\">\n  <rect/>\n</svg>";
    let output = rewrite(input, "P", true).unwrap();
    let o = outline(&output);
    assert_eq!(o[1], format!("<assertion {{{}}} [verify=P]", OB_NS));
    assert_eq!(o[2], "</assertion");
    assert_eq!(o[3], "text \"\\n  \"");
}

#[test]
fn svg_marker_after_whitespace_is_not_seen() {
    // The marker is looked for right after the start tag of the root, nowhere else.
    let input = "<svg xmlns=\"http://www.w3.org/2000/svg\" xmlns:openbadges=\"http://openbadges.org\">\n<openbadges:assertion verify=\"A\"/></svg>";
    let output = rewrite(input, "B", true).unwrap();
    assert_eq!(output.matches("<openbadges:assertion").count(), 2);
    assert_eq!(outline(&output)[1], format!("<assertion {{{}}} [verify=B]", OB_NS));
}

#[test]
fn svg_marker_without_payload_gets_a_sibling() {
    let input = r#"<svg xmlns="http://www.w3.org/2000/svg" xmlns:openbadges="http://openbadges.org"><openbadges:assertion/><rect/></svg>"#;
    let output = rewrite(input, "P", true).unwrap();
    assert_eq!(
        outline(&output),
        vec![
            format!("<svg {{{}}} []", SVG_NS),
            format!("<assertion {{{}}} [verify=P]", OB_NS),
            "</assertion".to_owned(),
            format!("<assertion {{{}}} []", OB_NS),
            "</assertion".to_owned(),
            format!("<rect {{{}}} []", SVG_NS),
            "</rect".to_owned(),
            "</svg".to_owned(),
        ]
    );
}

#[test]
fn svg_root_without_namespace_and_in_capitals_counts() {
    let output = rewrite("<SVG><rect/></SVG>", "P", true).unwrap();
    assert_eq!(output.matches("<openbadges:assertion").count(), 1);
    assert_eq!(root_namespace(&output, "openbadges").as_deref(), Some(OB_NS));
}

#[test]
fn other_documents_pass_unchanged() {
    let input = r#"<html xmlns="http://www.w3.org/1999/xhtml"><body>x</body></html>"#;
    let output = rewrite(input, "P", true).unwrap();
    assert_eq!(events(&output), events(input));
    assert!(!output.contains("openbadges"));
    let foreign = r#"<x:svg xmlns:x="urn:not-svg"><rect/></x:svg>"#;
    let output = rewrite(foreign, "P", true).unwrap();
    assert!(!output.contains("openbadges"));
}

#[test]
fn svg_only_the_first_root_counts() {
    let input = r#"<svg xmlns="http://www.w3.org/2000/svg"><svg><rect/></svg></svg>"#;
    let output = rewrite(input, "P", true).unwrap();
    assert_eq!(output.matches("<openbadges:assertion").count(), 1);
    assert_eq!(output.matches("xmlns:openbadges=").count(), 1);
}

#[test]
fn malformed_xml_is_a_reading_error() {
    match rewrite("<svg><rect></svg>", "P", true) {
        Err(PatcherError::XmlReading(_)) => {}
        other => panic!("unexpected: {:?}", other),
    }
    match rewrite("", "P", true) {
        Err(PatcherError::XmlReading(_)) => {}
        other => panic!("unexpected: {:?}", other),
    }
}

#[test]
fn conflict_comes_before_a_later_reading_error() {
    let input = r#"<svg xmlns="http://www.w3.org/2000/svg" xmlns:openbadges="http://openbadges.org"><openbadges:assertion verify="A"></openbadges:assertion><rect></svg>"#;
    assert!(matches!(rewrite(input, "B", true), Err(PatcherError::VerifyAlreadySet { .. })));
    assert!(matches!(rewrite(input, "B", false), Err(PatcherError::XmlReading(_))));
}

fn name(local: &str, namespace: Option<&str>, prefix: Option<&str>) -> Name {
    Name {
        local_name: local.to_owned(),
        namespace: namespace.map(str::to_owned),
        prefix: prefix.map(str::to_owned),
    }
}

fn attribute(local: &str, value: &str) -> Attribute {
    Attribute { name: name(local, None, None), value: value.to_owned() }
}

fn tag(n: Name, attributes: Vec<Attribute>) -> StartTag {
    StartTag { name: n, attributes, namespace: xml::namespace::Namespace::empty() }
}

fn svg_root() -> StartTag {
    tag(name("svg", Some(SVG_NS), None), vec![attribute("version", "1.1")])
}

fn marker(attributes: Vec<Attribute>) -> StartTag {
    tag(name("assertion", Some(OB_NS), Some("openbadges")), attributes)
}

fn text(t: &str) -> Event {
    Event::Other(XmlEvent::Characters(t.to_owned()))
}

/// An event in a form that can be compared.
fn show(e: &Event) -> String {
    match e {
        Event::Start(t) => {
            let attrs: Vec<String> = t
                .attributes
                .iter()
                .map(|a| format!("{}={}", a.name.local_name, a.value))
                .collect();
            let ns: Vec<String> = t.namespace.0.iter().map(|(k, v)| format!("{}->{}", k, v)).collect();
            format!(
                "<{}:{} {{{}}} [{}] ({})",
                t.name.prefix.clone().unwrap_or_default(),
                t.name.local_name,
                t.name.namespace.clone().unwrap_or_default(),
                attrs.join(","),
                ns.join(",")
            )
        }
        Event::End(Some(n)) => format!("</{}", n.local_name),
        Event::End(None) => "</".to_owned(),
        Event::Other(o) => format!("{:?}", o),
    }
}

fn shown(events: &[Event]) -> Vec<String> {
    events.iter().map(show).collect()
}

const NEW_MARKER: &str = "<openbadges:assertion {http://openbadges.org} [verify=P] ()";

#[test]
fn names_are_recognised() {
    assert!(is_svg_root_name(&name("svg", Some(SVG_NS), None)));
    assert!(is_svg_root_name(&name("SvG", None, None)));
    assert!(!is_svg_root_name(&name("svg", Some("urn:x"), None)));
    assert!(!is_svg_root_name(&name("svgs", None, None)));
    assert!(is_assertion_name(&name("assertion", Some(OB_NS), Some("anything"))));
    assert!(!is_assertion_name(&name("assertion", None, Some("openbadges"))));
    assert!(!is_assertion_name(&name("Assertion", Some(OB_NS), None)));
}

#[test]
fn the_last_verify_attribute_counts() {
    assert_eq!(find_verify(&vec![]), None);
    assert_eq!(find_verify(&vec![attribute("id", "x")]), None);
    assert_eq!(find_verify(&vec![attribute("verify", "a"), attribute("id", "x")]), Some(0));
    let two = vec![
        attribute("verify", "a"),
        Attribute { name: name("verify", Some("urn:x"), Some("x")), value: "b".to_owned() },
        attribute("id", "x"),
    ];
    assert_eq!(find_verify(&two), Some(1));
}

#[test]
fn set_value_replaces_one_value() {
    let t = marker(vec![attribute("id", "x"), attribute("verify", "a"), attribute("z", "z")]);
    let t = set_value(t, 1, "b");
    assert_eq!(show(&Event::Start(t)), "<openbadges:assertion {http://openbadges.org} [id=x,verify=b,z=z] ()");
}

#[test]
fn add_namespace_declares_on_the_root_only() {
    let mut root = svg_root();
    assert!(add_namespace(&mut root));
    assert_eq!(root.namespace.get("openbadges"), Some(OB_NS));
    assert_eq!(root.namespace.0.len(), 1);
    let mut taken = svg_root();
    taken.namespace.put("openbadges", "urn:other");
    taken.namespace.put("a", "urn:a");
    assert!(add_namespace(&mut taken));
    assert_eq!(taken.namespace.get("openbadges"), Some("urn:other"));
    assert_eq!(taken.namespace.0.len(), 2);
    let mut other = tag(name("g", Some(SVG_NS), None), vec![]);
    assert!(!add_namespace(&mut other));
    assert!(other.namespace.0.is_empty());
}

#[test]
fn add_assertion_appends_start_and_end() {
    let mut events = vec![text("x")];
    add_assertion(&mut events, "P");
    assert_eq!(shown(&events), vec![show(&text("x")), NEW_MARKER.to_owned(), "</".to_owned()]);
}

#[test]
fn step_before_the_root() {
    let (state, written) = step(State::WaitingForRoot, text("x"), "P", true).unwrap();
    assert_eq!(state, State::WaitingForRoot);
    assert_eq!(shown(&written), vec![show(&text("x"))]);
    let (state, written) = step(State::WaitingForRoot, Event::Start(marker(vec![])), "P", true).unwrap();
    assert_eq!(state, State::WaitingForRoot);
    assert_eq!(shown(&written), vec![show(&Event::Start(marker(vec![])))]);
    let (state, written) = step(State::WaitingForRoot, Event::Start(svg_root()), "P", true).unwrap();
    assert_eq!(state, State::PostRootPendingAssertion);
    assert_eq!(
        shown(&written),
        vec!["<:svg {http://www.w3.org/2000/svg} [version=1.1] (openbadges->http://openbadges.org)".to_owned()]
    );
}

#[test]
fn step_after_the_root() {
    let s = State::PostRootPendingAssertion;
    let (state, written) = step(s, text("x"), "P", true).unwrap();
    assert_eq!(state, State::Streaming);
    assert_eq!(shown(&written), vec![NEW_MARKER.to_owned(), "</".to_owned(), show(&text("x"))]);

    let same = || Event::Start(marker(vec![attribute("verify", "P")]));
    let (state, written) = step(s, same(), "P", true).unwrap();
    assert_eq!(state, State::Streaming);
    assert_eq!(shown(&written), vec![show(&same())]);

    let differs = || Event::Start(marker(vec![attribute("verify", "A"), attribute("id", "i")]));
    match step(s, differs(), "P", true) {
        Err(PatcherError::VerifyAlreadySet { present, proposed }) => {
            assert_eq!(present, "A");
            assert_eq!(proposed, "P");
        }
        other => panic!("unexpected: {:?}", other),
    }
    let (state, written) = step(s, differs(), "P", false).unwrap();
    assert_eq!(state, State::Streaming);
    assert_eq!(
        shown(&written),
        vec!["<openbadges:assertion {http://openbadges.org} [verify=P,id=i] ()".to_owned()]
    );

    let bare = || Event::Start(marker(vec![attribute("id", "i")]));
    let (state, written) = step(s, bare(), "P", true).unwrap();
    assert_eq!(state, State::Streaming);
    assert_eq!(shown(&written), vec![NEW_MARKER.to_owned(), "</".to_owned(), show(&bare())]);

    let (state, written) = step(s, Event::Start(svg_root()), "P", true).unwrap();
    assert_eq!(state, State::Streaming);
    assert_eq!(shown(&written), vec![NEW_MARKER.to_owned(), "</".to_owned(), show(&Event::Start(svg_root()))]);
}

#[test]
fn step_while_streaming() {
    for e in [
        || text("x"),
        || Event::Start(svg_root()),
        || Event::Start(marker(vec![attribute("verify", "A")])),
        || Event::End(Some(name("svg", Some(SVG_NS), None))),
        || Event::End(None),
    ] {
        let (state, written) = step(State::Streaming, e(), "P", true).unwrap();
        assert_eq!(state, State::Streaming);
        assert_eq!(shown(&written), vec![show(&e())]);
    }
}

fn document(first_child: Option<Event>) -> Vec<Event> {
    let mut events = vec![Event::Other(XmlEvent::Comment("c".to_owned())), Event::Start(svg_root())];
    events.extend(first_child);
    events.push(Event::Start(tag(name("rect", Some(SVG_NS), None), vec![])));
    events.push(Event::End(Some(name("rect", Some(SVG_NS), None))));
    events.push(Event::End(Some(name("svg", Some(SVG_NS), None))));
    events
}

#[test]
fn bake_events_on_a_whole_document() {
    let out = bake_events(document(None), "P", true).unwrap();
    let mut expected = shown(&document(None));
    expected[1] = "<:svg {http://www.w3.org/2000/svg} [version=1.1] (openbadges->http://openbadges.org)".to_owned();
    expected.insert(2, NEW_MARKER.to_owned());
    expected.insert(3, "</".to_owned());
    assert_eq!(shown(&out), expected);
    // a second bake changes nothing
    let again = bake_events(out, "P", true).unwrap();
    assert_eq!(shown(&again), expected);
    // another payload is a conflict, or replaces
    assert!(matches!(
        bake_events(again, "Q", true),
        Err(PatcherError::VerifyAlreadySet { ref present, ref proposed }) if present == "P" && proposed == "Q"
    ));
    let marked = document(Some(Event::Start(marker(vec![attribute("verify", "A")]))));
    let replaced = bake_events(marked, "Q", false).unwrap();
    assert_eq!(show(&replaced[2]), "<openbadges:assertion {http://openbadges.org} [verify=Q] ()");
    assert_eq!(replaced.len(), 6);
    assert!(bake_events(vec![], "P", true).unwrap().is_empty());
}
