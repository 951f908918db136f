//! Baking into SVG images: the badge marker is an element `assertion` in the
//! namespace `http://openbadges.org`, the first child of the root `svg` element, and
//! its attribute `verify` carries the payload. Parsing and writing XML are the work of
//! the `xml` crate; what is written for each event that was read is decided here.

use super::filter::lemma_filter_push;
use super::same_text;
use super::spells;
use super::spells_word;
use super::PatcherError;
use vstd::prelude::*;
use vstd::string::StringExecFns;

verus! {

#[verifier::external_type_specification]
#[verifier::external_body]
pub struct ExReaderEvent(xml::reader::XmlEvent);

#[verifier::external_type_specification]
#[verifier::external_body]
pub struct ExReaderFailure(xml::reader::Error);

#[verifier::external_type_specification]
#[verifier::external_body]
pub struct ExWriterFailure(xml::writer::Error);

#[verifier::external_type_specification]
#[verifier::external_body]
pub struct ExNamespace(xml::namespace::Namespace);

#[verifier::external_type_specification]
#[verifier::external_body]
pub struct ExWriterEvent<'a>(xml::writer::XmlEvent<'a>);

/// What the parser reads from a document: its events in order, each as it was read
/// or as the failure to read it.
pub uninterp spec fn parsed_events(input: Seq<u8>) -> Seq<
    Result<xml::reader::XmlEvent, xml::reader::Error>,
>;

/// An event of the parser as the patcher sees it.
pub uninterp spec fn classified(event: xml::reader::XmlEvent) -> EventView;

/// Whether an event of the parser has a counterpart that a writer takes.
pub uninterp spec fn has_counterpart(event: xml::reader::XmlEvent) -> bool;

/// Whether a new writer with the default configuration takes these events one after
/// the other, and refuses none.
pub uninterp spec fn writer_accepts(events: Seq<EventView>) -> bool;

/// The bytes that a new writer with the default configuration has written once it
/// has taken these events, in order.
pub uninterp spec fn document_text(events: Seq<EventView>) -> Seq<u8>;

/// The mappings from prefix to namespace URI that a namespace holds.
pub uninterp spec fn namespace_map(namespace: xml::namespace::Namespace) -> Map<
    Seq<char>,
    Seq<char>,
>;

/// The name of an element or attribute.
#[derive(Debug, Clone)]
pub struct Name {
    pub local_name: String,
    /// The URI of the namespace that the name is in, if it is in one.
    pub namespace: Option<String>,
    pub prefix: Option<String>,
}

/// An attribute of a start tag.
#[derive(Debug, Clone)]
pub struct Attribute {
    pub name: Name,
    pub value: String,
}

/// A start tag: its name, its attributes in order, and the namespaces in scope.
#[derive(Debug)]
pub struct StartTag {
    pub name: Name,
    pub attributes: Vec<Attribute>,
    pub namespace: xml::namespace::Namespace,
}

/// An event of an XML document, as far as baking looks into it.
#[derive(Debug)]
pub enum Event {
    /// A start tag.
    Start(StartTag),
    /// An end tag. It bears the name of its element, or none: then it ends the
    /// element that is open.
    End(Option<Name>),
    /// Any event that is neither a start tag nor an end tag. It is handed on as it
    /// is, and never looked into: a tag that is put here counts as no tag.
    Other(xml::reader::XmlEvent),
}

/// What the patcher is waiting for.
#[derive(Debug, Clone, Copy, PartialEq, Eq, Structural)]
pub enum State {
    /// The start tag of the root `svg` element has not been seen.
    WaitingForRoot,
    /// The root has just been seen: the next event decides about the marker.
    PostRootPendingAssertion,
    /// The marker is dealt with: every event is handed on.
    Streaming,
}

/// A name as plain text.
pub struct NameView {
    pub local_name: Seq<char>,
    pub namespace: Option<Seq<char>>,
    pub prefix: Option<Seq<char>>,
}

/// An attribute as plain text.
pub struct AttributeView {
    pub name: NameView,
    pub value: Seq<char>,
}

/// A start tag as plain text, with the namespaces in scope as a map from prefix to URI.
pub struct StartTagView {
    pub name: NameView,
    pub attributes: Seq<AttributeView>,
    pub namespace: Map<Seq<char>, Seq<char>>,
}

/// An event with its tags as plain text.
pub enum EventView {
    Start(StartTagView),
    End(Option<NameView>),
    Other(xml::reader::XmlEvent),
}

/// The characters of a string that may be missing.
pub open spec fn text_of(s: Option<String>) -> Option<Seq<char>> {
    match s {
        Some(s) => Some(s@),
        None => None,
    }
}

impl View for Name {
    type V = NameView;

    open spec fn view(&self) -> NameView {
        NameView {
            local_name: self.local_name@,
            namespace: text_of(self.namespace),
            prefix: text_of(self.prefix),
        }
    }
}

impl View for Attribute {
    type V = AttributeView;

    open spec fn view(&self) -> AttributeView {
        AttributeView { name: self.name@, value: self.value@ }
    }
}

impl View for StartTag {
    type V = StartTagView;

    open spec fn view(&self) -> StartTagView {
        StartTagView {
            name: self.name@,
            attributes: self.attributes@.map_values(|a: Attribute| a@),
            namespace: namespace_map(self.namespace),
        }
    }
}

impl View for Event {
    type V = EventView;

    open spec fn view(&self) -> EventView {
        match *self {
            Event::Start(tag) => EventView::Start(tag@),
            Event::End(Some(name)) => EventView::End(Some(name@)),
            Event::End(None) => EventView::End(None),
            Event::Other(event) => EventView::Other(event),
        }
    }
}

/// Each event of `events` as its view.
pub open spec fn event_views(events: Seq<Event>) -> Seq<EventView> {
    events.map_values(|e: Event| e@)
}

/// The namespace of SVG.
pub open spec fn svg_namespace() -> Seq<char> {
    "http://www.w3.org/2000/svg"@
}

/// The namespace of Open Badges.
pub open spec fn badge_namespace() -> Seq<char> {
    "http://openbadges.org"@
}

/// The prefix under which a bake declares the namespace of Open Badges.
pub open spec fn badge_prefix() -> Seq<char> {
    "openbadges"@
}

/// Whether a start tag with this name opens the root of an SVG image: an element
/// `svg`, in any mix of capital and small letters, in the namespace of SVG or in none.
pub open spec fn is_svg_root(name: NameView) -> bool {
    &&& spells(name.local_name, "svg"@)
    &&& (name.namespace is None || name.namespace == Some(svg_namespace()))
}

/// Whether a start tag with this name opens a badge marker.
pub open spec fn is_assertion(name: NameView) -> bool {
    &&& name.namespace == Some(badge_namespace())
    &&& name.local_name == "assertion"@
}

/// The position of the last attribute with the local name `verify`, or -1.
pub open spec fn verify_index(attributes: Seq<AttributeView>) -> int
    decreases attributes.len(),
{
    if attributes.len() == 0 {
        -1
    } else if attributes.last().name.local_name == "verify"@ {
        attributes.len() - 1
    } else {
        verify_index(attributes.drop_last())
    }
}

/// The namespaces in scope with the one of Open Badges declared under its prefix,
/// unless that prefix is taken.
pub open spec fn declared(namespace: Map<Seq<char>, Seq<char>>) -> Map<Seq<char>, Seq<char>> {
    if namespace.contains_key(badge_prefix()) {
        namespace
    } else {
        namespace.insert(badge_prefix(), badge_namespace())
    }
}

/// No namespace in scope.
pub open spec fn no_mappings() -> Map<Seq<char>, Seq<char>> {
    Map::empty()
}

/// The start tag of a new marker with the payload `verify`.
pub open spec fn new_assertion(verify: Seq<char>) -> StartTagView {
    StartTagView {
        name: NameView {
            local_name: "assertion"@,
            namespace: Some(badge_namespace()),
            prefix: Some(badge_prefix()),
        },
        attributes: seq![
            AttributeView {
                name: NameView { local_name: "verify"@, namespace: None, prefix: None },
                value: verify,
            },
        ],
        namespace: no_mappings(),
    }
}

/// A start tag with the value of one attribute replaced.
pub open spec fn with_value(tag: StartTagView, at: int, value: Seq<char>) -> StartTagView {
    StartTagView {
        attributes: tag.attributes.update(at, AttributeView { value, ..tag.attributes[at] }),
        ..tag
    }
}

/// What the patcher does with one event: the events to write in its place and the
/// state to go on in, or the payload that is in the way.
pub open spec fn step_of(
    state: State,
    event: EventView,
    verify: Seq<char>,
    fail_if_verify_present: bool,
) -> Result<(State, Seq<EventView>), Seq<char>> {
    match state {
        State::WaitingForRoot => match event {
            EventView::Start(tag) if is_svg_root(tag.name) => Ok(
                (
                    State::PostRootPendingAssertion,
                    seq![EventView::Start(StartTagView { namespace: declared(tag.namespace), ..tag })],
                ),
            ),
            _ => Ok((State::WaitingForRoot, seq![event])),
        },
        State::PostRootPendingAssertion => {
            let inserted = seq![
                EventView::Start(new_assertion(verify)),
                EventView::End(None),
                event,
            ];
            match event {
                EventView::Start(tag) if is_assertion(tag.name) => {
                    let at = verify_index(tag.attributes);
                    if at < 0 {
                        Ok((State::Streaming, inserted))
                    } else if tag.attributes[at].value == verify {
                        Ok((State::Streaming, seq![event]))
                    } else if fail_if_verify_present {
                        Err(tag.attributes[at].value)
                    } else {
                        Ok((State::Streaming, seq![EventView::Start(with_value(tag, at, verify))]))
                    }
                },
                _ => Ok((State::Streaming, inserted)),
            }
        },
        State::Streaming => Ok((State::Streaming, seq![event])),
    }
}

/// What the patcher writes for a run of events that it meets in `state`: for each
/// event what [`step_of`] says, one after the other; or the payload that is in the way.
pub open spec fn baked_from(
    state: State,
    events: Seq<EventView>,
    verify: Seq<char>,
    fail_if_verify_present: bool,
) -> Result<Seq<EventView>, Seq<char>>
    decreases events.len(),
{
    if events.len() == 0 {
        Ok(Seq::empty())
    } else {
        match step_of(state, events[0], verify, fail_if_verify_present) {
            Err(found) => Err(found),
            Ok((next, written)) => match baked_from(
                next,
                events.drop_first(),
                verify,
                fail_if_verify_present,
            ) {
                Err(found) => Err(found),
                Ok(rest) => Ok(written + rest),
            },
        }
    }
}

/// What baking `verify` into a document gives: the events of the new document, or
/// the payload that is in the way.
pub open spec fn baked_events(
    events: Seq<EventView>,
    verify: Seq<char>,
    fail_if_verify_present: bool,
) -> Result<Seq<EventView>, Seq<char>> {
    baked_from(State::WaitingForRoot, events, verify, fail_if_verify_present)
}

/// What a bake of a whole document gives, held against [`baked_events`].
pub open spec fn bake_result(
    events: Seq<EventView>,
    verify: Seq<char>,
    fail_if_verify_present: bool,
    r: Result<Vec<Event>, PatcherError>,
) -> bool {
    match baked_events(events, verify, fail_if_verify_present) {
        Ok(written) => r matches Ok(w) && event_views(w@) == written,
        Err(found) => r matches Err(PatcherError::VerifyAlreadySet { present, proposed })
            && present@ == found && proposed@ == verify,
    }
}

/// What one step of the patcher gives, held against [`step_of`].
pub open spec fn step_result(
    state: State,
    event: EventView,
    verify: Seq<char>,
    fail_if_verify_present: bool,
    r: Result<(State, Vec<Event>), PatcherError>,
) -> bool {
    match step_of(state, event, verify, fail_if_verify_present) {
        Ok((next, written)) => r matches Ok((s, w)) && s == next && event_views(w@) == written,
        Err(found) => r matches Err(PatcherError::VerifyAlreadySet { present, proposed }) && present@
            == found && proposed@ == verify,
    }
}

/// Whether a start tag with this name opens the root of an SVG image.
pub fn is_svg_root_name(name: &Name) -> (r: bool)
    ensures
        r == is_svg_root(name@),
{
    if !spells_word(name.local_name.as_str(), "svg") {
        return false;
    }
    match &name.namespace {
        None => true,
        Some(uri) => same_text(uri.as_str(), "http://www.w3.org/2000/svg"),
    }
}

/// Whether a start tag with this name opens a badge marker.
pub fn is_assertion_name(name: &Name) -> (r: bool)
    ensures
        r == is_assertion(name@),
{
    match &name.namespace {
        None => false,
        Some(uri) => same_text(uri.as_str(), "http://openbadges.org") && same_text(
            name.local_name.as_str(),
            "assertion",
        ),
    }
}

/// The position of the attribute that carries the payload: the last one with the
/// local name `verify`.
pub fn find_verify(attributes: &Vec<Attribute>) -> (r: Option<usize>)
    ensures
        match r {
            Some(at) => at == verify_index(attributes@.map_values(|a: Attribute| a@)),
            None => verify_index(attributes@.map_values(|a: Attribute| a@)) == -1,
        },
{
    let ghost all = attributes@.map_values(|a: Attribute| a@);
    let mut i: usize = attributes.len();
    assert(all.take(i as int) == all);
    while i > 0
        invariant
            i <= attributes.len(),
            all == attributes@.map_values(|a: Attribute| a@),
            verify_index(all) == verify_index(all.take(i as int)),
        decreases i,
    {
        let ghost upto = all.take(i as int);
        assert(upto.last() == attributes[i - 1]@);
        if same_text(attributes[i - 1].name.local_name.as_str(), "verify") {
            return Some(i - 1);
        }
        assert(upto.drop_last() == all.take(i - 1));
        i = i - 1;
    }
    None
}

/// The position that [`verify_index`] gives is -1 or holds an attribute with the
/// local name `verify`.
pub proof fn lemma_verify_index(attributes: Seq<AttributeView>)
    ensures
        -1 <= verify_index(attributes) < attributes.len(),
        verify_index(attributes) >= 0 ==> attributes[verify_index(attributes)].name.local_name
            == "verify"@,
    decreases attributes.len(),
{
    if attributes.len() > 0 && attributes.last().name.local_name != "verify"@ {
        lemma_verify_index(attributes.drop_last());
    }
}

/// The start tag with the value of the attribute at `at` replaced by `value`.
pub fn set_value(tag: StartTag, at: usize, value: &str) -> (r: StartTag)
    requires
        at < tag.attributes.len(),
    ensures
        r@ == with_value(tag@, at as int, value@),
{
    let ghost before = tag@.attributes;
    let StartTag { name, attributes, namespace } = tag;
    let mut replaced: Vec<Attribute> = Vec::new();
    for attribute in it: attributes
        invariant
            it.seq().map_values(|a: Attribute| a@) == before,
            at < before.len(),
            replaced.len() == it.index(),
            forall|j: int|
                0 <= j < it.index() ==> (#[trigger] replaced[j])@ == if j == at {
                    AttributeView { value: value@, ..before[j] }
                } else {
                    before[j]
                },
    {
        assert(attribute@ == before[it.index()]);
        if replaced.len() == at {
            replaced.push(Attribute { name: attribute.name, value: value.to_owned() });
        } else {
            replaced.push(attribute);
        }
    }
    let r = StartTag { name, attributes: replaced, namespace };
    assert(r@.attributes == with_value(tag@, at as int, value@).attributes);
    r
}

/// Declares the namespace of Open Badges on the start tag of the root, under the
/// prefix `openbadges`, unless that prefix is declared already. Any other tag is left
/// as it is. Says whether the tag opens the root.
pub fn add_namespace(tag: &mut StartTag) -> (is_root: bool)
    ensures
        is_root == is_svg_root(old(tag)@.name),
        final(tag)@ == if is_root {
            (StartTagView { namespace: declared(old(tag)@.namespace), ..old(tag)@ })
        } else {
            old(tag)@
        },
{
    if is_svg_root_name(&tag.name) {
        if !namespace_contains(&tag.namespace, "openbadges") {
            namespace_put(&mut tag.namespace, "openbadges", "http://openbadges.org");
        }
        true
    } else {
        false
    }
}

/// Appends the start tag and the end tag of a new marker with the payload `verify`.
pub fn add_assertion(events: &mut Vec<Event>, verify: &str)
    ensures
        event_views(final(events)@) == event_views(old(events)@) + seq![
            EventView::Start(new_assertion(verify@)),
            EventView::End(None),
        ],
{
    let name = Name {
        local_name: String::from_str("assertion"),
        namespace: Some(String::from_str("http://openbadges.org")),
        prefix: Some(String::from_str("openbadges")),
    };
    let attribute = Attribute {
        name: Name { local_name: String::from_str("verify"), namespace: None, prefix: None },
        value: verify.to_owned(),
    };
    let mut attributes: Vec<Attribute> = Vec::new();
    attributes.push(attribute);
    let tag = StartTag { name, attributes, namespace: empty_namespace() };
    assert(tag@.attributes == new_assertion(verify@).attributes);
    assert(tag@ == new_assertion(verify@));
    events.push(Event::Start(tag));
    events.push(Event::End(None));
    assert(event_views(events@) == event_views(old(events)@) + seq![
        EventView::Start(new_assertion(verify@)),
        EventView::End(None),
    ]);
}

/// One step of the patcher: what to write for `event` in `state`, and the state to go
/// on in.
///
/// Before the root, events are handed on, and the start tag of the root gets the
/// namespace of Open Badges declared. The event that follows the root decides about
/// the marker. If it is the start tag of a marker with the attribute `verify`: the
/// tag is handed on if the attribute carries `verify`; if it carries anything else,
/// that is a conflict where `fail_if_verify_present` is set, and where not, the tag is
/// handed on with the value of that attribute replaced. If it is anything else, a
/// marker without that attribute too, a new marker is written before it. After that
/// every event is handed on.
pub fn step(state: State, event: Event, verify: &str, fail_if_verify_present: bool) -> (r: Result<
    (State, Vec<Event>),
    PatcherError,
>)
    ensures
        step_result(state, event@, verify@, fail_if_verify_present, r),
{
    let mut written: Vec<Event> = Vec::new();
    assert(event_views(written@) == Seq::<EventView>::empty());
    match state {
        State::WaitingForRoot => match event {
            Event::Start(mut tag) => {
                let is_root = add_namespace(&mut tag);
                written.push(Event::Start(tag));
                assert(event_views(written@) == seq![EventView::Start(tag@)]);
                if is_root {
                    Ok((State::PostRootPendingAssertion, written))
                } else {
                    Ok((State::WaitingForRoot, written))
                }
            },
            other => {
                written.push(other);
                assert(event_views(written@) == seq![event@]);
                Ok((State::WaitingForRoot, written))
            },
        },
        State::PostRootPendingAssertion => {
            match event {
                Event::Start(tag) => {
                    let found = if is_assertion_name(&tag.name) {
                        find_verify(&tag.attributes)
                    } else {
                        None
                    };
                    match found {
                        Some(at) => {
                            proof {
                                lemma_verify_index(tag@.attributes);
                            }
                            assert(tag@.attributes[at as int] == tag.attributes[at as int]@);
                            if same_text(tag.attributes[at].value.as_str(), verify) {
                                written.push(Event::Start(tag));
                                assert(event_views(written@) == seq![event@]);
                            } else if fail_if_verify_present {
                                return Err(
                                    PatcherError::VerifyAlreadySet {
                                        present: tag.attributes[at].value.clone(),
                                        proposed: verify.to_owned(),
                                    },
                                );
                            } else {
                                let ghost before = tag@;
                                let tag = set_value(tag, at, verify);
                                written.push(Event::Start(tag));
                                assert(event_views(written@) == seq![
                                    EventView::Start(with_value(before, at as int, verify@)),
                                ]);
                            }
                        },
                        None => {
                            add_assertion(&mut written, verify);
                            written.push(Event::Start(tag));
                            assert(event_views(written@) == seq![
                                EventView::Start(new_assertion(verify@)),
                                EventView::End(None),
                                event@,
                            ]);
                        },
                    }
                },
                other => {
                    add_assertion(&mut written, verify);
                    written.push(other);
                    assert(event_views(written@) == seq![
                        EventView::Start(new_assertion(verify@)),
                        EventView::End(None),
                        event@,
                    ]);
                },
            }
            Ok((State::Streaming, written))
        },
        State::Streaming => {
            written.push(event);
            assert(event_views(written@) == seq![event@]);
            Ok((State::Streaming, written))
        },
    }
}

/// Whether an event is the start tag of the root of an SVG image.
pub open spec fn is_root_event(event: EventView) -> bool {
    event matches EventView::Start(tag) && is_svg_root(tag.name)
}

/// The payload that an event carries, if it is the start tag of a marker with the
/// attribute `verify`.
pub open spec fn marker_payload(event: EventView) -> Option<Seq<char>> {
    match event {
        EventView::Start(tag) if is_assertion(tag.name) && verify_index(tag.attributes) >= 0 => Some(
            tag.attributes[verify_index(tag.attributes)].value,
        ),
        _ => None,
    }
}

/// The position of the first start tag of a root, or the length of `events` if the
/// document has no root.
pub open spec fn root_at(events: Seq<EventView>) -> int
    decreases events.len(),
{
    if events.len() == 0 {
        0
    } else if is_root_event(events[0]) {
        0
    } else {
        1 + root_at(events.drop_first())
    }
}

/// Whether the document has a root and an event after its start tag: the place
/// where the marker belongs.
pub open spec fn has_marker_place(events: Seq<EventView>) -> bool {
    root_at(events) + 1 < events.len()
}

/// The payload that the document is marked with: what the first event after the
/// start tag of the root carries.
pub open spec fn payload(events: Seq<EventView>) -> Option<Seq<char>> {
    if has_marker_place(events) {
        marker_payload(events[root_at(events) + 1])
    } else {
        None
    }
}

/// A start tag with the namespace of Open Badges declared; any other event as it is.
pub open spec fn with_declaration(event: EventView) -> EventView {
    match event {
        EventView::Start(tag) => EventView::Start(
            StartTagView { namespace: declared(tag.namespace), ..tag },
        ),
        _ => event,
    }
}

/// The document with the namespace of Open Badges declared on the start tag of its
/// root.
pub open spec fn root_declared(events: Seq<EventView>) -> Seq<EventView> {
    if root_at(events) < events.len() {
        events.update(root_at(events), with_declaration(events[root_at(events)]))
    } else {
        events
    }
}

/// Whether an event is part of a marker: the start tag or the end tag of an element
/// `assertion` in the namespace of Open Badges, or an end tag without a name, which
/// only a bake writes.
pub open spec fn is_marker_part(event: EventView) -> bool {
    match event {
        EventView::Start(tag) => is_assertion(tag.name),
        EventView::End(Some(name)) => is_assertion(name),
        EventView::End(None) => true,
        EventView::Other(_) => false,
    }
}

/// Picks the events that are no part of a marker.
pub open spec fn no_marker_part() -> spec_fn(EventView) -> bool {
    |e: EventView| !is_marker_part(e)
}

/// Picks the start tags of markers.
pub open spec fn marker_start() -> spec_fn(EventView) -> bool {
    |e: EventView| e is Start && is_marker_part(e)
}

/// The events that are no part of a marker, in their order.
pub open spec fn cargo(events: Seq<EventView>) -> Seq<EventView> {
    events.filter(no_marker_part())
}

/// The start tags of markers, in their order.
pub open spec fn markers(events: Seq<EventView>) -> Seq<EventView> {
    events.filter(marker_start())
}

/// The position that [`root_at`] gives lies within the document or at its end, no
/// event before it opens a root, and the event at it, if any, does.
pub proof fn lemma_root_at(events: Seq<EventView>)
    ensures
        0 <= root_at(events) <= events.len(),
        forall|j: int| 0 <= j < root_at(events) ==> !is_root_event(#[trigger] events[j]),
        root_at(events) < events.len() ==> is_root_event(events[root_at(events)]),
    decreases events.len(),
{
    if events.len() > 0 && !is_root_event(events[0]) {
        let tail = events.drop_first();
        lemma_root_at(tail);
        assert forall|j: int| 0 <= j < root_at(events) implies !is_root_event(
            #[trigger] events[j],
        ) by {
            if j > 0 {
                assert(events[j] == tail[j - 1]);
            }
        }
    }
}

/// A position before which no event opens a root, and which is the end of the
/// document or holds an event that does, is the one that [`root_at`] gives.
proof fn lemma_root_at_is(events: Seq<EventView>, at: int)
    requires
        0 <= at <= events.len(),
        forall|j: int| 0 <= j < at ==> !is_root_event(#[trigger] events[j]),
        at < events.len() ==> is_root_event(events[at]),
    ensures
        root_at(events) == at,
    decreases events.len(),
{
    if events.len() > 0 && at > 0 {
        let tail = events.drop_first();
        assert forall|j: int| 0 <= j < at - 1 implies !is_root_event(#[trigger] tail[j]) by {
            assert(tail[j] == events[j + 1]);
        }
        assert(!is_root_event(events[0]));
        lemma_root_at_is(tail, at - 1);
    }
}

/// Replacing the value of an attribute moves no `verify` attribute.
proof fn lemma_verify_index_with_value(attributes: Seq<AttributeView>, at: int, value: Seq<char>)
    requires
        0 <= at < attributes.len(),
    ensures
        verify_index(attributes.update(at, AttributeView { value, ..attributes[at] }))
            == verify_index(attributes),
    decreases attributes.len(),
{
    let updated = attributes.update(at, AttributeView { value, ..attributes[at] });
    if attributes.last().name.local_name != "verify"@ {
        if at < attributes.len() - 1 {
            assert(updated.drop_last() == attributes.drop_last().update(
                at,
                AttributeView { value, ..attributes.drop_last()[at] },
            ));
            lemma_verify_index_with_value(attributes.drop_last(), at, value);
        } else {
            assert(updated.drop_last() == attributes.drop_last());
        }
    }
}

/// Once the marker is dealt with, a document comes out as it went in.
proof fn lemma_streaming(events: Seq<EventView>, verify: Seq<char>, fail_if_verify_present: bool)
    ensures
        baked_from(State::Streaming, events, verify, fail_if_verify_present) == Ok::<
            Seq<EventView>,
            Seq<char>,
        >(events),
    decreases events.len(),
{
    if events.len() > 0 {
        lemma_streaming(events.drop_first(), verify, fail_if_verify_present);
        assert(seq![events[0]] + events.drop_first() == events);
    } else {
        assert(events == Seq::<EventView>::empty());
    }
}

/// What is written for the events after the root: what the step on the first of them
/// writes, and then the others as they are.
pub open spec fn baked_after_root(
    rest: Seq<EventView>,
    verify: Seq<char>,
    fail_if_verify_present: bool,
) -> Result<Seq<EventView>, Seq<char>> {
    if rest.len() == 0 {
        Ok(rest)
    } else {
        match step_of(State::PostRootPendingAssertion, rest[0], verify, fail_if_verify_present) {
            Ok((_, written)) => Ok(written + rest.drop_first()),
            Err(found) => Err(found),
        }
    }
}

proof fn lemma_after_root(rest: Seq<EventView>, verify: Seq<char>, fail_if_verify_present: bool)
    ensures
        baked_from(State::PostRootPendingAssertion, rest, verify, fail_if_verify_present)
            == baked_after_root(rest, verify, fail_if_verify_present),
{
    if rest.len() > 0 {
        lemma_streaming(rest.drop_first(), verify, fail_if_verify_present);
    } else {
        assert(rest == Seq::<EventView>::empty());
    }
}

/// What a bake gives for a whole document: a document without a root comes out as it
/// went in; of any other, the events up to the root come out with the namespace
/// declared on the root, and then comes what is written for the events after the root.
pub open spec fn baked_whole(
    events: Seq<EventView>,
    verify: Seq<char>,
    fail_if_verify_present: bool,
) -> Result<Seq<EventView>, Seq<char>> {
    let at = root_at(events);
    if at < events.len() {
        match baked_after_root(events.skip(at + 1), verify, fail_if_verify_present) {
            Ok(written) => Ok(root_declared(events).take(at + 1) + written),
            Err(found) => Err(found),
        }
    } else {
        Ok(events)
    }
}

/// A bake, step by step from the state before the root, gives what [`baked_whole`]
/// says at once.
pub proof fn lemma_baked_whole(
    events: Seq<EventView>,
    verify: Seq<char>,
    fail_if_verify_present: bool,
)
    ensures
        baked_events(events, verify, fail_if_verify_present) == baked_whole(
            events,
            verify,
            fail_if_verify_present,
        ),
    decreases events.len(),
{
    lemma_root_at(events);
    if events.len() == 0 {
        assert(events == Seq::<EventView>::empty());
    } else {
        let tail = events.drop_first();
        let at = root_at(events);
        assert(seq![events[0]] + tail == events);
        if is_root_event(events[0]) {
            lemma_after_root(tail, verify, fail_if_verify_present);
            assert(events.skip(1) == tail);
            assert(root_declared(events).take(1) == seq![with_declaration(events[0])]);
        } else {
            lemma_baked_whole(tail, verify, fail_if_verify_present);
            lemma_root_at(tail);
            if at < events.len() {
                assert(tail.skip(at) == events.skip(at + 1));
                assert(tail[at - 1] == events[at]);
                assert(seq![events[0]] + root_declared(tail).take(at) == root_declared(events).take(
                    at + 1,
                ));
                let head = root_declared(tail).take(at);
                assert forall|written: Seq<EventView>|
                    seq![events[0]] + (head + written) == (seq![events[0]] + head) + written by {
                    assert(seq![events[0]] + (head + written) =~= (seq![events[0]] + head)
                        + written);
                }
            }
        }
    }
}

/// The shapes of what is written for the events after the root, by what the first
/// of them is.
proof fn lemma_shapes(rest: Seq<EventView>, verify: Seq<char>, fail_if_verify_present: bool)
    requires
        rest.len() > 0,
        baked_after_root(rest, verify, fail_if_verify_present) is Ok,
    ensures
        ({
            let written = baked_after_root(rest, verify, fail_if_verify_present)->Ok_0;
            &&& written.len() > 0
            &&& marker_payload(written[0]) == Some(verify)
            &&& cargo(written) == cargo(rest)
            &&& markers(written).len() == markers(rest).len() + if marker_payload(rest[0]) is None {
                1int
            } else {
                0int
            }
        }),
{
    let tail = rest.drop_first();
    let written = baked_after_root(rest, verify, fail_if_verify_present)->Ok_0;
    let first = step_of(
        State::PostRootPendingAssertion,
        rest[0],
        verify,
        fail_if_verify_present,
    )->Ok_0.1;
    assert(written == first + tail);
    assert(written[0] == first[0]);
    assert(seq![rest[0]] + tail == rest);
    let fresh = EventView::Start(new_assertion(verify));
    let close = EventView::End(None);
    let none = Seq::<EventView>::empty();
    assert(new_assertion(verify).attributes.drop_last() == Seq::<AttributeView>::empty());
    assert(verify_index(new_assertion(verify).attributes) == 0);
    Seq::filter_distributes_over_add(first, tail, no_marker_part());
    Seq::filter_distributes_over_add(seq![rest[0]], tail, no_marker_part());
    Seq::filter_distributes_over_add(first, tail, marker_start());
    Seq::filter_distributes_over_add(seq![rest[0]], tail, marker_start());
    assert(none.filter(no_marker_part()) == none && none.filter(marker_start()) == none) by {
        reveal(Seq::filter);
    }
    lemma_filter_push(none, rest[0], no_marker_part());
    lemma_filter_push(none, rest[0], marker_start());
    assert(none.push(rest[0]) == seq![rest[0]]);
    if marker_payload(rest[0]) is None {
        assert(first == none.push(fresh).push(close).push(rest[0]));
        lemma_filter_push(none, fresh, no_marker_part());
        lemma_filter_push(none.push(fresh), close, no_marker_part());
        lemma_filter_push(none.push(fresh).push(close), rest[0], no_marker_part());
        lemma_filter_push(none, fresh, marker_start());
        lemma_filter_push(none.push(fresh), close, marker_start());
        lemma_filter_push(none.push(fresh).push(close), rest[0], marker_start());
    } else if marker_payload(rest[0]) == Some(verify) {
        assert(first == seq![rest[0]]);
    } else {
        let tag = rest[0]->Start_0;
        let at = verify_index(tag.attributes);
        lemma_verify_index(tag.attributes);
        lemma_verify_index_with_value(tag.attributes, at, verify);
        let replaced = EventView::Start(with_value(tag, at, verify));
        assert(first == none.push(replaced));
        lemma_filter_push(none, replaced, no_marker_part());
        lemma_filter_push(none, replaced, marker_start());
    }
}

/// Baking is idempotent: on the document that a bake of `verify` wrote, a second bake
/// of the same `verify` finds no conflict, even where conflicts are reported, and
/// writes the same document. If the document has a root and anything in it, what was
/// written is marked with exactly `verify`.
pub proof fn law_bake_is_idempotent(
    events: Seq<EventView>,
    verify: Seq<char>,
    fail_if_verify_present: bool,
)
    requires
        baked_events(events, verify, fail_if_verify_present) is Ok,
    ensures
        ({
            let once = baked_events(events, verify, fail_if_verify_present)->Ok_0;
            &&& baked_events(once, verify, true) == Ok::<Seq<EventView>, Seq<char>>(once)
            &&& has_marker_place(events) ==> payload(once) == Some(verify)
        }),
{
    let once = baked_events(events, verify, fail_if_verify_present)->Ok_0;
    let at = root_at(events);
    lemma_baked_whole(events, verify, fail_if_verify_present);
    lemma_baked_whole(once, verify, true);
    lemma_root_at(events);
    if at < events.len() {
        let rest = events.skip(at + 1);
        let written = baked_after_root(rest, verify, fail_if_verify_present)->Ok_0;
        let head = root_declared(events).take(at + 1);
        assert(once == head + written);
        assert forall|j: int| 0 <= j < at implies !is_root_event(#[trigger] once[j]) by {
            assert(once[j] == events[j]);
        }
        assert(once[at] == with_declaration(events[at]));
        lemma_root_at_is(once, at);
        assert(once.skip(at + 1) == written);
        let tag = events[at]->Start_0;
        assert(declared(declared(tag.namespace)) == declared(tag.namespace));
        assert(root_declared(once) == once);
        assert(once.take(at + 1) == head);
        if rest.len() > 0 {
            lemma_shapes(rest, verify, fail_if_verify_present);
            assert(seq![written[0]] + written.drop_first() == written);
            assert(once[at + 1] == written[0]);
        } else {
            assert(written == rest);
        }
    } else {
        lemma_root_at_is(once, once.len() as int);
    }
}

/// Baking preserves the document: whatever is no part of a marker comes out as it
/// went in and in the same order, but for the namespace that is declared on the root.
pub proof fn law_bake_preserves_cargo(
    events: Seq<EventView>,
    verify: Seq<char>,
    fail_if_verify_present: bool,
)
    requires
        baked_events(events, verify, fail_if_verify_present) is Ok,
    ensures
        cargo(baked_events(events, verify, fail_if_verify_present)->Ok_0) == cargo(
            root_declared(events),
        ),
{
    let once = baked_events(events, verify, fail_if_verify_present)->Ok_0;
    let at = root_at(events);
    lemma_baked_whole(events, verify, fail_if_verify_present);
    lemma_root_at(events);
    if at < events.len() {
        let rest = events.skip(at + 1);
        let written = baked_after_root(rest, verify, fail_if_verify_present)->Ok_0;
        let head = root_declared(events).take(at + 1);
        assert(root_declared(events) == head + rest);
        Seq::filter_distributes_over_add(head, written, no_marker_part());
        Seq::filter_distributes_over_add(head, rest, no_marker_part());
        if rest.len() > 0 {
            lemma_shapes(rest, verify, fail_if_verify_present);
        }
    }
}

/// After a bake the root declares the namespace of Open Badges, and it stands where
/// it stood. A document without a root has none afterwards.
pub proof fn law_bake_declares_namespace(
    events: Seq<EventView>,
    verify: Seq<char>,
    fail_if_verify_present: bool,
)
    requires
        baked_events(events, verify, fail_if_verify_present) is Ok,
    ensures
        ({
            let once = baked_events(events, verify, fail_if_verify_present)->Ok_0;
            &&& root_at(events) < events.len() ==> root_at(once) == root_at(events)
                && once[root_at(once)] == with_declaration(events[root_at(events)])
                && once[root_at(once)]->Start_0.namespace.contains_key(badge_prefix())
            &&& root_at(events) == events.len() ==> once == events
        }),
{
    let once = baked_events(events, verify, fail_if_verify_present)->Ok_0;
    let at = root_at(events);
    lemma_baked_whole(events, verify, fail_if_verify_present);
    lemma_root_at(events);
    if at < events.len() {
        let written = baked_after_root(events.skip(at + 1), verify, fail_if_verify_present)->Ok_0;
        let head = root_declared(events).take(at + 1);
        assert(once == head + written);
        assert forall|j: int| 0 <= j < at implies !is_root_event(#[trigger] once[j]) by {
            assert(once[j] == events[j]);
        }
        assert(once[at] == with_declaration(events[at]));
        lemma_root_at_is(once, at);
    }
}

/// A bake adds one marker where the document has a place for it and is not marked
/// with a payload, and none where it is: the image that held no marker holds exactly
/// one afterwards, and so does the image that was marked and held no second marker.
pub proof fn law_bake_adds_at_most_one_marker(
    events: Seq<EventView>,
    verify: Seq<char>,
    fail_if_verify_present: bool,
)
    requires
        baked_events(events, verify, fail_if_verify_present) is Ok,
    ensures
        markers(baked_events(events, verify, fail_if_verify_present)->Ok_0).len() == markers(
            events,
        ).len() + if has_marker_place(events) && payload(events) is None {
            1int
        } else {
            0int
        },
{
    let once = baked_events(events, verify, fail_if_verify_present)->Ok_0;
    let at = root_at(events);
    lemma_baked_whole(events, verify, fail_if_verify_present);
    lemma_root_at(events);
    if at < events.len() {
        let rest = events.skip(at + 1);
        let written = baked_after_root(rest, verify, fail_if_verify_present)->Ok_0;
        let head = root_declared(events).take(at + 1);
        let before = events.take(at);
        let none = Seq::<EventView>::empty();
        assert(events == events.take(at + 1) + rest);
        assert(events.take(at + 1) == before.push(events[at]));
        assert(head == before.push(with_declaration(events[at])));
        Seq::filter_distributes_over_add(head, written, marker_start());
        Seq::filter_distributes_over_add(events.take(at + 1), rest, marker_start());
        lemma_filter_push(before, events[at], marker_start());
        lemma_filter_push(before, with_declaration(events[at]), marker_start());
        if rest.len() > 0 {
            lemma_shapes(rest, verify, fail_if_verify_present);
            assert(rest[0] == events[at + 1]);
        } else {
            assert(written == rest);
        }
    }
}

/// A conflict is detected: on a document marked with `present`, a bake of another
/// payload that reports conflicts reports `present`.
pub proof fn law_conflict_is_detected(
    events: Seq<EventView>,
    present: Seq<char>,
    proposed: Seq<char>,
)
    requires
        payload(events) == Some(present),
        present != proposed,
    ensures
        baked_events(events, proposed, true) == Err::<Seq<EventView>, Seq<char>>(present),
{
    lemma_baked_whole(events, proposed, true);
    lemma_root_at(events);
    let rest = events.skip(root_at(events) + 1);
    assert(rest[0] == events[root_at(events) + 1]);
}

/// A bake that may replace does so: on a document marked with `present`, a bake of
/// another payload succeeds, and what it writes is marked with the new payload.
pub proof fn law_overwrite_replaces(
    events: Seq<EventView>,
    present: Seq<char>,
    proposed: Seq<char>,
)
    requires
        payload(events) == Some(present),
        present != proposed,
    ensures
        baked_events(events, proposed, false) is Ok,
        payload(baked_events(events, proposed, false)->Ok_0) == Some(proposed),
{
    lemma_baked_whole(events, proposed, false);
    lemma_root_at(events);
    let rest = events.skip(root_at(events) + 1);
    assert(rest[0] == events[root_at(events) + 1]);
    assert(baked_events(events, proposed, false) is Ok);
    law_bake_is_idempotent(events, proposed, false);
}

/// A conflict is only found where conflicts are to be reported, and the payload in
/// the way is never the one proposed.
pub proof fn lemma_conflict_differs(
    events: Seq<EventView>,
    verify: Seq<char>,
    fail_if_verify_present: bool,
)
    requires
        baked_events(events, verify, fail_if_verify_present) is Err,
    ensures
        fail_if_verify_present,
        baked_events(events, verify, fail_if_verify_present)->Err_0 != verify,
{
    lemma_baked_whole(events, verify, fail_if_verify_present);
}

/// `xml::reader::EventReader::new` over the bytes, and the events that it hands out,
/// in order: each event of the document, or why it could not be read. The reader
/// hands out nothing after the end of the document or after a failure.
#[verifier::external_body]
fn read_events(input: &[u8]) -> (r: Vec<Result<xml::reader::XmlEvent, xml::reader::Error>>)
    ensures
        r@ == parsed_events(input@),
{
    xml::reader::EventReader::new(input).into_iter().collect()
}

/// Tells the variants of `xml::reader::XmlEvent` apart: a `StartElement` and an
/// `EndElement` give up their fields, name by name and attribute by attribute; any
/// other event is kept whole.
#[verifier::external_body]
fn classify(event: xml::reader::XmlEvent) -> (r: Event)
    ensures
        r@ == classified(event),
{
    match event {
        xml::reader::XmlEvent::StartElement { name: n, attributes, namespace } => {
            let name = Name { local_name: n.local_name, namespace: n.namespace, prefix: n.prefix };
            let own = |a: xml::attribute::OwnedAttribute| Attribute {
                name: Name { local_name: a.name.local_name, namespace: a.name.namespace, prefix: a.name.prefix },
                value: a.value,
            };
            Event::Start(StartTag { name, attributes: attributes.into_iter().map(own).collect(), namespace })
        },
        xml::reader::XmlEvent::EndElement { name: n } => Event::End(
            Some(Name { local_name: n.local_name, namespace: n.namespace, prefix: n.prefix }),
        ),
        other => Event::Other(other),
    }
}

/// `xml::namespace::Namespace::empty`: a namespace without mappings.
#[verifier::external_body]
fn empty_namespace() -> (r: xml::namespace::Namespace)
    ensures
        namespace_map(r) == no_mappings(),
{
    xml::namespace::Namespace::empty()
}

/// `xml::namespace::Namespace::contains`: whether the prefix has a mapping.
#[verifier::external_body]
fn namespace_contains(namespace: &xml::namespace::Namespace, prefix: &str) -> (r: bool)
    ensures
        r == namespace_map(*namespace).contains_key(prefix@),
{
    namespace.contains(prefix)
}

/// `xml::namespace::Namespace::put`: maps the prefix to the URI if the prefix has no
/// mapping yet, and says whether it did; a prefix that has one keeps it.
#[verifier::external_body]
fn namespace_put(namespace: &mut xml::namespace::Namespace, prefix: &str, uri: &str) -> (r: bool)
    ensures
        r == !namespace_map(*old(namespace)).contains_key(prefix@),
        namespace_map(*final(namespace)) == if r {
            namespace_map(*old(namespace)).insert(prefix@, uri@)
        } else {
            namespace_map(*old(namespace))
        },
{
    namespace.put(prefix, uri)
}

/// `xml::reader::XmlEvent::as_writer_event`: whether the event has a counterpart for
/// the writer.
#[verifier::external_body]
fn counterpart_exists(event: &xml::reader::XmlEvent) -> (r: bool)
    ensures
        r == has_counterpart(*event),
{
    event.as_writer_event().is_some()
}

/// A start tag as `xml::writer::XmlEvent::StartElement`, with its name, its attributes
/// and its namespaces as they are.
#[verifier::external_body]
fn start_event<'a>(tag: &'a StartTag) -> (r: xml::writer::XmlEvent<'a>) {
    let n = &tag.name;
    xml::writer::XmlEvent::StartElement {
        name: xml::name::Name { local_name: &n.local_name, namespace: n.namespace.as_deref(), prefix: n.prefix.as_deref() },
        attributes: tag.attributes.iter().map(|a| xml::attribute::Attribute {
            name: xml::name::Name { local_name: &a.name.local_name, namespace: a.name.namespace.as_deref(), prefix: a.name.prefix.as_deref() },
            value: &a.value,
        }).collect(),
        namespace: std::borrow::Cow::Borrowed(&tag.namespace),
    }
}

/// An end tag as `xml::writer::XmlEvent::EndElement`, with its name or with none.
#[verifier::external_body]
fn end_event<'a>(name: &'a Option<Name>) -> (r: xml::writer::XmlEvent<'a>) {
    xml::writer::XmlEvent::EndElement {
        name: name.as_ref().map(|n| xml::name::Name {
            local_name: &n.local_name,
            namespace: n.namespace.as_deref(),
            prefix: n.prefix.as_deref(),
        }),
    }
}

/// `xml::reader::XmlEvent::as_writer_event`: the counterpart of the event for the
/// writer. The event must have one.
#[verifier::external_body]
fn other_event<'a>(event: &'a xml::reader::XmlEvent) -> (r: xml::writer::XmlEvent<'a>)
    requires
        has_counterpart(*event),
{
    event.as_writer_event().unwrap()
}

/// An event as the writer takes it.
fn to_writer_event<'a>(event: &'a Event) -> (r: xml::writer::XmlEvent<'a>)
    requires
        is_writable(event@),
{
    match event {
        Event::Start(tag) => start_event(tag),
        Event::End(name) => end_event(name),
        Event::Other(other) => other_event(other),
    }
}

/// `xml::writer::EmitterConfig::new` and `create_writer` over an empty byte vector,
/// `xml::writer::EventWriter::write` of each event in order, and `into_inner`: the
/// bytes of the document, unless the writer refuses an event.
#[verifier::external_body]
fn write_document(events: &Vec<Event>) -> (r: Result<Vec<u8>, xml::writer::Error>)
    requires
        forall|i: int| 0 <= i < events.len() ==> is_writable(#[trigger] events[i]@),
    ensures
        r is Ok == writer_accepts(event_views(events@)),
        r is Ok ==> r->Ok_0@ == document_text(event_views(events@)),
{
    let mut writer = xml::writer::EmitterConfig::new().create_writer(Vec::new());
    for event in events {
        writer.write(to_writer_event(event))?;
    }
    Ok(writer.into_inner())
}

/// A failure of the parser as an error of the patcher.
pub fn conv_read_err(err: xml::reader::Error) -> (r: PatcherError)
    ensures
        r == PatcherError::XmlReading(err),
{
    PatcherError::XmlReading(err)
}

/// A failure of the writer as an error of the patcher.
pub fn conv_write_err(err: xml::writer::Error) -> (r: PatcherError)
    ensures
        r == PatcherError::XmlWriting(err),
{
    PatcherError::XmlWriting(err)
}

/// Bakes `verify` into a document given as its events: each event goes through
/// [`step`], from the state before the root on, and what the steps write is the new
/// document.
pub fn bake_events(events: Vec<Event>, verify: &str, fail_if_verify_present: bool) -> (r: Result<
    Vec<Event>,
    PatcherError,
>)
    ensures
        bake_result(event_views(events@), verify@, fail_if_verify_present, r),
{
    let ghost all = event_views(events@);
    let mut state = State::WaitingForRoot;
    let mut out: Vec<Event> = Vec::new();
    assert(all.skip(0) == all);
    assert(event_views(out@) + all == all);
    for event in it: events
        invariant
            event_views(it.seq()) == all,
            baked_events(all, verify@, fail_if_verify_present) == match baked_from(
                state,
                all.skip(it.index()),
                verify@,
                fail_if_verify_present,
            ) {
                Ok(rest) => Ok::<Seq<EventView>, Seq<char>>(event_views(out@) + rest),
                Err(found) => Err(found),
            },
    {
        let ghost todo = all.skip(it.index());
        assert(todo[0] == event@);
        assert(todo.drop_first() == all.skip(it.index() + 1));
        match step(state, event, verify, fail_if_verify_present) {
            Err(e) => {
                return Err(e);
            },
            Ok((next, mut written)) => {
                let ghost before = event_views(out@);
                let ghost added = event_views(written@);
                out.append(&mut written);
                assert(event_views(out@) == before + added);
                assert forall|rest: Seq<EventView>| (before + added) + rest == before + (added + rest) by {
                    assert((before + added) + rest =~= before + (added + rest));
                }
                state = next;
            },
        }
    }
    assert(all.skip(all.len() as int) == Seq::<EventView>::empty());
    assert(event_views(out@) + Seq::<EventView>::empty() == event_views(out@));
    Ok(out)
}

/// The position of the first event that could not be read, or the number of events
/// if all could.
pub open spec fn failure_at(events: Seq<Result<xml::reader::XmlEvent, xml::reader::Error>>) -> int
    decreases events.len(),
{
    if events.len() == 0 {
        0
    } else if events[0] is Err {
        0
    } else {
        1 + failure_at(events.drop_first())
    }
}

/// The events that were read before the first failure, each as the patcher sees it.
pub open spec fn readable(
    events: Seq<Result<xml::reader::XmlEvent, xml::reader::Error>>,
) -> Seq<EventView> {
    events.take(failure_at(events)).map_values(
        |read: Result<xml::reader::XmlEvent, xml::reader::Error>| classified(read->Ok_0),
    )
}

/// The position that [`failure_at`] gives lies within the events or at their end, each
/// event before it was read, and the event at it, if any, was not.
pub proof fn lemma_failure_at(events: Seq<Result<xml::reader::XmlEvent, xml::reader::Error>>)
    ensures
        0 <= failure_at(events) <= events.len(),
        forall|j: int| 0 <= j < failure_at(events) ==> (#[trigger] events[j]) is Ok,
        failure_at(events) < events.len() ==> events[failure_at(events)] is Err,
    decreases events.len(),
{
    if events.len() > 0 && events[0] is Ok {
        let tail = events.drop_first();
        lemma_failure_at(tail);
        assert forall|j: int| 0 <= j < failure_at(events) implies (#[trigger] events[j]) is Ok by {
            if j > 0 {
                assert(events[j] == tail[j - 1]);
            }
        }
    }
}

/// Whether the writer can be handed the event: a tag always, any other event if it
/// has a counterpart for the writer.
pub open spec fn is_writable(event: EventView) -> bool {
    event matches EventView::Other(other) ==> has_counterpart(other)
}

/// Picks the events that the writer can be handed.
pub open spec fn writable() -> spec_fn(EventView) -> bool {
    |e: EventView| is_writable(e)
}

/// Takes the events that were read up to the first that could not be read, each as the
/// patcher sees it, and hands back that failure, if there was one.
fn classify_all(events: Vec<Result<xml::reader::XmlEvent, xml::reader::Error>>) -> (r: (
    Vec<Event>,
    Option<xml::reader::Error>,
))
    ensures
        event_views(r.0@) == readable(events@),
        failure_at(events@) <= events.len(),
        r.1 is Some <==> failure_at(events@) < events.len(),
        r.1 is Some ==> events[failure_at(events@)] == Err::<
            xml::reader::XmlEvent,
            xml::reader::Error,
        >(r.1->0),
{
    let ghost all = events@;
    let mut seen: Vec<Event> = Vec::new();
    proof {
        lemma_failure_at(all);
    }
    for read in it: events
        invariant
            it.seq() == all,
            it.index() <= failure_at(all) <= all.len(),
            seen.len() == it.index(),
            forall|j: int| 0 <= j < failure_at(all) ==> (#[trigger] all[j]) is Ok,
            failure_at(all) < all.len() ==> all[failure_at(all)] is Err,
            forall|j: int| 0 <= j < it.index() ==> (#[trigger] seen[j])@ == classified(all[j]->Ok_0),
    {
        match read {
            Ok(event) => {
                seen.push(classify(event));
            },
            Err(e) => {
                assert(event_views(seen@) == readable(all));
                return (seen, Some(e));
            },
        }
    }
    assert(event_views(seen@) == readable(all));
    (seen, None)
}

/// The events that the writer can be handed, in their order: an event that has no
/// counterpart for the writer, as the end of the document has none, is passed over.
fn writable_events(events: Vec<Event>) -> (r: Vec<Event>)
    ensures
        event_views(r@) == event_views(events@).filter(writable()),
        forall|i: int| 0 <= i < r.len() ==> is_writable(#[trigger] r[i]@),
{
    let ghost all = event_views(events@);
    let mut kept: Vec<Event> = Vec::new();
    assert(all.take(0) == Seq::<EventView>::empty());
    assert(event_views(kept@) == all.take(0).filter(writable())) by {
        reveal(Seq::filter);
        assert(event_views(kept@) == Seq::<EventView>::empty());
    }
    for event in it: events
        invariant
            event_views(it.seq()) == all,
            event_views(kept@) == all.take(it.index()).filter(writable()),
            forall|i: int| 0 <= i < kept.len() ==> is_writable(#[trigger] kept[i]@),
    {
        let ghost before = event_views(kept@);
        assert(all[it.index()] == event@);
        assert(all.take(it.index() + 1) == all.take(it.index()).push(event@));
        proof {
            lemma_filter_push(all.take(it.index()), event@, writable());
        }
        let keep = match &event {
            Event::Other(other) => counterpart_exists(other),
            _ => true,
        };
        if keep {
            kept.push(event);
            assert(event_views(kept@) == before.push(event@));
        }
    }
    assert(all.take(all.len() as int) == all);
    kept
}

/// What a bake of the document in `input` gives.
///
/// The bake follows the events that the parser reads, up to the first that it cannot
/// read. A conflict among them is reported with the payload that [`baked_events`]
/// finds in the way, and it goes before the failure to read. With no conflict, an
/// event that could not be read is the failure of the bake. When all events were
/// read, the events that [`baked_events`] gives go to the writer, but for those that
/// have no counterpart for it: what the writer makes of them is the new document,
/// and an event that it refuses is the failure of the bake.
pub open spec fn rewrite_result(
    input: Seq<u8>,
    verify: Seq<char>,
    fail_if_verify_present: bool,
    r: Result<Vec<u8>, PatcherError>,
) -> bool {
    let events = parsed_events(input);
    match baked_events(readable(events), verify, fail_if_verify_present) {
        Err(found) => r matches Err(PatcherError::VerifyAlreadySet { present, proposed })
            && present@ == found && proposed@ == verify,
        Ok(baked) => if failure_at(events) < events.len() {
            r matches Err(PatcherError::XmlReading(e)) && events[failure_at(events)] == Err::<
                xml::reader::XmlEvent,
                xml::reader::Error,
            >(e)
        } else if writer_accepts(baked.filter(writable())) {
            r matches Ok(bytes) && bytes@ == document_text(baked.filter(writable()))
        } else {
            r matches Err(PatcherError::XmlWriting(_))
        },
    }
}

/// A conflict is detected by the patcher: on a document marked with `present`, a bake
/// of another payload that reports conflicts gives exactly that conflict, whatever
/// comes later in the document.
pub proof fn law_rewrite_detects_conflict(
    input: Seq<u8>,
    present: Seq<char>,
    proposed: Seq<char>,
    r: Result<Vec<u8>, PatcherError>,
)
    requires
        payload(readable(parsed_events(input))) == Some(present),
        present != proposed,
        rewrite_result(input, proposed, true, r),
    ensures
        r matches Err(PatcherError::VerifyAlreadySet { present: found, proposed: wanted })
            && found@ == present && wanted@ == proposed,
{
    law_conflict_is_detected(readable(parsed_events(input)), present, proposed);
}

/// Where all events can be read and no conflict stands in the way, the patcher
/// succeeds whenever the writer takes the baked events, and the new document is what
/// the writer makes of them. What is no part of a marker is among them as it was
/// read, but for the namespace declared on the root, and where the document has a
/// place for the marker, they are marked with `verify`.
pub proof fn law_rewrite_keeps_the_document(
    input: Seq<u8>,
    verify: Seq<char>,
    fail_if_verify_present: bool,
    r: Result<Vec<u8>, PatcherError>,
)
    requires
        failure_at(parsed_events(input)) == parsed_events(input).len(),
        baked_events(readable(parsed_events(input)), verify, fail_if_verify_present) is Ok,
        rewrite_result(input, verify, fail_if_verify_present, r),
    ensures
        ({
            let read = readable(parsed_events(input));
            let baked = baked_events(read, verify, fail_if_verify_present)->Ok_0;
            &&& writer_accepts(baked.filter(writable())) ==> (r matches Ok(bytes) && bytes@
                == document_text(baked.filter(writable())))
            &&& !writer_accepts(baked.filter(writable())) ==> (r matches Err(
                PatcherError::XmlWriting(_),
            ))
            &&& cargo(baked) == cargo(root_declared(read))
            &&& has_marker_place(read) ==> payload(baked) == Some(verify)
        }),
{
    let read = readable(parsed_events(input));
    law_bake_preserves_cargo(read, verify, fail_if_verify_present);
    law_bake_is_idempotent(read, verify, fail_if_verify_present);
}

/// The patcher for SVG images.
pub struct Patcher;

impl super::Patcher for Patcher {
    /// Parses the SVG image in `input`, bakes `verify` into its events as
    /// [`bake_events`] says, and writes the events that the bake gives: the new
    /// document.
    fn rewrite(input: Vec<u8>, verify: &str, fail_if_verify_present: bool) -> (r: Result<
        Vec<u8>,
        PatcherError,
    >)
        ensures
            rewrite_result(input@, verify@, fail_if_verify_present, r),
    {
        let (events, failure) = classify_all(read_events(input.as_slice()));
        let baked = match bake_events(events, verify, fail_if_verify_present) {
            Ok(baked) => baked,
            Err(e) => {
                proof {
                    lemma_conflict_differs(
                        readable(parsed_events(input@)),
                        verify@,
                        fail_if_verify_present,
                    );
                }
                return Err(e);
            },
        };
        if let Some(e) = failure {
            return Err(conv_read_err(e));
        }
        match write_document(&writable_events(baked)) {
            Ok(bytes) => Ok(bytes),
            Err(e) => Err(conv_write_err(e)),
        }
    }
}

} // verus!
