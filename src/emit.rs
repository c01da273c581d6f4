//! Rendering of serialized events as indented markup text through the xml
//! crate's event writer.

use crate::event::{attr_views, views, EventView, MarkupEvent};
use crate::laws::{lemma_content_nesting, nesting};
use crate::tree::{
    content_events, document_events, element_events, items_events, members_events,
    serialize_events, valid_tree, TreeValue,
};
use vstd::prelude::*;
use vstd::utf8::{decode_utf8, valid_utf8};
use xml::writer::{EmitterConfig, EventWriter, XmlEvent};

verus! {

/// The xml crate's event writer, opaque here; `written` names what it has accepted.
#[verifier::external_type_specification]
#[verifier::external_body]
#[verifier::reject_recursive_types(W)]
pub struct ExEventWriter<W>(EventWriter<W>);

/// The xml crate's writer error, carried only to be mapped to `SerializeError`.
#[verifier::external_type_specification]
#[verifier::external_body]
pub struct ExEmitterError(xml::writer::Error);

/// Why serialization failed.
#[derive(Clone, Debug, PartialEq, Eq)]
pub enum SerializeError {
    /// The value holds a kind that has no markup form. Every kind of
    /// `TreeValue` has one, so serialization never returns this.
    UnsupportedValueKind,
    /// The markup writer refused an event or produced no text. It refuses
    /// none of the events of a serialized document, so serialization never
    /// returns this.
    EmitError,
}

/// The events that a writer has accepted so far, in order.
pub uninterp spec fn written(w: EventWriter<Vec<u8>>) -> Seq<EventView>;

/// Whether the writer has refused an event since it was made.
pub uninterp spec fn refused(w: EventWriter<Vec<u8>>) -> bool;

/// The bytes that a writer made by `new_writer` (indenting, escaping, with a
/// document declaration first) puts out for these events.
pub uninterp spec fn rendered(events: Seq<EventView>) -> Seq<u8>;

/// The names of the elements that `events` leave open, outermost first: a
/// start tag opens one, an end tag closes the innermost.
pub open spec fn open_elements(events: Seq<EventView>) -> Seq<Seq<char>>
    decreases events.len(),
{
    if events.len() == 0 {
        Seq::empty()
    } else {
        let open = open_elements(events.drop_last());
        match events.last() {
            EventView::StartElement(name, _) => open.push(name),
            EventView::EndElement(_) => open.drop_last(),
            _ => open,
        }
    }
}

/// Relies on EventWriter::new_with_config with EmitterConfig::perform_indent
/// switched on: a fresh writer over an empty buffer has accepted and refused
/// nothing.
#[verifier::external_body]
fn new_writer() -> (w: EventWriter<Vec<u8>>)
    ensures
        written(w) == Seq::<EventView>::empty(),
        !refused(w),
{
    EventWriter::new_with_config(Vec::new(), EmitterConfig::new().perform_indent(true))
}

/// Relies on EventWriter::write, given XmlEvent::start_element without
/// attributes: a start tag fails only on an error of the sink, which a `Vec`
/// never gives, and becomes the writer's latest event.
#[verifier::external_body]
fn write_start(w: &mut EventWriter<Vec<u8>>, name: &str) -> (r: Result<(), xml::writer::Error>)
    ensures
        r is Ok,
        written(*final(w)) == written(*old(w)).push(EventView::StartElement(name@, Seq::empty())),
        refused(*final(w)) == refused(*old(w)),
{
    w.write(XmlEvent::start_element(name))
}

/// Relies on EventWriter::write, given XmlEvent::characters: character data
/// fails only on an error of the sink, which a `Vec` never gives, and becomes
/// the writer's latest event.
#[verifier::external_body]
fn write_characters(w: &mut EventWriter<Vec<u8>>, text: &str) -> (r: Result<(), xml::writer::Error>)
    ensures
        r is Ok,
        written(*final(w)) == written(*old(w)).push(EventView::Characters(text@)),
        refused(*final(w)) == refused(*old(w)),
{
    w.write(XmlEvent::characters(text))
}

/// Relies on EventWriter::write, given XmlEvent::end_element with its name
/// set: the writer keeps the names of the open elements and refuses an end
/// tag that does not close the innermost one; once accepted, the end tag is
/// its latest event.
#[verifier::external_body]
fn write_end(w: &mut EventWriter<Vec<u8>>, name: &str) -> (r: Result<(), xml::writer::Error>)
    ensures
        r is Ok ==> written(*final(w)) == written(*old(w)).push(EventView::EndElement(name@)),
        refused(*final(w)) == (refused(*old(w)) || r is Err),
        !refused(*old(w)) && open_elements(written(*old(w))).len() > 0 && open_elements(
            written(*old(w)),
        ).last() == name@ ==> r is Ok,
{
    w.write(XmlEvent::end_element().name(name))
}

/// Relies on EventWriter::into_inner: the buffer that the writer filled, in
/// which it wrote only text; unless it refused an event, that is what it
/// renders for the events it accepted.
#[verifier::external_body]
fn into_buffer(w: EventWriter<Vec<u8>>) -> (r: Vec<u8>)
    ensures
        valid_utf8(r@),
        !refused(w) ==> r@ == rendered(written(w)),
{
    w.into_inner()
}

/// Relies on String::from_utf8: the text that the bytes encode, if they are
/// valid UTF-8.
#[verifier::external_body]
fn utf8_text(bytes: Vec<u8>) -> (r: Option<String>)
    ensures
        r is Some <==> valid_utf8(bytes@),
        r is Some ==> r->0@ == decode_utf8(bytes@),
{
    String::from_utf8(bytes).ok()
}

/// The open-element stack after `events`, from `stack`, when each end tag
/// closes the innermost open element and no end of stream or error occurs;
/// `None` otherwise.
pub open spec fn closing(stack: Seq<Seq<char>>, events: Seq<EventView>) -> Option<Seq<Seq<char>>>
    decreases events.len(),
{
    if events.len() == 0 {
        Some(stack)
    } else {
        let rest = events.drop_first();
        match events[0] {
            EventView::StartElement(name, _) => closing(stack.push(name), rest),
            EventView::EndElement(name) => if stack.len() > 0 && stack.last() == name {
                closing(stack.drop_last(), rest)
            } else {
                None
            },
            EventView::Characters(_) => closing(stack, rest),
            EventView::Other => closing(stack, rest),
            _ => None,
        }
    }
}

proof fn lemma_closing_concat(stack: Seq<Seq<char>>, a: Seq<EventView>, b: Seq<EventView>)
    ensures
        closing(stack, a + b) == match closing(stack, a) {
            Some(s) => closing(s, b),
            None => None,
        },
    decreases a.len(),
{
    if a.len() == 0 {
        assert(a + b =~= b);
    } else {
        assert((a + b)[0] == a[0]);
        assert((a + b).drop_first() =~= a.drop_first() + b);
        match a[0] {
            EventView::StartElement(name, _) => lemma_closing_concat(stack.push(name), a.drop_first(), b),
            EventView::EndElement(_) => lemma_closing_concat(stack.drop_last(), a.drop_first(), b),
            _ => lemma_closing_concat(stack, a.drop_first(), b),
        }
    }
}

proof fn lemma_closing_of_nesting(stack: Seq<Seq<char>>, events: Seq<EventView>)
    requires
        nesting(stack, events) is Some,
    ensures
        closing(stack, events) == nesting(stack, events),
    decreases events.len(),
{
    if events.len() > 0 {
        match events[0] {
            EventView::StartElement(name, _) => lemma_closing_of_nesting(stack.push(name), events.drop_first()),
            EventView::EndElement(_) => lemma_closing_of_nesting(stack.drop_last(), events.drop_first()),
            _ => lemma_closing_of_nesting(stack, events.drop_first()),
        }
    }
}

/// Every end tag of a serialized document closes the innermost open element,
/// whatever the root's name.
proof fn lemma_document_closing(root_name: Seq<char>, value: TreeValue)
    ensures
        closing(Seq::empty(), document_events(root_name, value)) == Some(Seq::<Seq<char>>::empty()),
{
    let empty = Seq::<Seq<char>>::empty();
    let top = empty.push(root_name);
    let start = seq![EventView::StartElement(root_name, Seq::empty())];
    let end = seq![EventView::EndElement(root_name)];
    let content = content_events(value);
    lemma_content_nesting(top, value);
    lemma_closing_of_nesting(top, content);
    assert(start[0] == EventView::StartElement(root_name, Seq::empty()));
    assert(start.drop_first() =~= Seq::<EventView>::empty());
    assert(closing(top, Seq::<EventView>::empty()) == Some(top));
    assert(closing(empty, start) == Some(top));
    assert(end[0] == EventView::EndElement(root_name));
    assert(end.drop_first() =~= Seq::<EventView>::empty());
    assert(top.drop_last() =~= empty);
    assert(closing(empty, Seq::<EventView>::empty()) == Some(empty));
    assert(closing(top, end) == Some(empty));
    lemma_closing_concat(empty, start, content);
    lemma_closing_concat(empty, start + content, end);
}

/// The events of a serialized document are start tags without attributes,
/// character data and end tags.
pub open spec fn writable(e: EventView) -> bool {
    ||| e matches EventView::StartElement(_, attrs) && attrs.len() == 0
    ||| e is Characters
    ||| e is EndElement
}

pub open spec fn all_writable(events: Seq<EventView>) -> bool {
    forall|k: int| 0 <= k < events.len() ==> writable(#[trigger] events[k])
}

proof fn lemma_concat_writable(a: Seq<EventView>, b: Seq<EventView>)
    requires
        all_writable(a),
        all_writable(b),
    ensures
        all_writable(a + b),
{
    assert forall|k: int| 0 <= k < (a + b).len() implies writable(#[trigger] (a + b)[k]) by {
        if k < a.len() {
            assert((a + b)[k] == a[k]);
        } else {
            assert((a + b)[k] == b[k - a.len()]);
        }
    }
}

proof fn lemma_element_writable(name: Seq<char>, content: Seq<EventView>)
    requires
        all_writable(content),
    ensures
        all_writable(element_events(name, content)),
{
    let start = seq![EventView::StartElement(name, Seq::empty())];
    let end = seq![EventView::EndElement(name)];
    assert(writable(start[0]));
    assert(writable(end[0]));
    lemma_concat_writable(start, content);
    lemma_concat_writable(start + content, end);
}

proof fn lemma_content_writable(v: TreeValue)
    ensures
        all_writable(content_events(v)),
    decreases v,
{
    match v {
        TreeValue::Array(items) => lemma_items_writable(items@),
        TreeValue::Object(members) => lemma_members_writable(members@),
        _ => {
            assert(writable(content_events(v)[0]));
        },
    }
}

proof fn lemma_items_writable(items: Seq<TreeValue>)
    ensures
        all_writable(items_events(items)),
    decreases items,
{
    if items.len() > 0 {
        lemma_items_writable(items.drop_last());
        lemma_content_writable(items.last());
        lemma_element_writable(crate::tree::item_name(), content_events(items.last()));
        lemma_concat_writable(
            items_events(items.drop_last()),
            element_events(crate::tree::item_name(), content_events(items.last())),
        );
    }
}

proof fn lemma_members_writable(members: Seq<(String, TreeValue)>)
    ensures
        all_writable(members_events(members)),
    decreases members,
{
    if members.len() > 0 {
        let name = crate::tree::element_name(members.last().0@);
        lemma_members_writable(members.drop_last());
        lemma_content_writable(members.last().1);
        lemma_element_writable(name, content_events(members.last().1));
        lemma_concat_writable(
            members_events(members.drop_last()),
            element_events(name, content_events(members.last().1)),
        );
    }
}

/// Hands the events to the writer in order; none is refused, since each end
/// tag closes the innermost open element.
fn write_all(w: &mut EventWriter<Vec<u8>>, events: &Vec<MarkupEvent>)
    requires
        all_writable(views(events@)),
        !refused(*old(w)),
        closing(open_elements(written(*old(w))), views(events@)) is Some,
    ensures
        written(*final(w)) == written(*old(w)) + views(events@),
        !refused(*final(w)),
{
    let ghost all = views(events@);
    let mut i: usize = 0;
    assert(all.subrange(0, 0) =~= Seq::<EventView>::empty());
    assert(written(*w) =~= written(*w) + all.subrange(0, 0));
    assert(all.subrange(0, all.len() as int) =~= all);
    while i < events.len()
        invariant
            i <= events@.len(),
            all == views(events@),
            all_writable(all),
            !refused(*w),
            written(*w) == written(*old(w)) + all.subrange(0, i as int),
            closing(open_elements(written(*w)), all.subrange(i as int, all.len() as int)) is Some,
        decreases events@.len() - i,
    {
        let ghost before = written(*w);
        let ghost rest = all.subrange(i as int, all.len() as int);
        assert(all[i as int] == events@[i as int]@);
        assert(rest[0] == all[i as int]);
        assert(rest.drop_first() =~= all.subrange(i + 1, all.len() as int));
        match &events[i] {
            MarkupEvent::StartElement(name, attrs) => {
                assert(attr_views(attrs@) =~= Seq::empty());
                let _ = write_start(w, name.as_str());
            },
            MarkupEvent::Characters(text) => {
                let _ = write_characters(w, text.as_str());
            },
            MarkupEvent::EndElement(name) => {
                let _ = write_end(w, name.as_str());
            },
            _ => {
                assert(writable(all[i as int]));
            },
        }
        assert(written(*w) == before.push(all[i as int]));
        assert(written(*w).drop_last() =~= before);
        assert(all.subrange(0, i + 1) =~= all.subrange(0, i as int).push(all[i as int]));
        assert(written(*w) =~= written(*old(w)) + all.subrange(0, i + 1));
        i += 1;
    }
}

/// Serializes `json` as indented markup under a root element named
/// `root_name`: the text that the writer renders for the document's events.
/// The writer refuses none of them, so this always succeeds.
pub fn convert_json_to_xml(json: TreeValue, root_name: &str) -> (r: Result<String, SerializeError>)
    requires
        valid_tree(json),
    ensures
        r is Ok,
        valid_utf8(rendered(document_events(root_name@, json))),
        r matches Ok(s) && s@ == decode_utf8(rendered(document_events(root_name@, json))),
{
    let events = serialize_events(&json, root_name);
    proof {
        lemma_content_writable(json);
        lemma_element_writable(root_name@, content_events(json));
        lemma_document_closing(root_name@, json);
    }
    let mut w = new_writer();
    assert(open_elements(written(w)) =~= Seq::<Seq<char>>::empty());
    write_all(&mut w, &events);
    assert(written(w) =~= views(events@));
    match utf8_text(into_buffer(w)) {
        Some(text) => Ok(text),
        None => Err(SerializeError::EmitError),
    }
}

} // verus!
