//! Structural validation of a markup event stream, reconstructing a flat
//! textual form of the document while checking names and nesting.

use crate::event::{
    Attribute, contains_space, end_tag_text, start_tag_text, views, xml_end_tag, xml_start_tag, EventView,
    MarkupEvent,
};
use vstd::prelude::*;
use vstd::string::*;
use xml::reader::{EventReader, XmlEvent};

verus! {

/// Why an event stream was rejected.
#[derive(Clone, Debug, PartialEq, Eq)]
pub enum ValidationError {
    /// A start tag whose name holds a space.
    InvalidElementName(String),
    /// A closing tag that does not close the innermost open element
    /// (expected name, or none when no element is open; found name).
    MismatchedClosingTag(Option<String>, String),
    /// The stream ended with these elements still open, outermost first.
    UnclosedElements(Vec<String>),
    /// The event source reported this error.
    UpstreamParseError(String),
}

/// The model of a rejection.
pub enum RejectionView {
    InvalidElementName(Seq<char>),
    MismatchedClosingTag(Option<Seq<char>>, Seq<char>),
    UnclosedElements(Seq<Seq<char>>),
    UpstreamParseError(Seq<char>),
}

pub open spec fn string_views(s: Seq<String>) -> Seq<Seq<char>> {
    s.map_values(|x: String| x@)
}

impl View for ValidationError {
    type V = RejectionView;

    open spec fn view(&self) -> RejectionView {
        match self {
            ValidationError::InvalidElementName(n) => RejectionView::InvalidElementName(n@),
            ValidationError::MismatchedClosingTag(e, f) => RejectionView::MismatchedClosingTag(
                match e {
                    Some(x) => Some(x@),
                    None => None,
                },
                f@,
            ),
            ValidationError::UnclosedElements(s) => RejectionView::UnclosedElements(
                string_views(s@),
            ),
            ValidationError::UpstreamParseError(c) => RejectionView::UpstreamParseError(c@),
        }
    }
}

/// The model of a validation result.
pub open spec fn outcome_view(r: Result<String, ValidationError>) -> Result<Seq<char>, RejectionView> {
    match r {
        Ok(s) => Ok(s@),
        Err(e) => Err(e@),
    }
}

/// The verdict at the end of the stream: accepted only when no element is open.
pub open spec fn close_stream(stack: Seq<Seq<char>>, out: Seq<char>) -> Result<Seq<char>, RejectionView> {
    if stack.len() == 0 {
        Ok(out)
    } else {
        Err(RejectionView::UnclosedElements(stack))
    }
}

/// Processes `events` in order from the open-element stack `stack` and the
/// text `out` reconstructed so far, up to the end of the stream or the first
/// rejection. Running out of events counts as the end of the stream.
pub open spec fn run(stack: Seq<Seq<char>>, out: Seq<char>, events: Seq<EventView>) -> Result<Seq<char>, RejectionView>
    decreases events.len(),
{
    if events.len() == 0 {
        close_stream(stack, out)
    } else {
        let rest = events.drop_first();
        match events[0] {
            EventView::StartElement(name, attrs) => if name.contains(' ') {
                Err(RejectionView::InvalidElementName(name))
            } else {
                run(stack.push(name), out + start_tag_text(name, attrs), rest)
            },
            EventView::EndElement(name) => if stack.len() == 0 {
                Err(RejectionView::MismatchedClosingTag(None, name))
            } else if stack.last() != name {
                Err(RejectionView::MismatchedClosingTag(Some(stack.last()), name))
            } else {
                run(stack.drop_last(), out + end_tag_text(name), rest)
            },
            EventView::Characters(text) => run(stack, out + text, rest),
            EventView::Error(cause) => Err(RejectionView::UpstreamParseError(cause)),
            EventView::EndOfStream => close_stream(stack, out),
            EventView::Other => run(stack, out, rest),
        }
    }
}

/// The result of validating a whole event stream, starting with no open
/// element and no text.
pub open spec fn validation(events: Seq<EventView>) -> Result<Seq<char>, RejectionView> {
    run(Seq::empty(), Seq::empty(), events)
}

fn clone_name(s: &String) -> (r: String)
    ensures
        r@ == s@,
{
    s.clone()
}

/// Checks that element names hold no space and that every element is closed,
/// innermost first, before the stream ends; on success returns the flat
/// reconstruction of the document (tags with their attributes, and character
/// data verbatim).
pub fn validate_and_reconstruct(events: &Vec<MarkupEvent>) -> (r: Result<String, ValidationError>)
    ensures
        outcome_view(r) == validation(views(events@)),
{
    let ghost all = views(events@);
    let mut stack: Vec<String> = Vec::new();
    let mut out = String::new();
    let mut i: usize = 0;
    assert(all.subrange(0, all.len() as int) =~= all);
    assert(string_views(stack@) =~= Seq::<Seq<char>>::empty());
    while i < events.len()
        invariant
            i <= events@.len(),
            all == views(events@),
            run(string_views(stack@), out@, all.subrange(i as int, all.len() as int))
                == validation(all),
        decreases events@.len() - i,
    {
        let ghost st = string_views(stack@);
        let ghost rest = all.subrange(i as int, all.len() as int);
        assert(rest[0] == events@[i as int]@);
        assert(rest.drop_first() =~= all.subrange(i + 1, all.len() as int));
        match &events[i] {
            MarkupEvent::StartElement(name, attrs) => {
                if contains_space(name.as_str()) {
                    return Err(ValidationError::InvalidElementName(clone_name(name)));
                }
                stack.push(clone_name(name));
                xml_start_tag(&mut out, name.as_str(), attrs.as_slice());
                assert(string_views(stack@) =~= st.push(name@));
            },
            MarkupEvent::EndElement(name) => {
                match stack.pop() {
                    None => {
                        return Err(ValidationError::MismatchedClosingTag(None, clone_name(name)));
                    },
                    Some(top) => {
                        assert(string_views(stack@) =~= st.drop_last());
                        if top != *name {
                            let found = clone_name(name);
                            return Err(ValidationError::MismatchedClosingTag(Some(top), found));
                        }
                        xml_end_tag(&mut out, name.as_str());
                    },
                }
            },
            MarkupEvent::Characters(text) => {
                out.append(text.as_str());
            },
            MarkupEvent::Error(cause) => {
                return Err(ValidationError::UpstreamParseError(clone_name(cause)));
            },
            MarkupEvent::EndOfStream => {
                if stack.len() == 0 {
                    return Ok(out);
                } else {
                    return Err(ValidationError::UnclosedElements(stack));
                }
            },
            MarkupEvent::Other => {},
        }
        i += 1;
    }
    if stack.len() == 0 {
        Ok(out)
    } else {
        Err(ValidationError::UnclosedElements(stack))
    }
}

/// The events that a parse of `text` yields, in document order, up to and
/// including the end of the document or the first error.
pub uninterp spec fn markup_events_of(text: Seq<char>) -> Seq<EventView>;

/// Relies on the event iterator of xml::reader::EventReader: it tokenizes the
/// text and stops after the end of the document or the first error. Events
/// are converted one for one; those without structure become `Other`.
#[verifier::external_body]
fn parse_events(text: &str) -> (r: Vec<MarkupEvent>)
    ensures
        views(r@) == markup_events_of(text@),
{
    EventReader::new(text.as_bytes()).into_iter().map(|e| match e {
        Ok(XmlEvent::StartElement { name, attributes, .. }) => MarkupEvent::StartElement(
            name.local_name,
            attributes.into_iter().map(|a| Attribute { name: a.name.local_name, value: a.value }).collect(),
        ),
        Ok(XmlEvent::EndElement { name }) => MarkupEvent::EndElement(name.local_name),
        Ok(XmlEvent::Characters(data)) => MarkupEvent::Characters(data),
        Ok(XmlEvent::EndDocument) => MarkupEvent::EndOfStream,
        Ok(_) => MarkupEvent::Other,
        Err(error) => MarkupEvent::Error(error.to_string()),
    }).collect()
}

/// Parses `text` as markup and validates the event stream that it yields.
pub fn check_xml_parse(text: &str) -> (r: Result<String, ValidationError>)
    ensures
        outcome_view(r) == validation(markup_events_of(text@)),
{
    let events = parse_events(text);
    validate_and_reconstruct(&events)
}

} // verus!
