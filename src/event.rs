//! Markup events, their mathematical model, and the flat textual form of tags.

use vstd::prelude::*;
use vstd::string::*;

verus! {

/// One attribute of a start tag.
#[derive(Clone, Debug, PartialEq, Eq)]
pub struct Attribute {
    pub name: String,
    pub value: String,
}

impl View for Attribute {
    type V = (Seq<char>, Seq<char>);

    open spec fn view(&self) -> (Seq<char>, Seq<char>) {
        (self.name@, self.value@)
    }
}

/// One event of a streamed markup parse, in document order.
#[derive(Clone, Debug, PartialEq, Eq)]
pub enum MarkupEvent {
    StartElement(String, Vec<Attribute>),
    EndElement(String),
    Characters(String),
    EndOfStream,
    Error(String),
    /// Any event that carries no structure (declarations, comments, whitespace).
    Other,
}

/// The model of a markup event: names and texts as character sequences.
pub enum EventView {
    StartElement(Seq<char>, Seq<(Seq<char>, Seq<char>)>),
    EndElement(Seq<char>),
    Characters(Seq<char>),
    EndOfStream,
    Error(Seq<char>),
    Other,
}

pub open spec fn attr_views(attrs: Seq<Attribute>) -> Seq<(Seq<char>, Seq<char>)> {
    attrs.map_values(|a: Attribute| a@)
}

impl View for MarkupEvent {
    type V = EventView;

    open spec fn view(&self) -> EventView {
        match self {
            MarkupEvent::StartElement(n, a) => EventView::StartElement(n@, attr_views(a@)),
            MarkupEvent::EndElement(n) => EventView::EndElement(n@),
            MarkupEvent::Characters(t) => EventView::Characters(t@),
            MarkupEvent::EndOfStream => EventView::EndOfStream,
            MarkupEvent::Error(c) => EventView::Error(c@),
            MarkupEvent::Other => EventView::Other,
        }
    }
}

/// The models of a sequence of events.
pub open spec fn views(events: Seq<MarkupEvent>) -> Seq<EventView> {
    events.map_values(|e: MarkupEvent| e@)
}

/// ` name="value"`
pub open spec fn attr_text(a: (Seq<char>, Seq<char>)) -> Seq<char> {
    seq![' '] + a.0 + seq!['=', '"'] + a.1 + seq!['"']
}

pub open spec fn attrs_text(attrs: Seq<(Seq<char>, Seq<char>)>) -> Seq<char>
    decreases attrs.len(),
{
    if attrs.len() == 0 {
        Seq::empty()
    } else {
        attrs_text(attrs.drop_last()) + attr_text(attrs.last())
    }
}

/// `<name a="x" b="y">`, attributes in their given order.
pub open spec fn start_tag_text(name: Seq<char>, attrs: Seq<(Seq<char>, Seq<char>)>) -> Seq<char> {
    seq!['<'] + name + attrs_text(attrs) + seq!['>']
}

/// `</name>`
pub open spec fn end_tag_text(name: Seq<char>) -> Seq<char> {
    seq!['<', '/'] + name + seq!['>']
}

/// Relies on String::push: the character is appended at the end.
#[verifier::external_body]
pub(crate) fn push_char(s: &mut String, c: char)
    ensures
        final(s)@ == old(s)@.push(c),
{
    s.push(c)
}

/// Whether the text holds a space character.
pub fn contains_space(s: &str) -> (r: bool)
    ensures
        r == s@.contains(' '),
{
    let n = s.unicode_len();
    let mut i: usize = 0;
    while i < n
        invariant
            n == s@.len(),
            i <= n,
            forall|j: int| 0 <= j < i ==> s@[j] != ' ',
        decreases n - i,
    {
        if s.get_char(i) == ' ' {
            return true;
        }
        i += 1;
    }
    false
}

/// Appends the opening tag of `tag_name`, with its attributes rendered as
/// `name="value"` pairs in their order.
pub fn xml_start_tag(output: &mut String, tag_name: &str, attributes: &[Attribute])
    ensures
        final(output)@ == old(output)@ + start_tag_text(tag_name@, attr_views(attributes@)),
{
    push_char(output, '<');
    output.append(tag_name);
    let mut i: usize = 0;
    while i < attributes.len()
        invariant
            i <= attributes@.len(),
            output@ == old(output)@ + seq!['<'] + tag_name@ + attrs_text(
                attr_views(attributes@.subrange(0, i as int)),
            ),
        decreases attributes@.len() - i,
    {
        let attr = &attributes[i];
        push_char(output, ' ');
        output.append(attr.name.as_str());
        push_char(output, '=');
        push_char(output, '"');
        output.append(attr.value.as_str());
        push_char(output, '"');
        proof {
            let pre = attr_views(attributes@.subrange(0, i as int));
            let post = attr_views(attributes@.subrange(0, i + 1));
            assert(post.drop_last() =~= pre);
            assert(post.last() == attr@);
        }
        i += 1;
    }
    assert(attributes@.subrange(0, attributes@.len() as int) =~= attributes@);
    push_char(output, '>');
    assert(output@ =~= old(output)@ + start_tag_text(tag_name@, attr_views(attributes@)));
}

/// Appends the closing tag of `tag_name`.
pub fn xml_end_tag(output: &mut String, tag_name: &str)
    ensures
        final(output)@ == old(output)@ + end_tag_text(tag_name@),
{
    push_char(output, '<');
    push_char(output, '/');
    output.append(tag_name);
    push_char(output, '>');
    assert(output@ =~= old(output)@ + end_tag_text(tag_name@));
}

} // verus!
