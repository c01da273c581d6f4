//! Properties that relate serialization and validation, proved over the
//! models of both.

use crate::event::{end_tag_text, start_tag_text, EventView};
use crate::tree::{
    content_events, document_events, element_events, element_name, item_name, items_events,
    members_events, TreeValue,
};
use crate::validate::{run, validation, RejectionView};
use vstd::prelude::*;

verus! {

/// The flat text of one event: its tag, or its character data.
pub open spec fn event_text(e: EventView) -> Seq<char> {
    match e {
        EventView::StartElement(name, attrs) => start_tag_text(name, attrs),
        EventView::EndElement(name) => end_tag_text(name),
        EventView::Characters(text) => text,
        _ => Seq::empty(),
    }
}

/// The flat text of a sequence of events, without indentation.
pub open spec fn flat_text(events: Seq<EventView>) -> Seq<char>
    decreases events.len(),
{
    if events.len() == 0 {
        Seq::empty()
    } else {
        event_text(events[0]) + flat_text(events.drop_first())
    }
}

/// The open-element stack after `events`, starting from `stack`, when every
/// event keeps the nesting rules: element names hold no space, each end tag
/// closes the innermost open element, and neither the end of the stream nor
/// an error occurs. `None` when a rule is broken.
pub open spec fn nesting(stack: Seq<Seq<char>>, events: Seq<EventView>) -> Option<Seq<Seq<char>>>
    decreases events.len(),
{
    if events.len() == 0 {
        Some(stack)
    } else {
        let rest = events.drop_first();
        match events[0] {
            EventView::StartElement(name, _) => if name.contains(' ') {
                None
            } else {
                nesting(stack.push(name), rest)
            },
            EventView::EndElement(name) => if stack.len() > 0 && stack.last() == name {
                nesting(stack.drop_last(), rest)
            } else {
                None
            },
            EventView::Characters(_) => nesting(stack, rest),
            EventView::Other => nesting(stack, rest),
            _ => None,
        }
    }
}

/// A well-formed document body: it keeps the nesting rules and closes every
/// element that it opens.
pub open spec fn well_formed(events: Seq<EventView>) -> bool {
    nesting(Seq::empty(), events) == Some(Seq::<Seq<char>>::empty())
}

/// Validation walks through events that keep the nesting rules without a
/// rejection, appending their flat text.
proof fn lemma_run_prefix(
    stack: Seq<Seq<char>>,
    out: Seq<char>,
    body: Seq<EventView>,
    rest: Seq<EventView>,
)
    requires
        nesting(stack, body) is Some,
    ensures
        run(stack, out, body + rest) == run(nesting(stack, body)->0, out + flat_text(body), rest),
    decreases body.len(),
{
    let all = body + rest;
    if body.len() == 0 {
        assert(all =~= rest);
        assert(out + flat_text(body) =~= out);
    } else {
        let tail = body.drop_first();
        assert(all[0] == body[0]);
        assert(all.drop_first() =~= tail + rest);
        match body[0] {
            EventView::StartElement(name, attrs) => {
                let out2 = out + start_tag_text(name, attrs);
                lemma_run_prefix(stack.push(name), out2, tail, rest);
                assert(out2 + flat_text(tail) =~= out + flat_text(body));
            },
            EventView::EndElement(name) => {
                let out2 = out + end_tag_text(name);
                lemma_run_prefix(stack.drop_last(), out2, tail, rest);
                assert(out2 + flat_text(tail) =~= out + flat_text(body));
            },
            EventView::Characters(text) => {
                lemma_run_prefix(stack, out + text, tail, rest);
                assert(out + text + flat_text(tail) =~= out + flat_text(body));
            },
            EventView::Other => {
                lemma_run_prefix(stack, out, tail, rest);
                assert(out + flat_text(tail) =~= out + flat_text(body));
            },
            _ => {},
        }
    }
}

/// Nesting through two sequences in turn.
proof fn lemma_nesting_concat(stack: Seq<Seq<char>>, a: Seq<EventView>, b: Seq<EventView>)
    ensures
        nesting(stack, a + b) == match nesting(stack, a) {
            Some(s) => nesting(s, b),
            None => None,
        },
    decreases a.len(),
{
    if a.len() == 0 {
        assert(a + b =~= b);
    } else {
        assert((a + b)[0] == a[0]);
        assert((a + b).drop_first() =~= a.drop_first() + b);
        match a[0] {
            EventView::StartElement(name, _) => lemma_nesting_concat(stack.push(name), a.drop_first(), b),
            EventView::EndElement(_) => lemma_nesting_concat(stack.drop_last(), a.drop_first(), b),
            _ => lemma_nesting_concat(stack, a.drop_first(), b),
        }
    }
}

proof fn lemma_element_nesting(stack: Seq<Seq<char>>, name: Seq<char>, content: Seq<EventView>)
    requires
        !name.contains(' '),
        nesting(stack.push(name), content) == Some(stack.push(name)),
    ensures
        nesting(stack, element_events(name, content)) == Some(stack),
{
    let start = seq![EventView::StartElement(name, Seq::empty())];
    let end = seq![EventView::EndElement(name)];
    assert(start.drop_first() =~= Seq::<EventView>::empty());
    assert(end.drop_first() =~= Seq::<EventView>::empty());
    assert(start[0] == EventView::StartElement(name, Seq::empty()));
    assert(nesting(stack.push(name), Seq::<EventView>::empty()) == Some(stack.push(name)));
    assert(nesting(stack, start) == Some(stack.push(name)));
    assert(stack.push(name).drop_last() =~= stack);
    assert(end[0] == EventView::EndElement(name));
    assert(nesting(stack, Seq::<EventView>::empty()) == Some(stack));
    assert(nesting(stack.push(name), end) == Some(stack));
    lemma_nesting_concat(stack, start, content);
    lemma_nesting_concat(stack, start + content, end);
}

proof fn lemma_item_name_has_no_space()
    ensures
        !item_name().contains(' '),
{
    assert(forall|i: int| 0 <= i < item_name().len() ==> item_name()[i] != ' ');
}

proof fn lemma_element_name_has_no_space(key: Seq<char>)
    ensures
        !element_name(key).contains(' '),
{
    assert(forall|i: int| 0 <= i < element_name(key).len() ==> element_name(key)[i] != ' ');
}

pub(crate) proof fn lemma_content_nesting(stack: Seq<Seq<char>>, v: TreeValue)
    ensures
        nesting(stack, content_events(v)) == Some(stack),
    decreases v,
{
    match v {
        TreeValue::Array(items) => {
            assert(content_events(v) == items_events(items@));
            lemma_items_nesting(stack, items@);
        },
        TreeValue::Object(members) => {
            assert(content_events(v) == members_events(members@));
            lemma_members_nesting(stack, members@);
        },
        _ => {
            assert(content_events(v).drop_first() =~= Seq::<EventView>::empty());
            assert(content_events(v)[0] is Characters);
            assert(nesting(stack, Seq::<EventView>::empty()) == Some(stack));
        },
    }
}

proof fn lemma_items_nesting(stack: Seq<Seq<char>>, items: Seq<TreeValue>)
    ensures
        nesting(stack, items_events(items)) == Some(stack),
    decreases items,
{
    if items.len() > 0 {
        lemma_items_nesting(stack, items.drop_last());
        lemma_content_nesting(stack.push(item_name()), items.last());
        lemma_item_name_has_no_space();
        lemma_element_nesting(stack, item_name(), content_events(items.last()));
        lemma_nesting_concat(
            stack,
            items_events(items.drop_last()),
            element_events(item_name(), content_events(items.last())),
        );
    }
}

proof fn lemma_members_nesting(stack: Seq<Seq<char>>, members: Seq<(String, TreeValue)>)
    ensures
        nesting(stack, members_events(members)) == Some(stack),
    decreases members,
{
    if members.len() > 0 {
        let name = element_name(members.last().0@);
        lemma_members_nesting(stack, members.drop_last());
        lemma_content_nesting(stack.push(name), members.last().1);
        lemma_element_name_has_no_space(members.last().0@);
        lemma_element_nesting(stack, name, content_events(members.last().1));
        lemma_nesting_concat(
            stack,
            members_events(members.drop_last()),
            element_events(name, content_events(members.last().1)),
        );
    }
}

/// A well-formed body is accepted, with or without an end-of-stream event
/// after it, and reconstructs to exactly its tags and character data in order.
pub proof fn lemma_well_formed_reconstructed(body: Seq<EventView>)
    requires
        well_formed(body),
    ensures
        validation(body.push(EventView::EndOfStream)) == Ok::<Seq<char>, RejectionView>(
            flat_text(body),
        ),
        validation(body) == Ok::<Seq<char>, RejectionView>(flat_text(body)),
{
    let eos = seq![EventView::EndOfStream];
    lemma_run_prefix(Seq::empty(), Seq::empty(), body, eos);
    assert(body + eos =~= body.push(EventView::EndOfStream));
    assert(Seq::<char>::empty() + flat_text(body) =~= flat_text(body));
    lemma_run_prefix(Seq::empty(), Seq::empty(), body, Seq::empty());
    assert(body + Seq::<EventView>::empty() =~= body);
}

/// Every serialized document is well formed when its root name holds no
/// space: validating its events, then the end of the stream, accepts it and
/// reconstructs its flat text.
pub proof fn lemma_serialized_document_accepted(value: TreeValue, root_name: Seq<char>)
    requires
        !root_name.contains(' '),
    ensures
        well_formed(document_events(root_name, value)),
        validation(document_events(root_name, value).push(EventView::EndOfStream)) == Ok::<
            Seq<char>,
            RejectionView,
        >(flat_text(document_events(root_name, value))),
{
    let empty = Seq::<Seq<char>>::empty();
    lemma_content_nesting(empty.push(root_name), value);
    lemma_element_nesting(empty, root_name, content_events(value));
    lemma_well_formed_reconstructed(document_events(root_name, value));
}

/// Object keys become element names with each space replaced by an
/// underscore, so a serialized document never fails validation for an element
/// name, whatever spaces its keys hold (its root name holding none).
pub proof fn lemma_serialized_names_valid(key: Seq<char>, value: TreeValue, root_name: Seq<char>)
    requires
        !root_name.contains(' '),
    ensures
        element_name(key).len() == key.len(),
        forall|i: int|
            0 <= i < key.len() ==> #[trigger] element_name(key)[i] == if key[i] == ' ' {
                '_'
            } else {
                key[i]
            },
        !element_name(key).contains(' '),
        !(validation(document_events(root_name, value).push(EventView::EndOfStream)) matches Err(
            RejectionView::InvalidElementName(_),
        )),
{
    lemma_element_name_has_no_space(key);
    lemma_serialized_document_accepted(value, root_name);
}

/// After events that keep the nesting rules, a start tag whose name holds a
/// space is rejected with that name.
pub proof fn lemma_rejects_spaced_name(
    before: Seq<EventView>,
    name: Seq<char>,
    attrs: Seq<(Seq<char>, Seq<char>)>,
    after: Seq<EventView>,
)
    requires
        nesting(Seq::empty(), before) is Some,
        name.contains(' '),
    ensures
        validation(before + seq![EventView::StartElement(name, attrs)] + after) == Err::<
            Seq<char>,
            RejectionView,
        >(RejectionView::InvalidElementName(name)),
{
    let rest = seq![EventView::StartElement(name, attrs)] + after;
    lemma_run_prefix(Seq::empty(), Seq::empty(), before, rest);
    assert(before + seq![EventView::StartElement(name, attrs)] + after =~= before + rest);
    assert(rest[0] == EventView::StartElement(name, attrs));
}

/// After events that keep the nesting rules, a start tag `x` followed at once
/// by an end tag `y` of another name is rejected with the pair `(x, y)`.
pub proof fn lemma_rejects_mismatched_close(
    before: Seq<EventView>,
    x: Seq<char>,
    attrs: Seq<(Seq<char>, Seq<char>)>,
    y: Seq<char>,
    after: Seq<EventView>,
)
    requires
        nesting(Seq::empty(), before) is Some,
        !x.contains(' '),
        x != y,
    ensures
        validation(
            before + seq![EventView::StartElement(x, attrs), EventView::EndElement(y)] + after,
        ) == Err::<Seq<char>, RejectionView>(RejectionView::MismatchedClosingTag(Some(x), y)),
{
    let pair = seq![EventView::StartElement(x, attrs), EventView::EndElement(y)];
    let rest = pair + after;
    let st = nesting(Seq::empty(), before)->0;
    lemma_run_prefix(Seq::empty(), Seq::empty(), before, rest);
    assert(before + pair + after =~= before + rest);
    assert(rest[0] == EventView::StartElement(x, attrs));
    let out = flat_text(before);
    let tail = rest.drop_first();
    assert(tail[0] == EventView::EndElement(y));
    assert(st.push(x).last() == x);
    assert(run(st.push(x), out + start_tag_text(x, attrs), tail) == Err::<Seq<char>, RejectionView>(
        RejectionView::MismatchedClosingTag(Some(x), y),
    ));
    assert(Seq::<char>::empty() + out =~= out);
}

/// Events that keep the nesting rules but leave elements open are rejected,
/// at the end of the stream or when the events run out, with the open
/// elements, outermost first.
pub proof fn lemma_rejects_unclosed(body: Seq<EventView>)
    requires
        nesting(Seq::empty(), body) matches Some(open) && open.len() > 0,
    ensures
        validation(body.push(EventView::EndOfStream)) == Err::<Seq<char>, RejectionView>(
            RejectionView::UnclosedElements(nesting(Seq::empty(), body)->0),
        ),
        validation(body) == Err::<Seq<char>, RejectionView>(
            RejectionView::UnclosedElements(nesting(Seq::empty(), body)->0),
        ),
{
    let eos = seq![EventView::EndOfStream];
    lemma_run_prefix(Seq::empty(), Seq::empty(), body, eos);
    assert(body + eos =~= body.push(EventView::EndOfStream));
    lemma_run_prefix(Seq::empty(), Seq::empty(), body, Seq::empty());
    assert(body + Seq::<EventView>::empty() =~= body);
}

} // verus!
