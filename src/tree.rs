//! Tree values and the markup events that serialize them.

use crate::event::{attr_views, push_char, views, EventView, MarkupEvent};
use vstd::prelude::*;
use vstd::string::*;

verus! {

/// A generic structured value.
#[derive(Debug, PartialEq, Eq)]
pub enum TreeValue {
    Null,
    Bool(bool),
    /// A number, held as its canonical decimal text.
    Number(String),
    String(String),
    Array(Vec<TreeValue>),
    /// Key/value pairs in insertion order; keys are unique.
    Object(Vec<(String, TreeValue)>),
}

pub open spec fn is_digit(c: char) -> bool {
    '0' <= c <= '9'
}

/// The end of the run of decimal digits that starts at `i`.
pub open spec fn digits_end(s: Seq<char>, i: int) -> int
    decreases s.len() - i,
{
    if 0 <= i < s.len() && is_digit(s[i]) {
        digits_end(s, i + 1)
    } else {
        i
    }
}

/// A number's decimal text: an optional minus sign, an integer part without
/// leading zeros, an optional fraction of one or more digits, and an optional
/// exponent (`e` or `E`, an optional sign, one or more digits).
pub open spec fn number_text(s: Seq<char>) -> bool {
    let a: int = if s.len() > 0 && s[0] == '-' { 1 } else { 0 };
    let b = digits_end(s, a);
    let c = if b < s.len() && s[b] == '.' { digits_end(s, b + 1) } else { b };
    let has_exp = c < s.len() && (s[c] == 'e' || s[c] == 'E');
    let m = if !has_exp {
        c
    } else if c + 1 < s.len() && (s[c + 1] == '+' || s[c + 1] == '-') {
        c + 2
    } else {
        c + 1
    };
    let d = if has_exp { digits_end(s, m) } else { c };
    &&& b > a
    &&& (s[a] != '0' || b == a + 1)
    &&& c != b + 1
    &&& (!has_exp || d > m)
    &&& d == s.len()
}

/// A valid tree value: each number holds a number's decimal text.
pub open spec fn valid_tree(v: TreeValue) -> bool
    decreases v,
{
    match v {
        TreeValue::Number(n) => number_text(n@),
        TreeValue::Array(items) => valid_items(items@),
        TreeValue::Object(members) => valid_members(members@),
        _ => true,
    }
}

pub open spec fn valid_items(items: Seq<TreeValue>) -> bool
    decreases items,
{
    items.len() == 0 || (valid_items(items.drop_last()) && valid_tree(items.last()))
}

pub open spec fn valid_members(members: Seq<(String, TreeValue)>) -> bool
    decreases members,
{
    members.len() == 0 || (valid_members(members.drop_last()) && valid_tree(members.last().1))
}

/// The element name of an object key: each space becomes an underscore.
pub open spec fn element_name(key: Seq<char>) -> Seq<char> {
    key.map_values(|c: char| if c == ' ' { '_' } else { c })
}

/// The name of the element that wraps each array item.
pub open spec fn item_name() -> Seq<char> {
    seq!['i', 't', 'e', 'm']
}

/// The character data of a scalar value.
pub open spec fn scalar_text(v: TreeValue) -> Seq<char> {
    match v {
        TreeValue::Null => seq!['n', 'u', 'l', 'l'],
        TreeValue::Bool(b) => if b {
            seq!['t', 'r', 'u', 'e']
        } else {
            seq!['f', 'a', 'l', 's', 'e']
        },
        TreeValue::Number(n) => n@,
        TreeValue::String(s) => s@,
        _ => Seq::empty(),
    }
}

/// An element named `name` whose content is `content`.
pub open spec fn element_events(name: Seq<char>, content: Seq<EventView>) -> Seq<EventView> {
    seq![EventView::StartElement(name, Seq::empty())] + content + seq![EventView::EndElement(name)]
}

/// The events of a value's content: character data for a scalar, one `item`
/// element per array item, one element per object member.
pub open spec fn content_events(v: TreeValue) -> Seq<EventView>
    decreases v,
{
    match v {
        TreeValue::Array(items) => items_events(items@),
        TreeValue::Object(members) => members_events(members@),
        _ => seq![EventView::Characters(scalar_text(v))],
    }
}

pub open spec fn items_events(items: Seq<TreeValue>) -> Seq<EventView>
    decreases items,
{
    if items.len() == 0 {
        Seq::empty()
    } else {
        items_events(items.drop_last()) + element_events(item_name(), content_events(items.last()))
    }
}

pub open spec fn members_events(members: Seq<(String, TreeValue)>) -> Seq<EventView>
    decreases members,
{
    if members.len() == 0 {
        Seq::empty()
    } else {
        members_events(members.drop_last()) + element_events(
            element_name(members.last().0@),
            content_events(members.last().1),
        )
    }
}

/// The events of a whole document: the root element around the value's content.
pub open spec fn document_events(root_name: Seq<char>, v: TreeValue) -> Seq<EventView> {
    element_events(root_name, content_events(v))
}

fn digits_end_at(s: &str, n: usize, i: usize) -> (r: usize)
    requires
        n == s@.len(),
        i <= n,
    ensures
        r == digits_end(s@, i as int),
        i <= r <= n,
{
    let mut j: usize = i;
    while j < n
        invariant
            n == s@.len(),
            i <= j <= n,
            digits_end(s@, i as int) == digits_end(s@, j as int),
        decreases n - j,
    {
        let c = s.get_char(j);
        if !('0' <= c && c <= '9') {
            return j;
        }
        j += 1;
    }
    j
}

/// Whether `s` is a number's decimal text.
pub fn is_number_text(s: &str) -> (r: bool)
    ensures
        r == number_text(s@),
{
    let n = s.unicode_len();
    let a: usize = if n > 0 && s.get_char(0) == '-' {
        1
    } else {
        0
    };
    let b = digits_end_at(s, n, a);
    if !(b > a && (s.get_char(a) != '0' || b == a + 1)) {
        return false;
    }
    let c = if b < n && s.get_char(b) == '.' {
        digits_end_at(s, n, b + 1)
    } else {
        b
    };
    if c - b == 1 {
        return false;
    }
    let has_exp = c < n && (s.get_char(c) == 'e' || s.get_char(c) == 'E');
    let m = if !has_exp {
        c
    } else if c + 1 < n && (s.get_char(c + 1) == '+' || s.get_char(c + 1) == '-') {
        c + 2
    } else {
        c + 1
    };
    let d = if has_exp {
        digits_end_at(s, n, m)
    } else {
        c
    };
    (!has_exp || d > m) && d == n
}

proof fn lemma_valid_items_index(items: Seq<TreeValue>, i: int)
    requires
        valid_items(items),
        0 <= i < items.len(),
    ensures
        valid_tree(items[i]),
    decreases items.len(),
{
    if i < items.len() - 1 {
        lemma_valid_items_index(items.drop_last(), i);
    }
}

proof fn lemma_valid_members_index(members: Seq<(String, TreeValue)>, i: int)
    requires
        valid_members(members),
        0 <= i < members.len(),
    ensures
        valid_tree(members[i].1),
    decreases members.len(),
{
    if i < members.len() - 1 {
        lemma_valid_members_index(members.drop_last(), i);
    }
}

fn items_are_valid(items: &Vec<TreeValue>) -> (r: bool)
    ensures
        r == valid_items(items@),
    decreases items,
{
    let mut i: usize = 0;
    while i < items.len()
        invariant
            i <= items@.len(),
            valid_items(items@.subrange(0, i as int)),
        decreases items@.len() - i,
    {
        let ok = items[i].is_valid();
        proof {
            let sub = items@.subrange(0, i + 1);
            assert(sub.drop_last() =~= items@.subrange(0, i as int));
            assert(sub.last() == items@[i as int]);
        }
        if !ok {
            proof {
                if valid_items(items@) {
                    lemma_valid_items_index(items@, i as int);
                }
            }
            return false;
        }
        i += 1;
    }
    assert(items@.subrange(0, items@.len() as int) =~= items@);
    true
}

fn members_are_valid(members: &Vec<(String, TreeValue)>) -> (r: bool)
    ensures
        r == valid_members(members@),
    decreases members,
{
    let mut i: usize = 0;
    while i < members.len()
        invariant
            i <= members@.len(),
            valid_members(members@.subrange(0, i as int)),
        decreases members@.len() - i,
    {
        let ok = members[i].1.is_valid();
        proof {
            let sub = members@.subrange(0, i + 1);
            assert(sub.drop_last() =~= members@.subrange(0, i as int));
            assert(sub.last() == members@[i as int]);
        }
        if !ok {
            proof {
                if valid_members(members@) {
                    lemma_valid_members_index(members@, i as int);
                }
            }
            return false;
        }
        i += 1;
    }
    assert(members@.subrange(0, members@.len() as int) =~= members@);
    true
}

impl TreeValue {
    /// Whether each number of the value holds a number's decimal text.
    pub fn is_valid(&self) -> (r: bool)
        ensures
            r == valid_tree(*self),
        decreases self,
    {
        match self {
            TreeValue::Number(n) => is_number_text(n.as_str()),
            TreeValue::Array(items) => items_are_valid(items),
            TreeValue::Object(members) => members_are_valid(members),
            _ => true,
        }
    }
}

/// The element name for an object key: each space replaced by an underscore.
pub fn key_to_element_name(key: &str) -> (r: String)
    ensures
        r@ == element_name(key@),
{
    let n = key.unicode_len();
    let mut r = String::new();
    let mut i: usize = 0;
    while i < n
        invariant
            n == key@.len(),
            i <= n,
            r@ == element_name(key@.subrange(0, i as int)),
        decreases n - i,
    {
        let c = key.get_char(i);
        if c == ' ' {
            push_char(&mut r, '_');
        } else {
            push_char(&mut r, c);
        }
        assert(element_name(key@.subrange(0, i + 1)) =~= r@);
        i += 1;
    }
    assert(key@.subrange(0, n as int) =~= key@);
    r
}

fn push_event(out: &mut Vec<MarkupEvent>, e: MarkupEvent)
    ensures
        views(final(out)@) == views(old(out)@).push(e@),
{
    out.push(e);
    assert(views(out@) =~= views(old(out)@).push(e@));
}

fn push_start(out: &mut Vec<MarkupEvent>, name: String)
    ensures
        views(final(out)@) == views(old(out)@).push(EventView::StartElement(name@, Seq::empty())),
{
    let attrs = Vec::new();
    assert(attr_views(attrs@) =~= Seq::empty());
    push_event(out, MarkupEvent::StartElement(name, attrs));
}

/// Character data for a scalar value.
fn xml_standard_type_handling(json: &TreeValue, out: &mut Vec<MarkupEvent>)
    requires
        valid_tree(*json),
        !(json is Array),
        !(json is Object),
    ensures
        views(final(out)@) == views(old(out)@) + content_events(*json),
{
    let text = match json {
        TreeValue::Null => String::from_str("null"),
        TreeValue::Bool(b) => if *b {
            String::from_str("true")
        } else {
            String::from_str("false")
        },
        TreeValue::Number(n) => n.clone(),
        TreeValue::String(s) => s.clone(),
        _ => String::new(),
    };
    proof {
        reveal_strlit("null");
        reveal_strlit("true");
        reveal_strlit("false");
    }
    assert(text@ =~= scalar_text(*json));
    push_event(out, MarkupEvent::Characters(text));
    assert(views(out@) =~= views(old(out)@) + content_events(*json));
}

/// One `item` element per array item, in order.
fn xml_array_handling(arr: &Vec<TreeValue>, out: &mut Vec<MarkupEvent>)
    requires
        valid_items(arr@),
    ensures
        views(final(out)@) == views(old(out)@) + items_events(arr@),
    decreases arr,
{
    let mut i: usize = 0;
    assert(items_events(arr@.subrange(0, 0)) =~= Seq::empty());
    assert(views(out@) =~= views(old(out)@) + Seq::empty());
    while i < arr.len()
        invariant
            i <= arr@.len(),
            valid_items(arr@),
            views(out@) == views(old(out)@) + items_events(arr@.subrange(0, i as int)),
        decreases arr@.len() - i,
    {
        let ghost before = views(out@);
        let name = String::from_str("item");
        proof {
            reveal_strlit("item");
        }
        assert(name@ =~= item_name());
        push_start(out, name.clone());
        proof {
            lemma_valid_items_index(arr@, i as int);
        }
        let ghost mid = views(out@);
        json_to_xml(&arr[i], out);
        let ghost mid2 = views(out@);
        push_event(out, MarkupEvent::EndElement(name));
        proof {
            let sub = arr@.subrange(0, i + 1);
            assert(sub.drop_last() =~= arr@.subrange(0, i as int));
            assert(sub.last() == arr@[i as int]);
            assert(views(out@) =~= views(old(out)@) + items_events(sub));
        }
        i += 1;
    }
    assert(arr@.subrange(0, arr@.len() as int) =~= arr@);
}

/// One element per object member, named after its key, in insertion order.
fn handle_json_object(map: &Vec<(String, TreeValue)>, out: &mut Vec<MarkupEvent>)
    requires
        valid_members(map@),
    ensures
        views(final(out)@) == views(old(out)@) + members_events(map@),
    decreases map,
{
    let mut i: usize = 0;
    assert(members_events(map@.subrange(0, 0)) =~= Seq::empty());
    assert(views(out@) =~= views(old(out)@) + Seq::empty());
    while i < map.len()
        invariant
            i <= map@.len(),
            valid_members(map@),
            views(out@) == views(old(out)@) + members_events(map@.subrange(0, i as int)),
        decreases map@.len() - i,
    {
        let member = &map[i];
        let name = key_to_element_name(member.0.as_str());
        proof {
            lemma_valid_members_index(map@, i as int);
        }
        push_start(out, name.clone());
        json_to_xml(&member.1, out);
        push_event(out, MarkupEvent::EndElement(name));
        proof {
            let sub = map@.subrange(0, i + 1);
            assert(sub.drop_last() =~= map@.subrange(0, i as int));
            assert(sub.last() == map@[i as int]);
            assert(views(out@) =~= views(old(out)@) + members_events(sub));
        }
        i += 1;
    }
    assert(map@.subrange(0, map@.len() as int) =~= map@);
}

/// Appends the events of a value's content.
fn json_to_xml(json: &TreeValue, out: &mut Vec<MarkupEvent>)
    requires
        valid_tree(*json),
    ensures
        views(final(out)@) == views(old(out)@) + content_events(*json),
    decreases json,
{
    match json {
        TreeValue::Array(items) => xml_array_handling(items, out),
        TreeValue::Object(map) => handle_json_object(map, out),
        _ => xml_standard_type_handling(json, out),
    }
}

/// The events that serialize `value` under a root element named `root_name`.
pub fn serialize_events(value: &TreeValue, root_name: &str) -> (r: Vec<MarkupEvent>)
    requires
        valid_tree(*value),
    ensures
        views(r@) == document_events(root_name@, *value),
{
    let mut out: Vec<MarkupEvent> = Vec::new();
    assert(views(out@) =~= Seq::empty());
    push_start(&mut out, String::from_str(root_name));
    json_to_xml(value, &mut out);
    push_event(&mut out, MarkupEvent::EndElement(String::from_str(root_name)));
    assert(views(out@) =~= document_events(root_name@, *value));
    out
}

proof fn lemma_digits_end(s: Seq<char>, i: int)
    requires
        0 <= i,
    ensures
        i <= digits_end(s, i),
        forall|k: int| i <= k < digits_end(s, i) ==> is_digit(#[trigger] s[k]),
    decreases s.len() - i,
{
    if 0 <= i < s.len() && is_digit(s[i]) {
        lemma_digits_end(s, i + 1);
    }
}

/// The text of a scalar of a valid value other than a string is made of
/// digits, signs, a decimal point, exponent marks and the letters of `true`,
/// `false` and `null`: it holds no quote, bracket or brace.
pub proof fn lemma_scalar_text_plain(v: TreeValue)
    requires
        valid_tree(v),
        !(v is String),
        !(v is Array),
        !(v is Object),
    ensures
        forall|k: int|
            0 <= k < scalar_text(v).len() ==> {
                let c = #[trigger] scalar_text(v)[k];
                c != '"' && c != '[' && c != ']' && c != '{' && c != '}' && c != '<'
            },
{
    if let TreeValue::Number(n) = v {
        let s = n@;
        let a: int = if s.len() > 0 && s[0] == '-' { 1 } else { 0 };
        let b = digits_end(s, a);
        lemma_digits_end(s, a);
        if b < s.len() && s[b] == '.' {
            lemma_digits_end(s, b + 1);
        }
        let c = if b < s.len() && s[b] == '.' { digits_end(s, b + 1) } else { b };
        let has_exp = c < s.len() && (s[c] == 'e' || s[c] == 'E');
        let m = if !has_exp {
            c
        } else if c + 1 < s.len() && (s[c + 1] == '+' || s[c + 1] == '-') {
            c + 2
        } else {
            c + 1
        };
        if has_exp {
            lemma_digits_end(s, m);
        }
        assert forall|k: int| 0 <= k < s.len() implies {
            let ch = #[trigger] s[k];
            ch != '"' && ch != '[' && ch != ']' && ch != '{' && ch != '}' && ch != '<'
        } by {
            if k < a {
            } else if k < b {
                assert(is_digit(s[k]));
            } else if k < c {
                if k > b {
                    assert(is_digit(s[k]));
                }
            } else if k < m {
            } else {
                assert(is_digit(s[k]));
            }
        }
    }
}

} // verus!
