use jsonxml::{
    check_xml_parse, validate_and_reconstruct, xml_end_tag, xml_start_tag, Attribute, MarkupEvent,
    ValidationError,
};

fn start(name: &str) -> MarkupEvent {
    MarkupEvent::StartElement(name.to_string(), Vec::new())
}

fn end(name: &str) -> MarkupEvent {
    MarkupEvent::EndElement(name.to_string())
}

fn chars(text: &str) -> MarkupEvent {
    MarkupEvent::Characters(text.to_string())
}

#[test]
fn nested_elements_reconstruct_flat() {
    let events = vec![
        start("p"),
        start("q"),
        chars("v"),
        end("q"),
        end("p"),
        MarkupEvent::EndOfStream,
    ];
    assert_eq!(validate_and_reconstruct(&events), Ok("<p><q>v</q></p>".to_string()));
}

#[test]
fn wrong_closing_tag_is_mismatched() {
    let events = vec![start("p"), end("q"), MarkupEvent::EndOfStream];
    assert_eq!(
        validate_and_reconstruct(&events),
        Err(ValidationError::MismatchedClosingTag(Some("p".to_string()), "q".to_string()))
    );
}

#[test]
fn start_then_other_end_is_mismatched() {
    let events = vec![start("x"), end("y")];
    assert_eq!(
        validate_and_reconstruct(&events),
        Err(ValidationError::MismatchedClosingTag(Some("x".to_string()), "y".to_string()))
    );
}

#[test]
fn closing_with_nothing_open_is_mismatched() {
    let events = vec![chars("t"), end("x"), MarkupEvent::EndOfStream];
    assert_eq!(
        validate_and_reconstruct(&events),
        Err(ValidationError::MismatchedClosingTag(None, "x".to_string()))
    );
}

#[test]
fn spaced_name_is_invalid() {
    let events = vec![start("r"), start("a b"), end("a b"), end("r"), MarkupEvent::EndOfStream];
    assert_eq!(
        validate_and_reconstruct(&events),
        Err(ValidationError::InvalidElementName("a b".to_string()))
    );
}

#[test]
fn open_elements_at_end_are_unclosed() {
    let events = vec![start("a"), start("b"), chars("x"), MarkupEvent::EndOfStream];
    assert_eq!(
        validate_and_reconstruct(&events),
        Err(ValidationError::UnclosedElements(vec!["a".to_string(), "b".to_string()]))
    );
}

#[test]
fn running_out_of_events_ends_the_stream() {
    assert_eq!(
        validate_and_reconstruct(&vec![start("a")]),
        Err(ValidationError::UnclosedElements(vec!["a".to_string()]))
    );
    assert_eq!(validate_and_reconstruct(&vec![start("a"), end("a")]), Ok("<a></a>".to_string()));
    assert_eq!(validate_and_reconstruct(&Vec::new()), Ok(String::new()));
}

#[test]
fn upstream_error_is_forwarded() {
    let events = vec![start("a"), MarkupEvent::Error("bad token".to_string()), end("a")];
    assert_eq!(
        validate_and_reconstruct(&events),
        Err(ValidationError::UpstreamParseError("bad token".to_string()))
    );
}

#[test]
fn first_rejection_wins() {
    let events = vec![start("a"), end("b"), start("c d"), MarkupEvent::Error("e".to_string())];
    assert_eq!(
        validate_and_reconstruct(&events),
        Err(ValidationError::MismatchedClosingTag(Some("a".to_string()), "b".to_string()))
    );
}

#[test]
fn events_after_end_of_stream_are_not_read() {
    let events = vec![start("a"), end("a"), MarkupEvent::EndOfStream, end("zz")];
    assert_eq!(validate_and_reconstruct(&events), Ok("<a></a>".to_string()));
}

#[test]
fn other_events_are_ignored_and_text_is_verbatim() {
    let events = vec![
        MarkupEvent::Other,
        start("a"),
        MarkupEvent::Other,
        chars("1 < 2 & x"),
        end("a"),
        MarkupEvent::EndOfStream,
    ];
    assert_eq!(validate_and_reconstruct(&events), Ok("<a>1 < 2 & x</a>".to_string()));
}

#[test]
fn attributes_are_rendered_in_order() {
    let attrs = vec![
        Attribute { name: "k".to_string(), value: "v".to_string() },
        Attribute { name: "z".to_string(), value: "w w".to_string() },
    ];
    let events = vec![
        MarkupEvent::StartElement("a".to_string(), attrs),
        end("a"),
        MarkupEvent::EndOfStream,
    ];
    assert_eq!(validate_and_reconstruct(&events), Ok("<a k=\"v\" z=\"w w\"></a>".to_string()));
}

#[test]
fn start_and_end_tags_append() {
    let mut out = "x".to_string();
    xml_start_tag(&mut out, "tag", &[Attribute { name: "id".to_string(), value: "7".to_string() }]);
    assert_eq!(out, "x<tag id=\"7\">");
    xml_start_tag(&mut out, "e", &[]);
    assert_eq!(out, "x<tag id=\"7\"><e>");
    xml_end_tag(&mut out, "tag");
    assert_eq!(out, "x<tag id=\"7\"><e></tag>");
}

#[test]
fn test_read_simple_text() {
    let text = "<?xml version=\"1.0\"?>\n<store>\n  <a>1</a>\n  <b>x</b>\n</store>\n";
    assert_eq!(check_xml_parse(text), Ok("<store><a>1</a><b>x</b></store>".to_string()));
}

#[test]
fn read_test_read_simple() {
    let text = "<store><name>Shop</name><open>true</open></store>";
    assert!(check_xml_parse(text).is_ok());
}

#[test]
fn read_test_read_nested() {
    let text = "<store>\n  <owner>\n    <name>Ann</name>\n    <age>40</age>\n  </owner>\n</store>\n";
    assert_eq!(
        check_xml_parse(text),
        Ok("<store><owner><name>Ann</name><age>40</age></owner></store>".to_string())
    );
}

#[test]
fn read_test_read_mixed_data() {
    let text = "<store><items><item>1</item><item>two</item><item>null</item></items>\
                <flag kind=\"b\">false</flag></store>";
    assert_eq!(
        check_xml_parse(text),
        Ok("<store><items><item>1</item><item>two</item><item>null</item></items>\
            <flag kind=\"b\">false</flag></store>"
            .to_string())
    );
}

#[test]
fn test_read_broken_naming() {
    let text = "<store><first name>x</first name></store>";
    assert!(check_xml_parse(text).is_err());
}

#[test]
fn test_read_broken_tag() {
    let text = "<store><a>1</b></store>";
    assert!(check_xml_parse(text).is_err());
}

#[test]
fn truncated_text_is_rejected() {
    assert!(check_xml_parse("<store><a>1</a>").is_err());
}

#[test]
fn parsed_character_data_is_unescaped() {
    assert_eq!(check_xml_parse("<a>x &amp; y</a>"), Ok("<a>x & y</a>".to_string()));
}
