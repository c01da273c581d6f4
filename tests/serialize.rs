use jsonxml::{
    check_xml_parse, construct_file_path, convert_json_to_xml, is_number_text, key_to_element_name,
    serialize_events, validate_and_reconstruct, MarkupEvent, SerializeError, TreeValue,
    ValidationError,
};

fn start(name: &str) -> MarkupEvent {
    MarkupEvent::StartElement(name.to_string(), Vec::new())
}

fn end(name: &str) -> MarkupEvent {
    MarkupEvent::EndElement(name.to_string())
}

fn chars(text: &str) -> MarkupEvent {
    MarkupEvent::Characters(text.to_string())
}

fn member(key: &str, value: TreeValue) -> (String, TreeValue) {
    (key.to_string(), value)
}

fn sample() -> TreeValue {
    TreeValue::Object(vec![
        member("a", TreeValue::Number("1".to_string())),
        member("b", TreeValue::Array(vec![TreeValue::Bool(true), TreeValue::Null])),
    ])
}

#[test]
fn object_and_array_events() {
    let events = serialize_events(&sample(), "store");
    assert_eq!(
        events,
        vec![
            start("store"),
            start("a"),
            chars("1"),
            end("a"),
            start("b"),
            start("item"),
            chars("true"),
            end("item"),
            start("item"),
            chars("null"),
            end("item"),
            end("b"),
            end("store"),
        ]
    );
}

#[test]
fn spaced_key_becomes_underscored_element() {
    let value = TreeValue::Object(vec![member("x y", TreeValue::String("hi".to_string()))]);
    let events = serialize_events(&value, "root");
    assert_eq!(
        events,
        vec![start("root"), start("x_y"), chars("hi"), end("x_y"), end("root")]
    );
}

#[test]
fn scalars_render_as_text() {
    assert_eq!(
        serialize_events(&TreeValue::Bool(false), "r"),
        vec![start("r"), chars("false"), end("r")]
    );
    assert_eq!(
        serialize_events(&TreeValue::Number("-2.5e3".to_string()), "r"),
        vec![start("r"), chars("-2.5e3"), end("r")]
    );
    assert_eq!(serialize_events(&TreeValue::Null, "r"), vec![start("r"), chars("null"), end("r")]);
}

#[test]
fn empty_containers_have_no_children() {
    assert_eq!(serialize_events(&TreeValue::Array(Vec::new()), "r"), vec![start("r"), end("r")]);
    assert_eq!(serialize_events(&TreeValue::Object(Vec::new()), "r"), vec![start("r"), end("r")]);
}

#[test]
fn key_spaces_are_replaced() {
    assert_eq!(key_to_element_name("first last name"), "first_last_name");
    assert_eq!(key_to_element_name(" "), "_");
    assert_eq!(key_to_element_name("plain"), "plain");
    assert_eq!(key_to_element_name(""), "");
}

#[test]
fn serialized_events_validate() {
    let mut events = serialize_events(&sample(), "store");
    events.push(MarkupEvent::EndOfStream);
    assert_eq!(
        validate_and_reconstruct(&events),
        Ok("<store><a>1</a><b><item>true</item><item>null</item></b></store>".to_string())
    );
}

#[test]
fn spaced_keys_never_give_invalid_names() {
    let value = TreeValue::Object(vec![
        member("x y", TreeValue::String("hi".to_string())),
        member("a b c", TreeValue::Object(vec![member(" k ", TreeValue::Null)])),
    ]);
    let mut events = serialize_events(&value, "root");
    events.push(MarkupEvent::EndOfStream);
    let result = validate_and_reconstruct(&events);
    assert!(!matches!(result, Err(ValidationError::InvalidElementName(_))));
    assert_eq!(
        result,
        Ok("<root><x_y>hi</x_y><a_b_c><_k_>null</_k_></a_b_c></root>".to_string())
    );
}

#[test]
fn markup_text_holds_the_elements() {
    let xml = convert_json_to_xml(sample(), "store").unwrap();
    assert!(xml.starts_with("<?xml"));
    let a = xml.find("<a>1</a>").unwrap();
    let t = xml.find("<item>true</item>").unwrap();
    let n = xml.find("<item>null</item>").unwrap();
    assert!(xml.find("<store>").unwrap() < a);
    assert!(a < t && t < n);
    assert!(n < xml.find("</b>").unwrap());
    assert!(xml.trim_end().ends_with("</store>"));
}

#[test]
fn markup_text_is_indented() {
    let xml = convert_json_to_xml(sample(), "store").unwrap();
    assert!(xml.contains("\n  <a>1</a>"));
    assert!(xml.contains("\n    <item>true</item>"));
}

#[test]
fn markup_text_escapes_character_data() {
    let value = TreeValue::Object(vec![member("x y", TreeValue::String("a<b&c".to_string()))]);
    let xml = convert_json_to_xml(value, "root").unwrap();
    assert!(xml.contains("<x_y>a&lt;b&amp;c</x_y>"));
}

#[test]
fn markup_text_parses_back() {
    let xml = convert_json_to_xml(sample(), "store").unwrap();
    assert_eq!(
        check_xml_parse(&xml),
        Ok("<store><a>1</a><b><item>true</item><item>null</item></b></store>".to_string())
    );
}

#[test]
fn serialization_always_succeeds() {
    for value in [
        TreeValue::String("x".to_string()),
        TreeValue::Object(Vec::new()),
        TreeValue::Array(Vec::new()),
        TreeValue::Null,
    ] {
        let result = convert_json_to_xml(value, "store");
        assert!(result.is_ok());
        assert_ne!(result, Err(SerializeError::EmitError));
    }
    let spaced_root = convert_json_to_xml(TreeValue::Bool(true), "a b");
    assert!(spaced_root.is_ok());
}

#[test]
fn empty_object_gives_empty_root() {
    let xml = convert_json_to_xml(TreeValue::Object(Vec::new()), "store").unwrap();
    assert_eq!(check_xml_parse(&xml), Ok("<store></store>".to_string()));
}

#[test]
fn spaced_key_markup_text() {
    let value = TreeValue::Object(vec![member("x y", TreeValue::String("hi".to_string()))]);
    let xml = convert_json_to_xml(value, "store").unwrap();
    assert!(!xml.contains("<x y>"));
    assert_eq!(check_xml_parse(&xml), Ok("<store><x_y>hi</x_y></store>".to_string()));
}

#[test]
fn number_texts() {
    for ok in ["0", "-0", "7", "120", "-3.25", "1e10", "2.5E-3", "6e+2", "0.0"] {
        assert!(is_number_text(ok), "{}", ok);
    }
    for bad in ["", "-", "01", "1.", ".5", "1e", "1e+", "+1", "1.2.3", "\"1\"", "[1]", "1 ", "NaN"] {
        assert!(!is_number_text(bad), "{}", bad);
    }
}

#[test]
fn tree_validity_reaches_nested_numbers() {
    assert!(sample().is_valid());
    let bad = TreeValue::Object(vec![member(
        "a",
        TreeValue::Array(vec![TreeValue::Null, TreeValue::Number("{}".to_string())]),
    )]);
    assert!(!bad.is_valid());
    assert!(TreeValue::String("{\"x\"}".to_string()).is_valid());
}

#[test]
fn file_paths_join() {
    assert_eq!(construct_file_path("/base", "src/data/a.json"), "/base/src/data/a.json");
    assert_eq!(construct_file_path("/base/", "a.xml"), "/base/a.xml");
    assert_eq!(construct_file_path("/base", "/abs/a.xml"), "/abs/a.xml");
    assert_eq!(construct_file_path("", "a.xml"), "a.xml");
    assert_eq!(construct_file_path("/base", ""), "/base/");
}
