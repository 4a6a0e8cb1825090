// Event-level tests: the validator run on event streams built by hand.

use xml_wellformed::events::{Attribute, ParseEvent, Verdict, Violation};
use xml_wellformed::validate::{check_attribute, check_text, process_xml_event, should_escape,
    validate};

fn start(name: &str, attributes: Vec<(&str, &str)>) -> ParseEvent {
    ParseEvent::ElementStart {
        name: name.to_string(),
        attributes: attributes
            .into_iter()
            .map(|(n, v)| Attribute { name: n.to_string(), value: v.to_string() })
            .collect(),
    }
}

fn end(name: &str) -> ParseEvent {
    ParseEvent::ElementEnd { name: name.to_string() }
}

fn text(t: &str) -> ParseEvent {
    ParseEvent::CharacterData { text: t.to_string() }
}

fn violations_of(verdict: &Verdict) -> Vec<Violation> {
    match verdict {
        Verdict::WellFormed => Vec::new(),
        Verdict::NotWellFormed(violations) => violations.clone(),
    }
}

#[test]
fn empty_stream_is_wellformed() {
    let verdict = validate(&Vec::new());
    assert_eq!(verdict, Verdict::WellFormed);
}

#[test]
fn flat_clean_document_is_wellformed() {
    let events = vec![
        start("r", vec![("id", "one")]),
        text("plain text"),
        end("r"),
        start("s", vec![]),
        end("s"),
    ];
    assert_eq!(validate(&events), Verdict::WellFormed);
}

#[test]
fn unescaped_attribute_names_value_and_element() {
    let events = vec![start("foo", vec![("bar", "a&b")]), end("foo")];
    let verdict = validate(&events);
    let violations = violations_of(&verdict);
    assert_eq!(
        violations,
        vec![Violation::UnescapedAttribute { element: "foo".to_string(), value: "a&b".to_string() }]
    );
    let message = violations[0].message();
    assert!(message.contains("a&b"));
    assert!(message.contains("foo"));
    assert_eq!(
        message,
        "Attribute 'a&b' in element 'foo' contains unescaped special characters: 'a&b'"
    );
}

#[test]
fn unescaped_character_data_yields_one_violation() {
    let events = vec![start("a", vec![]), text("1 < 2"), end("a")];
    let violations = violations_of(&validate(&events));
    assert_eq!(violations, vec![Violation::UnescapedCharacterData]);
    assert_eq!(
        violations[0].message(),
        "Character data inside an element contains unescaped special characters."
    );
}

#[test]
fn interleaved_mismatched_close_references_last_opened() {
    // the stream of `<a><b></a></b>`: the close of `a` arrives while `b`
    // is the element opened most recently
    let events = vec![start("a", vec![]), start("b", vec![]), end("a"), end("b")];
    let violations = violations_of(&validate(&events));
    assert_eq!(
        violations,
        vec![Violation::MismatchedClose { last_opened: "b".to_string() }]
    );
    assert_eq!(violations[0].message(), "Opened but unclosed element 'b'.");
}

#[test]
fn close_without_open_compares_against_empty_name() {
    let violations = violations_of(&validate(&vec![end("a")]));
    assert_eq!(
        violations,
        vec![Violation::MismatchedClose { last_opened: String::new() }]
    );
    assert_eq!(violations[0].message(), "Opened but unclosed element ''.");
}

#[test]
fn all_violations_are_collected_in_arrival_order() {
    let events = vec![
        start("foo", vec![("bar", "a&b"), ("baz", "c>d")]),
        text("1 < 2"),
        end("quux"),
    ];
    let violations = violations_of(&validate(&events));
    assert_eq!(
        violations,
        vec![
            Violation::UnescapedAttribute { element: "foo".to_string(), value: "a&b".to_string() },
            Violation::UnescapedAttribute { element: "foo".to_string(), value: "c>d".to_string() },
            Violation::UnescapedCharacterData,
            Violation::MismatchedClose { last_opened: "foo".to_string() },
        ]
    );
}

#[test]
fn source_errors_do_not_count_against_wellformedness() {
    let events = vec![
        start("a", vec![]),
        ParseEvent::SourceError { detail: "unexpected end of stream".to_string() },
        end("a"),
    ];
    assert_eq!(validate(&events), Verdict::WellFormed);
}

#[test]
fn validation_is_idempotent() {
    let events = vec![start("a", vec![]), start("b", vec![]), end("a"), text("x < y")];
    let first_run = validate(&events);
    let second_run = validate(&events);
    assert_eq!(first_run, second_run);
    let first_messages: Vec<String> =
        violations_of(&first_run).iter().map(|v| v.message()).collect();
    let second_messages: Vec<String> =
        violations_of(&second_run).iter().map(|v| v.message()).collect();
    assert_eq!(first_messages, second_messages);
}

#[test]
fn process_xml_event_tracks_last_opened_element() {
    let mut last_opened = String::new();
    let mut errors: Vec<Violation> = Vec::new();
    process_xml_event(&start("outer", vec![]), &mut last_opened, &mut errors);
    assert_eq!(last_opened, "outer");
    process_xml_event(&start("inner", vec![]), &mut last_opened, &mut errors);
    assert_eq!(last_opened, "inner");
    // a close never restores the enclosing element's name
    process_xml_event(&end("inner"), &mut last_opened, &mut errors);
    assert_eq!(last_opened, "inner");
    assert!(errors.is_empty());
}

#[test]
fn should_escape_accepts_exactly_the_markup_characters() {
    assert!(should_escape('&'));
    assert!(should_escape('<'));
    assert!(should_escape('>'));
    assert!(!should_escape('a'));
    assert!(!should_escape('\''));
    assert!(!should_escape('"'));
}

#[test]
fn check_attribute_reports_the_offending_value() {
    assert_eq!(check_attribute("clean", "foo"), Ok(()));
    assert_eq!(
        check_attribute("a&b", "foo"),
        Err("Attribute 'a&b' in element 'foo' contains unescaped special characters: 'a&b'"
            .to_string())
    );
}

#[test]
fn check_text_reports_generic_message() {
    assert_eq!(check_text("all clear"), Ok(()));
    assert_eq!(
        check_text("1 < 2"),
        Err("Character data inside an element contains unescaped special characters."
            .to_string())
    );
}
