//! The data that flows through a validation run: parse events coming in,
//! violation records and the final verdict going out.

use vstd::prelude::*;
use vstd::string::*;

verus! {

/// One attribute of an element start tag: a name and a value, in the order
/// the tokenizer delivered them.
#[derive(Debug, Clone, PartialEq, Eq)]
pub struct Attribute {
    pub name: String,
    pub value: String,
}

impl View for Attribute {
    type V = (Seq<char>, Seq<char>);

    open spec fn view(&self) -> (Seq<char>, Seq<char>) {
        (self.name@, self.value@)
    }
}

/// A structural event of the tokenized document, in arrival order: an
/// element opens with its attributes, an element closes, a run of character
/// data appears, or the tokenizer itself reports a low-level error.
#[derive(Debug, Clone, PartialEq, Eq)]
pub enum ParseEvent {
    ElementStart { name: String, attributes: Vec<Attribute> },
    ElementEnd { name: String },
    CharacterData { text: String },
    SourceError { detail: String },
}

/// The mathematical shape of a [`ParseEvent`]: names and text as character
/// sequences, attributes as ordered (name, value) pairs.
#[verifier::ext_equal]
pub enum SpecEvent {
    ElementStart { name: Seq<char>, attributes: Seq<(Seq<char>, Seq<char>)> },
    ElementEnd { name: Seq<char> },
    CharacterData { text: Seq<char> },
    SourceError { detail: Seq<char> },
}

impl View for ParseEvent {
    type V = SpecEvent;

    open spec fn view(&self) -> SpecEvent {
        match self {
            ParseEvent::ElementStart { name, attributes } => SpecEvent::ElementStart {
                name: name@,
                attributes: attributes@.map(|i: int, a: Attribute| a@),
            },
            ParseEvent::ElementEnd { name } => SpecEvent::ElementEnd { name: name@ },
            ParseEvent::CharacterData { text } => SpecEvent::CharacterData { text: text@ },
            ParseEvent::SourceError { detail } => SpecEvent::SourceError { detail: detail@ },
        }
    }
}

/// The views of a sequence of parse events.
pub open spec fn event_views(events: Seq<ParseEvent>) -> Seq<SpecEvent> {
    events.map(|i: int, e: ParseEvent| e@)
}

/// One detected break of a well-formedness rule, recorded with the data a
/// caller needs to understand it; [`Violation::message`] renders it to the
/// human-readable text of the report.
#[derive(Debug, Clone, PartialEq, Eq)]
pub enum Violation {
    /// An attribute value on the named element contains `&`, `<` or `>`.
    UnescapedAttribute { element: String, value: String },
    /// Character data somewhere in the document contains `&`, `<` or `>`.
    UnescapedCharacterData,
    /// A close tag did not name the most recently opened element.
    MismatchedClose { last_opened: String },
}

/// The mathematical shape of a [`Violation`].
#[verifier::ext_equal]
pub enum SpecViolation {
    UnescapedAttribute { element: Seq<char>, value: Seq<char> },
    UnescapedCharacterData,
    MismatchedClose { last_opened: Seq<char> },
}

impl View for Violation {
    type V = SpecViolation;

    open spec fn view(&self) -> SpecViolation {
        match self {
            Violation::UnescapedAttribute { element, value } => SpecViolation::UnescapedAttribute {
                element: element@,
                value: value@,
            },
            Violation::UnescapedCharacterData => SpecViolation::UnescapedCharacterData,
            Violation::MismatchedClose { last_opened } => SpecViolation::MismatchedClose {
                last_opened: last_opened@,
            },
        }
    }
}

/// The views of a sequence of violations.
pub open spec fn violation_views(violations: Seq<Violation>) -> Seq<SpecViolation> {
    violations.map(|i: int, v: Violation| v@)
}

/// The outcome of one validation run: either the document is well formed,
/// or the complete ordered list of violations found during the single pass.
/// The list of a `NotWellFormed` verdict is never empty.
#[derive(Debug, Clone, PartialEq, Eq)]
pub enum Verdict {
    WellFormed,
    NotWellFormed(Vec<Violation>),
}

/// The mathematical shape of a [`Verdict`].
#[verifier::ext_equal]
pub enum SpecVerdict {
    WellFormed,
    NotWellFormed(Seq<SpecViolation>),
}

impl View for Verdict {
    type V = SpecVerdict;

    open spec fn view(&self) -> SpecVerdict {
        match self {
            Verdict::WellFormed => SpecVerdict::WellFormed,
            Verdict::NotWellFormed(violations) => SpecVerdict::NotWellFormed(
                violation_views(violations@),
            ),
        }
    }
}

/// The report text for an unescaped attribute value: it names the offending
/// value twice and the element that carries the attribute once.
pub open spec fn attribute_message(element: Seq<char>, value: Seq<char>) -> Seq<char> {
    "Attribute '"@ + value + "' in element '"@ + element
        + "' contains unescaped special characters: '"@ + value + "'"@
}

/// The report text for unescaped character data; it does not identify the
/// surrounding element, which the validator does not track for text nodes.
pub open spec fn character_data_message() -> Seq<char> {
    "Character data inside an element contains unescaped special characters."@
}

/// The report text for a close tag that did not match: it names the element
/// that was opened last and so is still considered unclosed.
pub open spec fn mismatched_close_message(last_opened: Seq<char>) -> Seq<char> {
    "Opened but unclosed element '"@ + last_opened + "'."@
}

/// The report text of any violation.
pub open spec fn violation_message(violation: SpecViolation) -> Seq<char> {
    match violation {
        SpecViolation::UnescapedAttribute { element, value } => attribute_message(element, value),
        SpecViolation::UnescapedCharacterData => character_data_message(),
        SpecViolation::MismatchedClose { last_opened } => mismatched_close_message(last_opened),
    }
}

impl Violation {
    /// Renders the violation to its human-readable report line.
    pub fn message(&self) -> (m: String)
        ensures
            m@ == violation_message(self@),
    {
        match self {
            Violation::UnescapedAttribute { element, value } => {
                let mut m = String::from_str("Attribute '");
                m.append(value.as_str());
                m.append("' in element '");
                m.append(element.as_str());
                m.append("' contains unescaped special characters: '");
                m.append(value.as_str());
                m.append("'");
                m
            },
            Violation::UnescapedCharacterData => {
                String::from_str(
                    "Character data inside an element contains unescaped special characters.",
                )
            },
            Violation::MismatchedClose { last_opened } => {
                let mut m = String::from_str("Opened but unclosed element '");
                m.append(last_opened.as_str());
                m.append("'.");
                m
            },
        }
    }
}

/// Renders a violation list to its report lines, one per violation, in
/// the same order.
pub fn render_messages(violations: &Vec<Violation>) -> (messages: Vec<String>)
    ensures
        messages@.map(|i: int, m: String| m@) == violation_views(violations@).map(
            |i: int, v: SpecViolation| violation_message(v),
        ),
{
    let mut messages: Vec<String> = Vec::new();
    let n = violations.len();
    let mut i: usize = 0;
    while i < n
        invariant
            n == violations.len(),
            i <= n,
            messages@.len() == i,
            forall|j: int| 0 <= j < i ==> (#[trigger] messages@[j])@ == violation_message(
                violations@[j]@,
            ),
        decreases n - i,
    {
        let m = violations[i].message();
        messages.push(m);
        i += 1;
    }
    proof {
        assert(messages@.map(|i: int, m: String| m@) =~= violation_views(violations@).map(
            |i: int, v: SpecViolation| violation_message(v),
        ));
    }
    messages
}

} // verus!
