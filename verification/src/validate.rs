//! The verified core: the escaping checker, the per-event validators and
//! the run controller that turns an event stream into a verdict.

use vstd::prelude::*;
use vstd::string::*;
use crate::events::{
    attribute_message, character_data_message, event_views, violation_views, Attribute,
    ParseEvent, SpecEvent, SpecVerdict, SpecViolation, Verdict, Violation,
};

verus! {

/// A character that must not appear raw in attribute values or character
/// data: `&`, `<` or `>`.
pub open spec fn is_markup_char(c: char) -> bool {
    c == '&' || c == '<' || c == '>'
}

/// Whether the text contains at least one raw markup-significant character.
/// The check is pure character membership: no attempt is made to tell a
/// legitimately escaped sequence from a raw occurrence, since the tokenizer
/// has already decoded entities by the time text reaches the validator.
pub open spec fn has_unescaped(s: Seq<char>) -> bool {
    exists|i: int| 0 <= i < s.len() && is_markup_char(s[i])
}

/// Decides whether one character is markup-significant and so would need
/// escaping inside attribute values or character data.
pub fn should_escape(caracter: char) -> (r: bool)
    ensures
        r == is_markup_char(caracter),
{
    caracter == '&' || caracter == '<' || caracter == '>'
}

/// Decides whether the text holds at least one raw `&`, `<` or `>`.
fn contains_unescaped(s: &str) -> (r: bool)
    ensures
        r == has_unescaped(s@),
{
    let n = s.unicode_len();
    let mut i: usize = 0;
    let mut found = false;
    while i < n
        invariant
            n == s@.len(),
            i <= n,
            found == exists|j: int| 0 <= j < i && is_markup_char(s@[j]),
        decreases n - i,
    {
        let c = s.get_char(i);
        if should_escape(c) {
            found = true;
        }
        i += 1;
    }
    found
}

/// The violations that one element's attribute list contributes, in
/// attribute order: one per attribute value that holds a raw markup
/// character.
pub open spec fn attribute_violations(
    element: Seq<char>,
    attributes: Seq<(Seq<char>, Seq<char>)>,
) -> Seq<SpecViolation>
    decreases attributes.len(),
{
    if attributes.len() == 0 {
        Seq::empty()
    } else {
        let head = if has_unescaped(attributes[0].1) {
            seq![SpecViolation::UnescapedAttribute { element, value: attributes[0].1 }]
        } else {
            Seq::<SpecViolation>::empty()
        };
        head + attribute_violations(element, attributes.drop_first())
    }
}

/// The violations that a single event contributes, given the name of the
/// most recently opened element. An element start is checked attribute by
/// attribute; an element end is compared against the last opened name;
/// character data is checked for raw markup characters; a tokenizer error
/// is kept apart from well-formedness and contributes nothing.
pub open spec fn event_violations(last_opened: Seq<char>, event: SpecEvent) -> Seq<SpecViolation> {
    match event {
        SpecEvent::ElementStart { name, attributes } => attribute_violations(name, attributes),
        SpecEvent::ElementEnd { name } => if name != last_opened {
            seq![SpecViolation::MismatchedClose { last_opened }]
        } else {
            Seq::<SpecViolation>::empty()
        },
        SpecEvent::CharacterData { text } => if has_unescaped(text) {
            seq![SpecViolation::UnescapedCharacterData]
        } else {
            Seq::<SpecViolation>::empty()
        },
        SpecEvent::SourceError { .. } => Seq::empty(),
    }
}

/// The tracking state after one event: an element start overwrites the
/// last opened name, every other event leaves it unchanged. The tracker is
/// deliberately a single slot, not a stack: a close never restores the
/// enclosing element's name.
pub open spec fn next_state(last_opened: Seq<char>, event: SpecEvent) -> Seq<char> {
    match event {
        SpecEvent::ElementStart { name, .. } => name,
        _ => last_opened,
    }
}

/// The tracking state after a whole stream, started from `last_opened`.
pub open spec fn state_after(last_opened: Seq<char>, events: Seq<SpecEvent>) -> Seq<char>
    decreases events.len(),
{
    if events.len() == 0 {
        last_opened
    } else {
        state_after(next_state(last_opened, events[0]), events.drop_first())
    }
}

/// The complete ordered violation list of a stream, started from
/// `last_opened`: each event's contribution in arrival order.
pub open spec fn stream_violations_from(
    last_opened: Seq<char>,
    events: Seq<SpecEvent>,
) -> Seq<SpecViolation>
    decreases events.len(),
{
    if events.len() == 0 {
        Seq::empty()
    } else {
        event_violations(last_opened, events[0]) + stream_violations_from(
            next_state(last_opened, events[0]),
            events.drop_first(),
        )
    }
}

/// The complete ordered violation list of a document's event stream. A run
/// begins with an empty last-opened name, so a close tag that arrives
/// before any open is compared against the empty name.
pub open spec fn stream_violations(events: Seq<SpecEvent>) -> Seq<SpecViolation> {
    stream_violations_from(Seq::empty(), events)
}

/// The verdict a stream earns: well formed exactly when its violation list
/// is empty, otherwise that non-empty list, in arrival order.
pub open spec fn spec_verdict(events: Seq<SpecEvent>) -> SpecVerdict {
    if stream_violations(events).len() == 0 {
        SpecVerdict::WellFormed
    } else {
        SpecVerdict::NotWellFormed(stream_violations(events))
    }
}

/// Checks one attribute value for raw markup characters; on failure the
/// error carries the report line naming the value and its element.
pub fn check_attribute(attribute: &str, element_name: &str) -> (r: Result<(), String>)
    ensures
        r is Ok <==> !has_unescaped(attribute@),
        r matches Err(m) ==> m@ == attribute_message(element_name@, attribute@),
{
    if contains_unescaped(attribute) {
        let violation = Violation::UnescapedAttribute {
            element: element_name.to_owned(),
            value: attribute.to_owned(),
        };
        Err(violation.message())
    } else {
        Ok(())
    }
}

/// Checks one run of character data for raw markup characters; on failure
/// the error carries the generic character-data report line.
pub fn check_text(text: &str) -> (r: Result<(), String>)
    ensures
        r is Ok <==> !has_unescaped(text@),
        r matches Err(m) ==> m@ == character_data_message(),
{
    if contains_unescaped(text) {
        Err(Violation::UnescapedCharacterData.message())
    } else {
        Ok(())
    }
}

/// The validator never exits early: the violations of a stream split into
/// two parts are exactly the violations of the first part followed by the
/// violations of the second, resumed from the tracking state the first
/// part left behind. Every event therefore contributes its violations no
/// matter what was found before it.
pub proof fn lemma_stream_violations_append(
    last_opened: Seq<char>,
    first: Seq<SpecEvent>,
    second: Seq<SpecEvent>,
)
    ensures
        stream_violations_from(last_opened, first + second) == stream_violations_from(
            last_opened,
            first,
        ) + stream_violations_from(state_after(last_opened, first), second),
    decreases first.len(),
{
    if first.len() == 0 {
        assert(first + second =~= second);
        assert(stream_violations_from(last_opened, first) + stream_violations_from(
            last_opened,
            second,
        ) =~= stream_violations_from(last_opened, second));
    } else {
        let head = first[0];
        let next = next_state(last_opened, head);
        assert((first + second)[0] == head);
        assert((first + second).drop_first() =~= first.drop_first() + second);
        lemma_stream_violations_append(next, first.drop_first(), second);
        assert(event_violations(last_opened, head) + (stream_violations_from(
            next,
            first.drop_first(),
        ) + stream_violations_from(state_after(next, first.drop_first()), second))
            =~= (event_violations(last_opened, head) + stream_violations_from(
            next,
            first.drop_first(),
        )) + stream_violations_from(state_after(next, first.drop_first()), second));
    }
}

/// Whether one event is clean with respect to the tracked last-opened
/// name: a start carries no attribute value with raw markup characters, a
/// close names exactly the element opened most recently before it,
/// character data is free of raw markup characters, and a tokenizer error
/// never counts against well-formedness.
pub open spec fn event_clean(last_opened: Seq<char>, event: SpecEvent) -> bool {
    match event {
        SpecEvent::ElementStart { name, attributes } => forall|i: int|
            0 <= i < attributes.len() ==> !has_unescaped(#[trigger] attributes[i].1),
        SpecEvent::ElementEnd { name } => name == last_opened,
        SpecEvent::CharacterData { text } => !has_unescaped(text),
        SpecEvent::SourceError { .. } => true,
    }
}

/// Whether every event of the stream is clean with respect to the tracking
/// state reached just before it, starting from `last_opened`.
pub open spec fn stream_clean_from(last_opened: Seq<char>, events: Seq<SpecEvent>) -> bool
    decreases events.len(),
{
    events.len() == 0 || (event_clean(last_opened, events[0]) && stream_clean_from(
        next_state(last_opened, events[0]),
        events.drop_first(),
    ))
}

/// Whether every event of a document's stream is clean, starting as a run
/// does from the empty last-opened name.
pub open spec fn stream_clean(events: Seq<SpecEvent>) -> bool {
    stream_clean_from(Seq::empty(), events)
}

proof fn lemma_attribute_violations_clean(
    element: Seq<char>,
    attributes: Seq<(Seq<char>, Seq<char>)>,
)
    requires
        forall|i: int| 0 <= i < attributes.len() ==> !has_unescaped(#[trigger] attributes[i].1),
    ensures
        attribute_violations(element, attributes) == Seq::<SpecViolation>::empty(),
    decreases attributes.len(),
{
    if attributes.len() > 0 {
        lemma_attribute_violations_clean(element, attributes.drop_first());
        assert(attribute_violations(element, attributes) =~= Seq::<SpecViolation>::empty());
    }
}

proof fn lemma_clean_stream_no_violations(last_opened: Seq<char>, events: Seq<SpecEvent>)
    requires
        stream_clean_from(last_opened, events),
    ensures
        stream_violations_from(last_opened, events) == Seq::<SpecViolation>::empty(),
    decreases events.len(),
{
    if events.len() > 0 {
        let head = events[0];
        match head {
            SpecEvent::ElementStart { name, attributes } => {
                lemma_attribute_violations_clean(name, attributes);
            },
            _ => {},
        }
        lemma_clean_stream_no_violations(next_state(last_opened, head), events.drop_first());
        assert(stream_violations_from(last_opened, events) =~= Seq::<SpecViolation>::empty());
    }
}

/// A document whose close tags always name the element opened most
/// recently before them, and whose attribute values and character data are
/// free of raw `&`, `<` and `>`, is judged well formed.
pub proof fn lemma_clean_stream_wellformed(events: Seq<SpecEvent>)
    requires
        stream_clean(events),
    ensures
        spec_verdict(events) == SpecVerdict::WellFormed,
{
    lemma_clean_stream_no_violations(Seq::empty(), events);
}

/// A stream with no events at all is judged well formed, with an empty
/// violation list.
pub proof fn lemma_empty_stream_wellformed()
    ensures
        stream_violations(Seq::empty()) == Seq::<SpecViolation>::empty(),
        spec_verdict(Seq::empty()) == SpecVerdict::WellFormed,
{
}

/// Validation is a pure function of the event stream: two runs over the
/// same unmodified events — as [`validate`]'s contract pins each run to
/// `spec_verdict` — produce the same verdict, with the same violations in
/// the same order.
pub proof fn lemma_validation_deterministic(
    events: Seq<SpecEvent>,
    first_run: SpecVerdict,
    second_run: SpecVerdict,
)
    requires
        first_run == spec_verdict(events),
        second_run == spec_verdict(events),
    ensures
        first_run == second_run,
{
}

/// Routes one event to its validator, as the run controller does: an
/// element start checks every attribute and then overwrites the tracked
/// last-opened name, an element end is compared against that name,
/// character data is checked for raw markup characters, and a tokenizer
/// error is recorded nowhere — it is kept apart from well-formedness.
/// Violations are appended to `errors` in arrival order; processing never
/// stops at one.
pub fn process_xml_event(
    event: &ParseEvent,
    last_opened_element: &mut String,
    errors: &mut Vec<Violation>,
)
    ensures
        final(last_opened_element)@ == next_state(old(last_opened_element)@, event@),
        violation_views(final(errors)@) == violation_views(old(errors)@) + event_violations(
            old(last_opened_element)@,
            event@,
        ),
{
    match event {
        ParseEvent::ElementStart { name, attributes } => {
            let ghost elem: Seq<char> = name@;
            let ghost avs: Seq<(Seq<char>, Seq<char>)> = attributes@.map(|k: int, a: Attribute| a@);
            *last_opened_element = name.clone();
            let n = attributes.len();
            let mut i: usize = 0;
            proof {
                assert(avs.skip(0) =~= avs);
            }
            while i < n
                invariant
                    n == attributes.len(),
                    i <= n,
                    elem == name@,
                    avs == attributes@.map(|k: int, a: Attribute| a@),
                    violation_views(errors@) + attribute_violations(elem, avs.skip(i as int))
                        == violation_views(old(errors)@) + attribute_violations(elem, avs),
                decreases n - i,
            {
                let ghost before: Seq<Violation> = errors@;
                proof {
                    assert(avs[i as int] == attributes@[i as int]@);
                    assert(avs.skip(i as int)[0] == avs[i as int]);
                    assert(avs.skip(i as int).drop_first() =~= avs.skip(i as int + 1));
                }
                let attr = &attributes[i];
                if contains_unescaped(attr.value.as_str()) {
                    errors.push(
                        Violation::UnescapedAttribute {
                            element: name.clone(),
                            value: attr.value.clone(),
                        },
                    );
                    proof {
                        let v = SpecViolation::UnescapedAttribute { element: elem, value: avs[i as int].1 };
                        assert(violation_views(errors@) =~= violation_views(before) + seq![v]);
                        assert((violation_views(before) + seq![v]) + attribute_violations(elem, avs.skip(i as int + 1))
                            =~= violation_views(before) + (seq![v] + attribute_violations(elem, avs.skip(i as int + 1))));
                    }
                } else {
                    proof {
                        assert(attribute_violations(elem, avs.skip(i as int))
                            =~= attribute_violations(elem, avs.skip(i as int + 1)));
                    }
                }
                i += 1;
            }
            proof {
                assert(avs.skip(n as int) =~= Seq::<(Seq<char>, Seq<char>)>::empty());
                assert(violation_views(errors@) + Seq::<SpecViolation>::empty() =~= violation_views(errors@));
            }
        },
        ParseEvent::ElementEnd { name } => {
            let ghost before: Seq<Violation> = errors@;
            if !(*last_opened_element == *name) {
                errors.push(
                    Violation::MismatchedClose { last_opened: last_opened_element.clone() },
                );
                proof {
                    let v = SpecViolation::MismatchedClose {
                        last_opened: old(last_opened_element)@,
                    };
                    assert(violation_views(errors@) =~= violation_views(before) + seq![v]);
                }
            } else {
                proof {
                    assert(violation_views(errors@) =~= violation_views(before) + Seq::<SpecViolation>::empty());
                }
            }
        },
        ParseEvent::CharacterData { text } => {
            let ghost before: Seq<Violation> = errors@;
            if contains_unescaped(text.as_str()) {
                errors.push(Violation::UnescapedCharacterData);
                proof {
                    assert(violation_views(errors@) =~= violation_views(before)
                        + seq![SpecViolation::UnescapedCharacterData]);
                }
            } else {
                proof {
                    assert(violation_views(errors@) =~= violation_views(before) + Seq::<SpecViolation>::empty());
                }
            }
        },
        ParseEvent::SourceError { .. } => {
            proof {
                assert(violation_views(errors@) =~= violation_views(errors@) + Seq::<SpecViolation>::empty());
            }
        },
    }
}

/// Drives the single pass over a finite event stream: every event is
/// processed in arrival order, the whole stream is consumed, and the
/// verdict is well formed exactly when no event contributed a violation;
/// otherwise it carries the complete ordered violation list.
pub fn validate(events: &Vec<ParseEvent>) -> (verdict: Verdict)
    ensures
        verdict@ == spec_verdict(event_views(events@)),
{
    let ghost evs: Seq<SpecEvent> = event_views(events@);
    let mut last_opened_element = String::new();
    let mut errors: Vec<Violation> = Vec::new();
    let n = events.len();
    let mut i: usize = 0;
    proof {
        assert(evs.skip(0) =~= evs);
        assert(violation_views(errors@) =~= Seq::<SpecViolation>::empty());
    }
    while i < n
        invariant
            n == events.len(),
            i <= n,
            evs == event_views(events@),
            violation_views(errors@) + stream_violations_from(
                last_opened_element@,
                evs.skip(i as int),
            ) == stream_violations(evs),
        decreases n - i,
    {
        let ghost last_before: Seq<char> = last_opened_element@;
        let ghost views_before: Seq<SpecViolation> = violation_views(errors@);
        proof {
            assert(evs[i as int] == events@[i as int]@);
            assert(evs.skip(i as int)[0] == evs[i as int]);
            assert(evs.skip(i as int).drop_first() =~= evs.skip(i as int + 1));
        }
        process_xml_event(&events[i], &mut last_opened_element, &mut errors);
        proof {
            let contributed = event_violations(last_before, evs[i as int]);
            let rest = stream_violations_from(
                last_opened_element@,
                evs.skip(i as int + 1),
            );
            assert((views_before + contributed) + rest =~= views_before + (contributed + rest));
        }
        i += 1;
    }
    proof {
        assert(evs.skip(n as int) =~= Seq::<SpecEvent>::empty());
        assert(violation_views(errors@) + Seq::<SpecViolation>::empty() =~= violation_views(errors@));
    }
    if errors.is_empty() {
        Verdict::WellFormed
    } else {
        Verdict::NotWellFormed(errors)
    }
}

} // verus!
