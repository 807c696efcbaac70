use herdr_annotate::json::{decode_json, quote_json, JsonValue};

#[test]
fn strings_are_quoted_with_serde_json_escapes() {
    assert_eq!(
        quote_json("a\"b\\c\n\t\r\u{8}\u{c}\u{1}\u{1f}é\u{7f}"),
        Some("\"a\\\"b\\\\c\\n\\t\\r\\b\\f\\u0001\\u001fé\u{7f}\"".to_owned())
    );
    assert_eq!(quote_json(""), Some("\"\"".to_owned()));
}

#[test]
fn a_quoted_string_reads_back_as_itself() {
    let text = "line one\nline \"two\"\t\\";
    let quoted = quote_json(text).expect("quoted");
    assert_eq!(decode_json(&quoted), Some(JsonValue::Str(text.to_owned())));
    assert_eq!(decode_json("not json"), None);
}
