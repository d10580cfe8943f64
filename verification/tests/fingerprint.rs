use spec_driven_docs::plan::fingerprint::{canonical, fingerprint, Value};

#[test]
fn the_scalar_forms_encode_as_the_rfc_writes_them() {
    assert_eq!(canonical(&Value::Null), "null");
    assert_eq!(canonical(&Value::Bool(true)), "true");
    assert_eq!(canonical(&Value::Bool(false)), "false");
    assert_eq!(canonical(&Value::Int(0)), "0");
    assert_eq!(canonical(&Value::Int(-1)), "-1");
    assert_eq!(
        canonical(&Value::Int(9_007_199_254_740_991)),
        "9007199254740991"
    );
}

#[test]
fn strings_escape_exactly_what_the_rfc_escapes() {
    assert_eq!(canonical(&Value::text("")), "\"\"");
    assert_eq!(canonical(&Value::text("a\"b")), "\"a\\\"b\"");
    assert_eq!(canonical(&Value::text("a\\b")), "\"a\\\\b\"");
    assert_eq!(
        canonical(&Value::text("\u{8}\u{c}\n\r\t")),
        "\"\\b\\f\\n\\r\\t\""
    );
    assert_eq!(canonical(&Value::text("\u{1}")), "\"\\u0001\"");
    assert_eq!(canonical(&Value::text("\u{7f}")), "\"\u{7f}\"");
    assert_eq!(canonical(&Value::text("é")), "\"é\"");
    assert_eq!(canonical(&Value::text("😀")), "\"😀\"");
}

#[test]
fn keys_sort_by_utf16_code_unit() {
    let held = Value::map(vec![("\u{fb33}", Value::Int(1)), ("😀", Value::Int(2))]);
    // U+1F600 encodes as the surrogate pair D83D DE00, whose first
    // unit is below U+FB33, so the emoji sorts first.
    assert_eq!(canonical(&held), "{\"😀\":2,\"\u{fb33}\":1}");
}

#[test]
fn map_insertion_order_cannot_change_the_digest() {
    let one = Value::map(vec![
        ("b", Value::Int(2)),
        ("a", Value::Int(1)),
        ("c", Value::text("three")),
    ]);
    let two = Value::map(vec![
        ("c", Value::text("three")),
        ("a", Value::Int(1)),
        ("b", Value::Int(2)),
    ]);
    assert_eq!(canonical(&one), canonical(&two));
    assert_eq!(fingerprint(&one), fingerprint(&two));
    assert_eq!(canonical(&one), "{\"a\":1,\"b\":2,\"c\":\"three\"}");
}

#[test]
fn list_order_does_change_the_digest() {
    let one = Value::List(vec![Value::Int(1), Value::Int(2)]);
    let two = Value::List(vec![Value::Int(2), Value::Int(1)]);
    assert_ne!(fingerprint(&one), fingerprint(&two));
}

#[test]
fn nesting_encodes_without_whitespace() {
    let held = Value::map(vec![(
        "outer",
        Value::map(vec![("inner", Value::List(vec![Value::Null]))]),
    )]);
    assert_eq!(canonical(&held), "{\"outer\":{\"inner\":[null]}}");
}

#[test]
fn a_maybe_value_is_null_where_there_is_nothing() {
    assert_eq!(canonical(&Value::maybe(None)), "null");
    assert_eq!(canonical(&Value::maybe(Some("x"))), "\"x\"");
}

#[test]
fn a_later_pair_with_the_same_key_replaces_the_earlier_one() {
    let held = Value::map(vec![("k", Value::Int(1)), ("k", Value::Int(2))]);
    assert_eq!(canonical(&held), "{\"k\":2}");
}

#[test]
fn the_fingerprint_is_the_digest_of_the_canonical_text() {
    let held = Value::map(vec![("a", Value::Int(1))]);
    assert_eq!(
        fingerprint(&held).as_str(),
        "015abd7f5cc57a2dd94b7590f04ad8084273905ee33ec5cebeae62276a97f862"
    );
}

#[test]
fn the_most_negative_integer_spells_out_whole() {
    assert_eq!(canonical(&Value::Int(i64::MIN)), "-9223372036854775808");
}
