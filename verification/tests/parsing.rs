use amgix_now::datetime_parse::{
    choose_reading, is_valid_datetime_string, parse_datetime_as_utc, parse_utc_datetime,
    require_utc, Timestamp, ZonedTimestamp,
};
use amgix_now::filter_parser::{parse_filter, read_word, tokenize, CompareOp, Token};
use amgix_now::join_parser::{parse_join, JoinField, JoinRefKind, JoinSideRef};
use amgix_now::json::{Double, JsonNumber, JsonValue};
use amgix_now::models::MetadataFilter;
use amgix_now::request_values::{deserialize_document_timestamp, deserialize_join_field};

fn text(s: &str) -> JsonValue {
    JsonValue::Text(s.to_string())
}

fn unsigned(n: u64) -> JsonValue {
    JsonValue::Number(JsonNumber::Unsigned(n, Double { bits: (n as f64).to_bits() }))
}

fn compared(key: &str, op: &str, value: JsonValue) -> MetadataFilter {
    MetadataFilter {
        and_: None,
        or_: None,
        not_: None,
        key: Some(key.to_string()),
        op: Some(op.to_string()),
        value: Some(value),
    }
}

#[test]
fn parse_bare_collection() {
    let spec = parse_join("child_coll").unwrap();
    assert_eq!(spec.collection_name, "child_coll");
    assert_eq!(spec.parent_ref, JoinSideRef::id());
    assert_eq!(spec.child_ref, JoinSideRef::id());
    assert!(spec.metadata_filter.is_none());
}

#[test]
fn parse_filter_only() {
    let spec = parse_join(r#"child(role = "primary")"#).unwrap();
    assert_eq!(spec.collection_name, "child");
    assert!(spec.metadata_filter.is_some());
}

#[test]
fn parse_keys_and_filter() {
    let spec = parse_join(r#"child[$id=$$.meta.parent_ref](role = "primary")"#).unwrap();
    assert_eq!(spec.parent_ref, JoinSideRef::id());
    assert_eq!(spec.child_ref, JoinSideRef::meta("parent_ref".to_string()));
    assert!(spec.metadata_filter.is_some());
}

#[test]
fn parse_invalid_syntax() {
    let err = parse_join("bad[[syntax").unwrap_err();
    assert!(err.to_lowercase().contains("invalid join"));
}

#[test]
fn parse_metadata_child_ref() {
    let spec = parse_join(r#"child[$id=$$.meta.parent_ref]"#).unwrap();
    assert_eq!(spec.parent_ref, JoinSideRef::id());
    assert_eq!(spec.child_ref, JoinSideRef::meta("parent_ref".to_string()));
}

#[test]
fn join_sides_on_both_metadata_keys() {
    let spec = parse_join("child[$.meta.sku=$$.meta.product]").unwrap();
    assert_eq!(spec.parent_ref.kind, JoinRefKind::Meta("sku".to_string()));
    assert_eq!(spec.child_ref.kind, JoinRefKind::Meta("product".to_string()));
}

#[test]
fn empty_join_is_refused() {
    assert_eq!(parse_join("   ").unwrap_err(), "Join expression cannot be empty");
}

#[test]
fn join_lists_name_each_collection_once() {
    let specs =
        JoinField::Multiple(vec!["a".to_string(), "b".to_string()]).into_specs().unwrap();
    assert_eq!(specs.len(), 2);
    assert_eq!(specs[0].collection_name, "a");
    assert_eq!(specs[1].collection_name, "b");
    assert_eq!(
        JoinField::Multiple(vec!["a".to_string(), "a".to_string()]).into_specs().unwrap_err(),
        "Duplicate join collection 'a' in join list"
    );
    assert_eq!(JoinField::Multiple(vec![]).into_specs().unwrap_err(), "Join list cannot be empty");
    assert_eq!(JoinField::Single("c".to_string()).into_specs().unwrap().len(), 1);
}

#[test]
fn join_fields_are_read_from_json() {
    assert_eq!(deserialize_join_field(&JsonValue::Null), Ok(None));
    assert_eq!(
        deserialize_join_field(&text("child")),
        Ok(Some(JoinField::Single("child".to_string())))
    );
    assert_eq!(
        deserialize_join_field(&JsonValue::Array(vec![text("a"), text("b")])),
        Ok(Some(JoinField::Multiple(vec!["a".to_string(), "b".to_string()])))
    );
    assert_eq!(
        deserialize_join_field(&JsonValue::Array(vec![text("a"), unsigned(1)])),
        Err("Join list items must be strings".to_string())
    );
    assert_eq!(
        deserialize_join_field(&unsigned(1)),
        Err("Join must be a string or list of strings".to_string())
    );
}

#[test]
fn filters_compare_texts_and_numbers() {
    assert_eq!(
        parse_filter(r#"status = "open""#).unwrap(),
        compared("status", "eq", text("open"))
    );
    assert_eq!(parse_filter("count >= 10").unwrap(), compared("count", "gte", unsigned(10)));
    assert_eq!(
        parse_filter("price < 1.5").unwrap(),
        compared(
            "price",
            "lt",
            JsonValue::Number(JsonNumber::Float(Double { bits: 1.5f64.to_bits() }))
        )
    );
    assert_eq!(
        parse_filter("delta = -3").unwrap(),
        compared(
            "delta",
            "eq",
            JsonValue::Number(JsonNumber::Negative(-3, Double { bits: (-3.0f64).to_bits() }))
        )
    );
    assert_eq!(parse_filter("on = true").unwrap(), compared("on", "eq", JsonValue::Bool(true)));
}

#[test]
fn and_binds_tighter_than_or() {
    let f = parse_filter("a = 1 OR b = 2 AND NOT c = 3").unwrap();
    let or = f.or_.unwrap();
    assert_eq!(or.len(), 2);
    assert_eq!(or[0], compared("a", "eq", unsigned(1)));
    let and = or[1].and_.as_ref().unwrap();
    assert_eq!(and[0], compared("b", "eq", unsigned(2)));
    let not = and[1].not_.as_ref().unwrap();
    assert_eq!(**not, compared("c", "eq", unsigned(3)));
}

#[test]
fn parentheses_group_filters() {
    let f = parse_filter("(a = 1 OR b = 2) AND c = 3").unwrap();
    let and = f.and_.unwrap();
    assert_eq!(and[0].or_.as_ref().unwrap().len(), 2);
    assert_eq!(and[1], compared("c", "eq", unsigned(3)));
}

#[test]
fn broken_filters_are_refused() {
    assert!(parse_filter("a =").is_err());
    assert!(parse_filter("").is_err());
    assert!(parse_filter("a = 1 AND").is_err());
}

#[test]
fn filters_are_made_of_tokens() {
    let t = tokenize(r#"a != "x y" )"#).unwrap();
    assert_eq!(
        t,
        vec![
            Token::Word("a".to_string()),
            Token::Op(CompareOp::Neq),
            Token::Text("x y".to_string()),
            Token::Close,
        ]
    );
    assert_eq!(tokenize("\"open"), None);
    assert_eq!(CompareOp::Lte.name(), "lte");
}

#[test]
fn words_stand_for_values() {
    assert_eq!(read_word("false").unwrap().value, JsonValue::Bool(false));
    assert_eq!(read_word("7").unwrap().value, unsigned(7));
    assert!(read_word("seven").is_none());
}

#[test]
fn document_timestamps_must_be_in_utc() {
    let t = parse_utc_datetime("2024-01-01T00:00:00Z").unwrap();
    assert_eq!(t, Timestamp { secs: 1_704_067_200, nanos: 0 });
    assert_eq!(
        parse_utc_datetime(" 2024-01-01T00:00:00.5+00:00 ").unwrap(),
        Timestamp { secs: 1_704_067_200, nanos: 500_000_000 }
    );
    assert_eq!(
        parse_utc_datetime("2024-01-01T00:00:00+02:00").unwrap_err(),
        "Timestamp must be in UTC timezone"
    );
    assert_eq!(
        parse_utc_datetime("2024-01-01T00:00:00").unwrap_err(),
        "Timestamp must include timezone information"
    );
    assert_eq!(
        parse_utc_datetime("yesterday").unwrap_err(),
        "Timestamp must be a valid ISO 8601 datetime string"
    );
}

#[test]
fn utc_is_required_of_what_was_read() {
    let instant = Timestamp { secs: 5, nanos: 0 };
    assert_eq!(require_utc(Some(ZonedTimestamp { instant, offset: 0 }), None), Ok(instant));
    assert!(require_utc(Some(ZonedTimestamp { instant, offset: 60 }), None).is_err());
    assert!(require_utc(None, Some(instant)).is_err());
}

#[test]
fn timestamps_are_read_from_json_texts_only() {
    assert_eq!(
        deserialize_document_timestamp(&text("2024-01-01T00:00:00Z")),
        Ok(Timestamp { secs: 1_704_067_200, nanos: 0 })
    );
    assert_eq!(
        deserialize_document_timestamp(&unsigned(3)),
        Err("Timestamp must be a datetime object".to_string())
    );
}

#[test]
fn filters_read_offsets_naive_times_and_dates() {
    let noon = parse_datetime_as_utc("2024-01-01T12:00:00+02:00").unwrap();
    assert_eq!(noon, Timestamp { secs: 1_704_067_200 + 10 * 3600, nanos: 0 });
    assert_eq!(
        parse_datetime_as_utc("2024-01-01T12:00:00").unwrap(),
        Timestamp { secs: 1_704_067_200 + 12 * 3600, nanos: 0 }
    );
    assert_eq!(
        parse_datetime_as_utc("2024-01-01").unwrap(),
        Timestamp { secs: 1_704_067_200, nanos: 0 }
    );
    assert!(parse_datetime_as_utc("soon").is_err());
    assert!(is_valid_datetime_string("2024-01-01"));
    assert!(!is_valid_datetime_string("01/01/2024"));
}

#[test]
fn the_first_reading_of_a_time_counts() {
    let a = Timestamp { secs: 1, nanos: 0 };
    let b = Timestamp { secs: 2, nanos: 0 };
    let c = Timestamp { secs: 3, nanos: 0 };
    let zoned = Some(ZonedTimestamp { instant: a, offset: 3600 });
    assert_eq!(choose_reading("x", zoned, Some(b), Some(c)), Ok(a));
    assert_eq!(choose_reading("x", None, Some(b), Some(c)), Ok(b));
    assert_eq!(choose_reading("x", None, None, Some(c)), Ok(c));
    assert!(choose_reading("x", None, None, None).is_err());
    assert!(a.before(&b));
    assert!(!b.before(&a));
}
