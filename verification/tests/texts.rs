use amgix_now::common::{
    doc_lock_name, doc_namespace, get_real_collection_name, get_user_collection_name,
    qdrant_client_url, search_prefetch_limit, string_to_uuid, sys_collection_name, uuid_text,
    DenseDistance, DocumentField, SearchExcludeField, VectorType,
};
use amgix_now::json::{find_member, get_member, set_member, Double, JsonNumber, JsonValue};
use amgix_now::json_text::{number_to_text, to_json_text};
use amgix_now::platform::{init, HostOs};
use amgix_now::ranking::{sort_ranked, RankedText};
use amgix_now::text::{
    ascii_lowercase, decimal_text, find_text, has_prefix, has_suffix, has_text, hex_text, joined,
    signed_text, sort_texts, split_at_char, text_before, text_from, trimmed,
};

fn double(x: f64) -> Double {
    Double { bits: x.to_bits() }
}

fn float(x: f64) -> JsonValue {
    JsonValue::Number(JsonNumber::Float(double(x)))
}

fn unsigned(n: u64) -> JsonValue {
    JsonValue::Number(JsonNumber::Unsigned(n, double(n as f64)))
}

fn strings(v: &[&str]) -> Vec<String> {
    v.iter().map(|s| s.to_string()).collect()
}

#[test]
fn white_space_is_trimmed_on_both_sides() {
    assert_eq!(trimmed(" \t\u{a0}x y\u{2003}\n"), "x y");
    assert_eq!(trimmed("   "), "");
    for s in ["a", " a ", "\u{200b}a", "\u{85}b\u{3000}"] {
        assert_eq!(trimmed(s), s.trim());
        assert_eq!(trimmed(&trimmed(s)), trimmed(s));
    }
}

#[test]
fn numbers_are_written_in_decimal_and_hexadecimal() {
    assert_eq!(decimal_text(0), "0");
    assert_eq!(decimal_text(u64::MAX), u64::MAX.to_string());
    assert_eq!(signed_text(-42), "-42");
    assert_eq!(signed_text(i64::MIN), i64::MIN.to_string());
    assert_eq!(hex_text(0xbeef, 8), "0000beef");
}

#[test]
fn texts_are_split_and_joined() {
    assert_eq!(split_at_char("a.b..c", '.'), strings(&["a", "b", "", "c"]));
    assert_eq!(split_at_char("", '.'), strings(&[""]));
    assert_eq!(joined(&strings(&["a", "b", "c"]), ", "), "a, b, c");
    assert_eq!(joined(&strings(&[]), ", "), "");
}

#[test]
fn texts_are_searched_by_characters() {
    assert_eq!(find_text("caf\u{e9}: x: y", ": "), Some(4));
    assert_eq!(find_text("none", ": "), None);
    assert_eq!(find_text("abc", ""), Some(0));
    assert!(has_text("abcdef", "cde"));
    assert!(!has_text("abcdef", "ced"));
    assert!(has_prefix("abc", "ab") && !has_prefix("abc", "bc"));
    assert!(has_suffix("abc", "bc") && !has_suffix("abc", "ab") && !has_suffix("a", "aa"));
    assert_eq!(text_from("caf\u{e9}s", 4), "s");
    assert_eq!(ascii_lowercase("AbC\u{c4}"), "abc\u{c4}");
}

#[test]
fn texts_are_sorted_as_the_standard_library_sorts_them() {
    let mut plain = strings(&["b", "a", "ab", "", "B", "\u{e9}", "z"]);
    let sorted = sort_texts(&plain);
    plain.sort();
    assert_eq!(sorted, plain);
    assert!(text_before("a", "ab") && !text_before("ab", "a") && !text_before("a", "a"));
}

#[test]
fn sorting_by_rank_keeps_all_values() {
    let items: Vec<RankedText> =
        ["c", "a", "b", "a"].iter().map(|s| RankedText { text: s.to_string() }).collect();
    let sorted: Vec<String> = sort_ranked(items).into_iter().map(|r| r.text).collect();
    assert_eq!(sorted, strings(&["a", "a", "b", "c"]));
}

#[test]
fn collection_names_carry_a_prefix() {
    let real = get_real_collection_name("books");
    assert_ne!(real, "books");
    assert_eq!(get_user_collection_name(&real), "books");
    assert_eq!(get_user_collection_name("books"), "books");
    assert_eq!(sys_collection_name("meta"), "amgix_sys_meta");
}

#[test]
fn ids_are_name_based_uuids() {
    let namespace = uuid::Uuid::new_v5(&uuid::Uuid::NAMESPACE_DNS, b"Amalgam Index");
    assert_eq!(doc_namespace(), namespace.as_u128());
    assert_eq!(uuid_text(doc_namespace()), "d953b233-6472-5054-8f32-1999b057711c");
    let expected = uuid::Uuid::new_v5(&uuid::Uuid::from_u128(doc_namespace()), b"doc-1");
    assert_eq!(string_to_uuid("doc-1"), expected.as_u128());
    assert_eq!(uuid_text(string_to_uuid("doc-1")), expected.to_string());
    assert_ne!(string_to_uuid("doc-1"), string_to_uuid("doc-2"));
}

#[test]
fn locks_are_named_after_the_document() {
    assert_ne!(doc_lock_name("c", "1"), doc_lock_name("c", "2"));
    assert_ne!(doc_lock_name("c", "1"), doc_lock_name("d", "1"));
    assert_eq!(doc_lock_name("c", "1"), doc_lock_name("c", "1"));
}

#[test]
fn database_urls_get_the_clients_scheme() {
    assert_eq!(qdrant_client_url("qdrant://localhost:6334"), "http://localhost:6334");
    assert_eq!(qdrant_client_url("http://host:1"), "http://host:1");
    for (given, url) in [
        ("qdrant://localhost", "http://localhost:6334"),
        (" localhost ", "http://localhost:6334"),
        ("localhost:7000", "http://localhost:7000"),
        ("https://host", "https://host:6334"),
        ("qdrant://host/path:1", "http://host:6334/path:1"),
        ("qdrant://u:p@host", "http://u:p@host:6334"),
        ("qdrant://[::1]", "http://[::1]:6334"),
        ("qdrant://[::1]:1", "http://[::1]:1"),
        ("qdrant://host:", "http://host:6334"),
    ] {
        assert_eq!(qdrant_client_url(given), url);
    }
}

#[test]
fn searches_fetch_a_little_more_than_asked() {
    assert_eq!(search_prefetch_limit(1), 5);
    assert_eq!(search_prefetch_limit(11), 16);
    assert_eq!(search_prefetch_limit(100), 150);
}

#[test]
fn vector_types_have_names() {
    for (name, t) in [
        ("dense_model", VectorType::DenseModel),
        ("sparse_model", VectorType::SparseModel),
        ("full_text", VectorType::FullText),
        ("trigrams", VectorType::Trigrams),
        ("whitespace", VectorType::Whitespace),
        ("wmtr", VectorType::Wmtr),
        ("dense_custom", VectorType::DenseCustom),
        ("sparse_custom", VectorType::SparseCustom),
        ("noop", VectorType::Noop),
    ] {
        assert_eq!(VectorType::parse(name), Ok(t));
        assert_eq!(VectorType::parse(&name.to_uppercase()), Ok(t));
        assert_eq!(t.name(), name);
        let kinds = [t.is_custom_tokenization(), t.is_transformer_based(), t.is_custom_vectors()];
        assert_eq!(kinds.iter().filter(|k| **k).count(), 1);
        assert_eq!(t.is_dense(), !t.sparse_types_contains());
        assert_eq!(t.is_sparse(), name != "dense_model" && name != "dense_custom");
    }
    assert_eq!(VectorType::parse("keyword"), Ok(VectorType::Wmtr));
    assert_eq!(
        VectorType::parse("Foo").unwrap_err(),
        "unknown vector type: \"foo\" (expected snake_case literal, e.g. dense_model)"
    );
}

#[test]
fn fields_and_distances_have_names() {
    assert_eq!(DocumentField::Description.name(), "description");
    assert_eq!(DenseDistance::default().name(), "cosine");
    assert_eq!(SearchExcludeField::Tags.as_str(), "tags");
}

#[test]
fn doubles_compare_by_their_bits() {
    let values = [
        f64::NEG_INFINITY,
        -1.5,
        -f64::MIN_POSITIVE,
        -0.0,
        0.0,
        1e-300,
        1.0,
        1e300,
        f64::INFINITY,
        f64::NAN,
    ];
    for a in values {
        for b in values {
            assert_eq!(double(a).lt(&double(b)), a < b, "{a} < {b}");
            assert_eq!(double(a).le(&double(b)), a <= b, "{a} <= {b}");
            assert_eq!(double(a).same(&double(b)), a == b, "{a} == {b}");
        }
        assert_eq!(double(a).nan(), a.is_nan());
    }
    assert!(double(0.5).within(&double(0.0), &double(1.0)));
    assert!(!double(1.5).within(&double(0.0), &double(1.0)));
}

#[test]
fn json_is_written_as_serde_json_writes_it() {
    let value = JsonValue::Object(vec![
        ("a".to_string(), JsonValue::Array(vec![JsonValue::Null, JsonValue::Bool(true)])),
        ("b".to_string(), float(0.1)),
        ("c\"\n".to_string(), JsonValue::Text("caf\u{e9} \u{1} \\".to_string())),
        ("d".to_string(), unsigned(7)),
        ("e".to_string(), JsonValue::Object(vec![])),
    ]);
    let text = to_json_text(&value);
    let mut map = serde_json::Map::new();
    map.insert(
        "a".to_string(),
        serde_json::Value::Array(vec![serde_json::Value::Null, serde_json::Value::Bool(true)]),
    );
    map.insert("b".to_string(), serde_json::Value::from(0.1));
    map.insert("c\"\n".to_string(), serde_json::Value::from("caf\u{e9} \u{1} \\"));
    map.insert("d".to_string(), serde_json::Value::from(7));
    map.insert("e".to_string(), serde_json::Value::Object(serde_json::Map::new()));
    assert_eq!(text, serde_json::Value::Object(map).to_string());
}

#[test]
fn json_numbers_are_written_exactly() {
    assert_eq!(number_to_text(&JsonNumber::Unsigned(5, double(5.0))), "5");
    assert_eq!(number_to_text(&JsonNumber::Negative(-5, double(-5.0))), "-5");
    for x in [1.0, 0.1, 1e21, 1.5e-9, -2.25] {
        assert_eq!(
            number_to_text(&JsonNumber::Float(double(x))),
            serde_json::Value::from(x).to_string()
        );
    }
}

#[test]
fn members_are_found_and_set_in_order() {
    let mut m = vec![("a".to_string(), unsigned(1)), ("c".to_string(), unsigned(3))];
    set_member(&mut m, "b", unsigned(2));
    assert_eq!(m.iter().map(|p| p.0.as_str()).collect::<Vec<_>>(), vec!["a", "b", "c"]);
    set_member(&mut m, "a", JsonValue::Null);
    assert_eq!(get_member(&m, "a"), Some(&JsonValue::Null));
    assert_eq!(find_member(&m, "z"), 3);
    assert_eq!(get_member(&m, "z"), None);
}

#[test]
fn json_equality_ignores_the_nearest_double() {
    let a = JsonValue::Number(JsonNumber::Unsigned(1, double(1.0)));
    let b = JsonValue::Number(JsonNumber::Unsigned(1, double(2.0)));
    assert!(a.same(&b));
    assert!(!a.same(&float(1.0)));
    assert!(float(0.0).same(&float(-0.0)));
    assert!(!float(f64::NAN).same(&float(f64::NAN)));
    assert!(a.duplicate().same(&a));
    assert_eq!(float(1.0).kind_name(), "float");
}

#[test]
fn consoles_need_help_on_one_system() {
    assert!(init(HostOs::Windows));
    assert!(!init(HostOs::Linux));
}
