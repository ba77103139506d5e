use amgix_now::common::{DocumentField, SearchExcludeField, VectorType};
use amgix_now::datetime_parse::Timestamp;
use amgix_now::document_vectors::validate_document_vectors;
use amgix_now::encoder::{
    needs_revectorization, validate_metadata_filter, validate_metadata_types,
};
use amgix_now::export::{document_to_export_json, export_file_name, ExportRun};
use amgix_now::functions::{
    hash_text, normalize_document_metadata_inplace, normalize_one_metadata_value,
    set_content_hash, split_first_underscore,
};
use amgix_now::filter_parser::parse_filter;
use amgix_now::json::{Double, JsonNumber, JsonValue};
use amgix_now::models::{
    apply_search_exclude, flatten_doc_metadata, strip_null_json_fields, BulkUploadRequest,
    CollectionConfigInternal, CustomDocumentVector, Document, MetadataIndex, OkResponse, QueueInfo,
    VectorConfigInternal, VectorData,
};
use amgix_now::payload::{
    doc_payload_only, doc_to_payload, json_of_double, payload_members, qdrant_val_to_json,
    scored_point_id, search_result_from_point, PointKey, StoredValue,
};
use amgix_now::qdrant::DbError;
use amgix_now::validation::{
    normalize_document_python, validate_bulk_upload, validate_custom_vector_data_value,
    validate_document, validate_meta_value_type,
};

fn double(x: f64) -> Double {
    Double { bits: x.to_bits() }
}

fn text(s: &str) -> JsonValue {
    JsonValue::Text(s.to_string())
}

fn unsigned(n: u64) -> JsonValue {
    JsonValue::Number(JsonNumber::Unsigned(n, double(n as f64)))
}

fn float(x: f64) -> JsonValue {
    JsonValue::Number(JsonNumber::Float(double(x)))
}

fn object(m: Vec<(&str, JsonValue)>) -> JsonValue {
    JsonValue::Object(m.into_iter().map(|(k, v)| (k.to_string(), v)).collect())
}

fn document(id: &str) -> Document {
    Document {
        id: id.to_string(),
        timestamp: Timestamp { secs: 1, nanos: 0 },
        tags: None,
        name: None,
        description: None,
        content: None,
        content_hash: None,
        metadata: None,
        custom_vectors: None,
        joined: None,
        vectors: None,
        token_lengths: vec![],
    }
}

fn vector(name: &str, vector_type: VectorType, fields: Vec<DocumentField>) -> VectorConfigInternal {
    VectorConfigInternal {
        version: 1,
        name: name.to_string(),
        vector_type,
        model: None,
        revision: None,
        query_model: None,
        query_revision: None,
        dimensions: None,
        top_k: 128,
        wmtr_word_ratio: 80,
        index_fields: Some(fields),
        doc_template: None,
        query_template: None,
        language_default_code: "en".to_string(),
        language_detect: false,
        language_confidence: double(0.9),
        normalization: None,
        dense_distance: Default::default(),
        keep_case: Some(false),
    }
}

fn collection(vectors: Vec<VectorConfigInternal>, indexes: &[(&str, &str)]) -> CollectionConfigInternal {
    CollectionConfigInternal {
        version: 1,
        collection_id: "id".to_string(),
        vectors,
        store_content: true,
        metadata_indexes: Some(
            indexes
                .iter()
                .map(|(k, t)| MetadataIndex { key: k.to_string(), value_type: t.to_string() })
                .collect(),
        ),
    }
}

#[test]
fn matches_python_mmh3_hash128() {
    let cases = [
        ("", "00000000000000000000000000000000"),
        ("hello world", "ab97467d60eb63b1533f6046eb7f610e"),
        ("hello world!", "edf56b1420cea7e75aa80377fe21bbe3"),
        ("café", "0acaaa4789576479a2e7c22a053364dd"),
    ];
    for (content, expected) in cases {
        let mut d = document("t");
        d.content = Some(content.to_string());
        set_content_hash(&mut d);
        assert_eq!(d.content_hash.as_deref(), Some(expected), "content={content:?}");
    }
    let mut none_doc = document("t");
    let mut empty_doc = document("t");
    empty_doc.content = Some("".to_string());
    set_content_hash(&mut none_doc);
    set_content_hash(&mut empty_doc);
    assert_eq!(none_doc.content_hash, empty_doc.content_hash);
}

#[test]
fn hashes_stand_with_the_second_half_first() {
    assert_eq!(hash_text((1, 0xab)), "00000000000000ab0000000000000001");
}

#[test]
fn wrapped_metadata_is_stored_flat() {
    let wrapped = object(vec![("type", text("integer")), ("value", unsigned(3))]);
    assert_eq!(normalize_one_metadata_value("n", &wrapped), Ok(unsigned(3)));
    assert_eq!(normalize_one_metadata_value("n", &text("x")), Ok(text("x")));
    let wrong = object(vec![("type", text("integer")), ("value", text("3"))]);
    assert_eq!(
        normalize_one_metadata_value("n", &wrong),
        Err("Metadata value for key 'n' must be integer for type='integer', got str".to_string())
    );
    let unknown = object(vec![("type", text("blob")), ("value", text("3"))]);
    assert!(normalize_one_metadata_value("n", &unknown)
        .unwrap_err()
        .starts_with("Invalid metadata type 'blob' for key 'n'."));
    let date = object(vec![("type", text("datetime")), ("value", text("2024-01-01"))]);
    assert_eq!(normalize_one_metadata_value("n", &date), Ok(text("2024-01-01")));
}

#[test]
fn stored_metadata_stays_as_it_is() {
    let mut d = document("a");
    d.metadata = Some(vec![
        ("a".to_string(), object(vec![("type", text("boolean")), ("value", JsonValue::Bool(true))])),
        ("b".to_string(), float(1.5)),
    ]);
    normalize_document_metadata_inplace(&mut d).unwrap();
    let once = d.metadata.as_ref().unwrap().len();
    let first = format!("{:?}", d.metadata);
    normalize_document_metadata_inplace(&mut d).unwrap();
    assert_eq!(once, 2);
    assert_eq!(format!("{:?}", d.metadata), first);
    assert_eq!(d.metadata.unwrap()[0].1, JsonValue::Bool(true));
}

#[test]
fn failing_metadata_leaves_the_document() {
    let mut d = document("a");
    let wrong = object(vec![("type", text("float")), ("value", text("x"))]);
    d.metadata = Some(vec![("a".to_string(), wrong)]);
    let before = format!("{d:?}");
    assert!(normalize_document_metadata_inplace(&mut d).is_err());
    assert_eq!(format!("{d:?}"), before);
}

#[test]
fn slot_names_are_split_at_the_first_underscore() {
    assert_eq!(
        split_first_underscore("content_my_vec"),
        ("content".to_string(), "my_vec".to_string())
    );
    assert_eq!(split_first_underscore("content"), ("content".to_string(), "".to_string()));
}

#[test]
fn documents_are_trimmed_before_they_are_checked() {
    let mut d = document("  a1 ");
    d.tags = Some(vec![" x ".to_string(), "y".to_string()]);
    normalize_document_python(&mut d);
    assert_eq!(d.id, "a1");
    assert_eq!(d.tags, Some(vec!["x".to_string(), "y".to_string()]));
    assert!(validate_document(&d).is_ok());
    let once = format!("{d:?}");
    normalize_document_python(&mut d);
    assert_eq!(format!("{d:?}"), once);
}

#[test]
fn document_problems_are_named() {
    let message = |d: &Document| validate_document(d).unwrap_err().0;
    assert_eq!(message(&document(" ")), "id: Document ID cannot be empty or whitespace");
    assert_eq!(
        message(&document("a b")),
        "id: Document ID can only contain letters, numbers, underscores, and hyphens"
    );
    assert_eq!(
        message(&document(&"a".repeat(101))),
        "id: ensure this value has at most 100 characters"
    );
    let mut d = document("a");
    d.name = Some("x".repeat(1501));
    assert_eq!(message(&d), "name: ensure this value has at most 1500 characters");
    let mut d = document("a");
    d.tags = Some(vec!["a|b".to_string()]);
    assert_eq!(message(&d), "tags: Tag 'a|b' cannot contain pipe characters (|)");
    let mut d = document("a");
    d.tags = Some(vec!["a".to_string(), "a".to_string()]);
    assert_eq!(message(&d), "tags: Tags must not contain duplicates");
    let mut d = document("a");
    d.metadata = Some(vec![("bad key".to_string(), JsonValue::Null)]);
    assert_eq!(
        message(&d),
        "metadata.bad key: key can only contain letters, numbers, underscores, and hyphens"
    );
}

#[test]
fn metadata_types_are_checked() {
    assert!(validate_meta_value_type("k", "string", &text("a")).is_ok());
    assert!(validate_meta_value_type("k", "object", &JsonValue::Null).is_ok());
    assert_eq!(
        validate_meta_value_type("k", "array", &text("a")).unwrap_err().0,
        "metadata.k: value must be array for type='array', got str"
    );
    assert_eq!(
        validate_meta_value_type("k", "datetime", &text("x")).unwrap_err().0,
        "metadata.k: value must be a valid ISO 8601 datetime string, got 'x'"
    );
}

#[test]
fn custom_vectors_are_lists_of_numbers_or_pairs() {
    let ok = JsonValue::Array(vec![unsigned(1), float(0.5)]);
    assert!(validate_custom_vector_data_value(&ok).is_ok());
    let pairs = JsonValue::Array(vec![JsonValue::Array(vec![unsigned(1), float(0.5)])]);
    assert!(validate_custom_vector_data_value(&pairs).is_ok());
    let message = |v: &JsonValue| validate_custom_vector_data_value(v).unwrap_err().0;
    assert_eq!(message(&JsonValue::Array(vec![])), "Vector data cannot be empty");
    assert_eq!(message(&text("x")), "Vector data cannot be empty");
    assert_eq!(
        message(&JsonValue::Array(vec![unsigned(1), text("x")])),
        "Dense vector must contain only numbers"
    );
    assert_eq!(
        message(&JsonValue::Array(vec![JsonValue::Array(vec![unsigned(1)])])),
        "Sparse vector must contain (index, value) tuples"
    );
    assert_eq!(
        message(&JsonValue::Array(vec![JsonValue::Array(vec![float(1.5), float(1.0)])])),
        "Sparse vector tuples must be (int, float) pairs"
    );
}

#[test]
fn bulk_uploads_are_limited() {
    let mut many = BulkUploadRequest { documents: (0..101).map(|i| document(&format!("d{i}"))).collect() };
    assert_eq!(
        validate_bulk_upload(&mut many).unwrap_err().0,
        "documents: ensure this value has at most 100 items"
    );
    let mut some = BulkUploadRequest { documents: vec![document(" a "), document("b")] };
    assert!(validate_bulk_upload(&mut some).is_ok());
    assert_eq!(some.documents[0].id, "a");
    let mut bad = BulkUploadRequest { documents: vec![document("a"), document("b c")] };
    assert!(validate_bulk_upload(&mut bad).unwrap_err().0.contains("documents[1]"));
}

#[test]
fn changed_fields_need_new_vectors() {
    let config = collection(vec![vector("v", VectorType::FullText, vec![DocumentField::Content])], &[]);
    let mut a = document("a");
    a.content = Some("x".to_string());
    let mut b = document("a");
    b.content = Some("x".to_string());
    b.name = Some("other".to_string());
    assert!(!needs_revectorization(&a, &b, &config));
    b.content = Some("y".to_string());
    assert!(needs_revectorization(&a, &b, &config));
}

#[test]
fn changed_templates_need_new_vectors() {
    let mut v = vector("t", VectorType::FullText, vec![]);
    v.doc_template = Some("{content} {.meta.k}".to_string());
    let mut config = collection(vec![v], &[]);
    let mut a = document("a");
    let mut b = document("a");
    a.name = Some("x".to_string());
    a.metadata = Some(vec![("other".to_string(), unsigned(1))]);
    assert!(!needs_revectorization(&a, &b, &config));
    a.metadata = Some(vec![("k".to_string(), unsigned(1))]);
    assert!(needs_revectorization(&a, &b, &config));
    b.metadata = Some(vec![("k".to_string(), unsigned(1))]);
    a.content = Some("text".to_string());
    assert!(needs_revectorization(&a, &b, &config));
    config.store_content = false;
    assert!(!needs_revectorization(&a, &b, &config));
    a.content_hash = Some("h".to_string());
    assert!(needs_revectorization(&a, &b, &config));
}

#[test]
fn indexed_metadata_must_have_its_type() {
    let config = collection(vec![], &[("year", "integer")]);
    let mut d = document("a");
    d.metadata = Some(vec![("year".to_string(), unsigned(2024))]);
    assert!(validate_metadata_types(&config, &d).is_ok());
    d.metadata = Some(vec![("year".to_string(), text("2024"))]);
    assert!(validate_metadata_types(&config, &d).is_err());
}

#[test]
fn filters_use_indexed_keys_only() {
    let config = collection(vec![], &[("year", "integer")]);
    assert!(validate_metadata_filter(&config, &parse_filter("year > 2000").unwrap()).is_ok());
    assert!(validate_metadata_filter(&config, &parse_filter("month = 1").unwrap()).is_err());
    let none = collection(vec![], &[]);
    assert_eq!(
        validate_metadata_filter(&none, &parse_filter("year = 1").unwrap()).unwrap_err().0,
        "Collection has no metadata_indexes defined. Cannot filter on metadata."
    );
}

#[test]
fn uploaded_vectors_must_be_complete() {
    let config = collection(
        vec![vector("v", VectorType::FullText, vec![DocumentField::Name, DocumentField::Content])],
        &[],
    );
    let slot = |field| VectorData {
        vector_name: "v".to_string(),
        field,
        vector_type: VectorType::FullText,
        dense_vector: None,
        sparse_indices: Some(vec![1]),
        sparse_values: Some(vec![1.0f32.to_bits()]),
    };
    let mut d = document("a");
    assert!(validate_document_vectors(&config, &d).is_ok());
    d.vectors = Some(vec![]);
    assert_eq!(
        validate_document_vectors(&config, &d).unwrap_err().0,
        "vectors must be omitted or contain the complete non-custom vector set"
    );
    d.vectors = Some(vec![slot(DocumentField::Name)]);
    assert!(validate_document_vectors(&config, &d).is_err());
    d.vectors = Some(vec![slot(DocumentField::Name), slot(DocumentField::Content)]);
    assert!(validate_document_vectors(&config, &d).is_ok());
}

#[test]
fn metadata_is_shown_flat() {
    let doc = object(vec![
        ("id", text("a")),
        (
            "metadata",
            object(vec![
                ("k", object(vec![("type", text("integer")), ("value", unsigned(1))])),
                ("o", object(vec![("value", unsigned(1))])),
            ]),
        ),
    ]);
    let expected = object(vec![
        ("id", text("a")),
        ("metadata", object(vec![("k", unsigned(1)), ("o", object(vec![("value", unsigned(1))]))])),
    ]);
    assert_eq!(flatten_doc_metadata(doc), expected);
}

#[test]
fn null_members_are_stripped_at_any_depth() {
    let v = object(vec![
        ("a", JsonValue::Null),
        ("b", JsonValue::Array(vec![JsonValue::Null, object(vec![("c", JsonValue::Null)])])),
    ]);
    let stripped = strip_null_json_fields(&v);
    assert_eq!(
        stripped,
        object(vec![("b", JsonValue::Array(vec![JsonValue::Null, object(vec![])]))])
    );
    assert_eq!(strip_null_json_fields(&stripped), stripped);
}

#[test]
fn excluded_fields_are_null_also_in_joined_documents() {
    let v = object(vec![
        ("joined", object(vec![("c", JsonValue::Array(vec![object(vec![("name", text("x"))])]))])),
        ("name", text("y")),
        ("tags", JsonValue::Array(vec![])),
    ]);
    let out = apply_search_exclude(&v, &vec![SearchExcludeField::Name]);
    assert_eq!(
        out,
        object(vec![
            (
                "joined",
                object(vec![("c", JsonValue::Array(vec![object(vec![("name", JsonValue::Null)])]))])
            ),
            ("name", JsonValue::Null),
            ("tags", JsonValue::Array(vec![])),
        ])
    );
}

#[test]
fn exports_are_json_arrays() {
    let doc = object(vec![
        ("id", text("a")),
        ("metadata", object(vec![("k", object(vec![("type", text("t")), ("value", unsigned(1))]))])),
        ("name", JsonValue::Null),
    ]);
    let one = document_to_export_json(doc);
    assert_eq!(one, r#"{"id":"a","metadata":{"k":1}}"#);
    let (mut run, mut out) = ExportRun::start();
    let page = run.on_page(vec![Some(one.clone()), Some("2".to_string())], Some("p".to_string()));
    assert_eq!(page.next.as_deref(), Some("p"));
    out.push_str(&page.chunks.concat());
    let page = run.on_page(vec![Some("3".to_string()), None, Some("4".to_string())], None);
    assert_eq!(page.next, None);
    out.push_str(&page.chunks.concat());
    out.push_str(&run.finish());
    assert_eq!(out, format!("[{one},2,3]"));
    let parsed: serde_json::Value = serde_json::from_str(&out).unwrap();
    assert_eq!(parsed.as_array().unwrap().len(), 3);
    assert_eq!(export_file_name("c", "20240101T000000Z"), "c-20240101T000000Z.json.gz");
}

#[test]
fn stored_values_are_read_as_json() {
    let v = StoredValue::Struct(vec![
        ("b".to_string(), StoredValue::List(vec![StoredValue::Null, StoredValue::Bool(true)])),
        ("a".to_string(), StoredValue::Integer(-2, double(-2.0))),
        ("c".to_string(), StoredValue::Number(double(f64::NAN))),
        ("d".to_string(), StoredValue::Text("x".to_string())),
    ]);
    assert_eq!(
        qdrant_val_to_json(&v),
        object(vec![
            ("a", JsonValue::Number(JsonNumber::Negative(-2, double(-2.0)))),
            ("b", JsonValue::Array(vec![JsonValue::Null, JsonValue::Bool(true)])),
            ("c", JsonValue::Null),
            ("d", text("x")),
        ])
    );
    assert_eq!(json_of_double(double(f64::INFINITY)), JsonValue::Null);
    assert_eq!(json_of_double(double(0.25)), float(0.25));
}

#[test]
fn results_carry_their_scores() {
    let payload = vec![
        ("score".to_string(), StoredValue::Text("old".to_string())),
        ("id".to_string(), StoredValue::Text("a".to_string())),
    ];
    assert_eq!(payload_members(&payload).len(), 2);
    let m = search_result_from_point(&payload, double(0.5), JsonValue::Array(vec![]));
    assert_eq!(
        JsonValue::Object(m),
        object(vec![
            ("id", text("a")),
            ("score", float(0.5)),
            ("vector_scores", JsonValue::Array(vec![])),
        ])
    );
}

#[test]
fn point_ids_are_texts() {
    assert_eq!(scored_point_id(&Some(PointKey::Uuid("u".to_string()))), "u");
    assert_eq!(scored_point_id(&Some(PointKey::Num(7))), "7");
    assert_eq!(scored_point_id(&None), "");
}

#[test]
fn payloads_leave_vectors_and_unwanted_content_out() {
    let doc = || {
        object(vec![
            ("content", text("c")),
            ("custom_vectors", JsonValue::Null),
            ("id", text("a")),
            ("token_lengths", JsonValue::Null),
            ("vectors", JsonValue::Null),
        ])
    };
    let keys = |m: Vec<(String, JsonValue)>| m.into_iter().map(|p| p.0).collect::<Vec<_>>();
    assert_eq!(keys(doc_to_payload(doc(), true).unwrap()), vec!["content", "id"]);
    assert_eq!(keys(doc_to_payload(doc(), false).unwrap()), vec!["id"]);
    assert_eq!(
        keys(doc_payload_only(doc(), false).unwrap()),
        vec!["custom_vectors", "id", "token_lengths", "vectors"]
    );
    assert_eq!(
        doc_to_payload(JsonValue::Null, true),
        Err(DbError::Config("Expected object when serializing document".to_string()))
    );
    assert!(doc_payload_only(text("x"), true).is_err());
}

#[test]
fn answers_name_skipped_documents() {
    assert_eq!(OkResponse::ok_with_skipped(vec![]), OkResponse::ok());
    assert_eq!(
        OkResponse::ok_with_skipped(vec!["a".to_string()]).skipped,
        Some(vec!["a".to_string()])
    );
    assert_eq!(QueueInfo::empty().total, 0);
}

#[test]
fn custom_vectors_of_documents_are_checked() {
    let mut d = document("a");
    d.custom_vectors = Some(vec![CustomDocumentVector {
        vector_name: " ".to_string(),
        vector: JsonValue::Array(vec![unsigned(1)]),
        field: DocumentField::Name,
    }]);
    assert!(validate_document(&d)
        .unwrap_err()
        .0
        .contains("Vector name cannot be empty or whitespace"));
}
