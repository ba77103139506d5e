use amgix_now::api::{
    api_error, infer_json_error_loc, json_rejection_response, readiness, search_problem,
    upsert_answer, validation_error, Detail, Problem, Rejection,
};
use amgix_now::common::{DenseDistance, DocumentField, VectorType};
use amgix_now::config_cache::{CollectionConfigCache, CACHE_MAX_ENTRIES, CACHE_TTL_MS};
use amgix_now::config_validation::validate_collection_config;
use amgix_now::datetime_parse::Timestamp;
use amgix_now::encoder::{SearchError, UpsertSyncError};
use amgix_now::handlers::{
    check_bulk_vectors, check_collection, check_delete, check_fetch, check_fetch_filter,
    check_name_is_free, check_new_collection, check_search, check_upload, complete_collection,
    config_lookup_problem, creation_answer, deletion_answer, emptying_answer, existence_answer,
    found_document, stats_answer, status_answer, unimplemented_answer,
};
use amgix_now::json::Double;
use amgix_now::model_validation::{probe_query, summarize_models};
use amgix_now::models::{
    CollectionConfig, CollectionConfigInternal, Document, DocumentFetchRequest,
    ModelValidationResponse, ModelValidationResult, QueuedDocumentStatus, SearchQuery,
    SearchQuerySettings, VectorConfig, VectorConfigInternal, VectorData,
};
use amgix_now::qdrant::{
    check_document_found, collection_layout, config_point_id, list_payload_indexes, next_wait,
    order_documents, point_id_text, slot_name_text, stats_point_id, user_collections, DbError, FieldType,
};
use amgix_now::models::MetadataIndex;
use amgix_now::query_validation::FacetLimits;
use amgix_now::request_values::{default_noop_vectors, requested_collection};
use amgix_now::stats::add_default_averages;
use amgix_now::templates::{
    field_slots, render_doc_template, render_query_template, resolve_search_field, validate_doc_template,
    validate_query_template, vector_index_fields,
};
use amgix_now::validation::ValidationError;

fn double(x: f64) -> Double {
    Double { bits: x.to_bits() }
}

fn strings(v: &[&str]) -> Vec<String> {
    v.iter().map(|s| s.to_string()).collect()
}

fn vector(name: &str, vector_type: VectorType) -> VectorConfig {
    VectorConfig {
        name: name.to_string(),
        vector_type,
        model: None,
        revision: None,
        query_model: None,
        query_revision: None,
        dimensions: None,
        top_k: 128,
        wmtr_word_ratio: 80,
        index_fields: None,
        doc_template: None,
        query_template: None,
        language_default_code: "en".to_string(),
        language_detect: false,
        language_confidence: double(0.9),
        normalization: None,
        dense_distance: DenseDistance::Cosine,
        keep_case: Some(false),
    }
}

fn stored(name: &str, vector_type: VectorType) -> VectorConfigInternal {
    VectorConfigInternal::from_config(vector(name, vector_type))
}

fn config(vectors: Vec<VectorConfig>) -> CollectionConfig {
    CollectionConfig { vectors, store_content: true, metadata_indexes: None }
}

fn stored_collection(vectors: Vec<VectorConfigInternal>) -> CollectionConfigInternal {
    CollectionConfigInternal {
        version: 1,
        collection_id: "id".to_string(),
        vectors,
        store_content: true,
        metadata_indexes: None,
    }
}

fn document(id: &str) -> Document {
    Document {
        id: id.to_string(),
        timestamp: Timestamp { secs: 1, nanos: 0 },
        tags: None,
        name: None,
        description: None,
        content: None,
        content_hash: None,
        metadata: None,
        custom_vectors: None,
        joined: None,
        vectors: None,
        token_lengths: vec![],
    }
}

fn plain(status: u16, message: &str) -> Problem {
    Problem { status, detail: Detail::Message(message.to_string()) }
}

fn placed(status: u16, loc: &[&str], msg: &str) -> Problem {
    Problem { status, detail: Detail::Place { loc: strings(loc), msg: msg.to_string() } }
}

fn query() -> SearchQuery {
    SearchQuery {
        query: "q".to_string(),
        settings: SearchQuerySettings {
            vector_options: vec![],
            custom_vectors: None,
            limit: 10,
            score_threshold: None,
            document_tags: None,
            document_tags_match_all: false,
            metadata_filter: None,
            raw_scores: false,
            fusion_mode: "rrf".to_string(),
            join: None,
            exclude: None,
            group_field: None,
            group_max: 3,
            group_max_fetches: 2,
            facets: false,
            facet_options: None,
        },
    }
}

#[test]
fn validation_problems_name_their_place() {
    assert_eq!(
        validation_error(ValidationError("documents[0].name: too long: really".to_string())),
        placed(422, &["body", "documents[0]", "name"], "too long: really")
    );
    assert_eq!(
        validation_error(ValidationError("no place".to_string())),
        placed(422, &["body"], "no place")
    );
}

#[test]
fn unreadable_bodies_are_answered_by_kind() {
    let msg = "missing field `id` at line 1";
    assert_eq!(
        json_rejection_response(Rejection::Data, msg.to_string()),
        placed(422, &["body", "id"], msg)
    );
    assert_eq!(json_rejection_response(Rejection::Syntax, "x".to_string()).status, 400);
    assert_eq!(json_rejection_response(Rejection::ContentType, "x".to_string()).status, 415);
    assert_eq!(infer_json_error_loc("missing field `open"), strings(&["body"]));
    assert_eq!(api_error(501, "no".to_string()), plain(501, "no"));
}

#[test]
fn failed_writes_have_their_statuses() {
    assert!(upsert_answer(Ok(vec![])).unwrap().ok);
    let cases = [
        (UpsertSyncError::NotFound("m".to_string()), 404, "m"),
        (UpsertSyncError::Vectorization("m".to_string()), 400, "m"),
        (UpsertSyncError::IngressQueueFull("m".to_string()), 429, "m"),
        (UpsertSyncError::IngressWorkerExited("m".to_string()), 503, "m"),
        (
            UpsertSyncError::Db(DbError::Config("m".to_string())),
            500,
            "Database error: Config error: m",
        ),
    ];
    for (e, status, message) in cases {
        assert_eq!(upsert_answer(Err(e)), Err(plain(status, message)));
    }
}

#[test]
fn failed_searches_have_their_statuses() {
    let cases = [
        (SearchError::NotFound("m".to_string()), 404, "m"),
        (SearchError::InvalidFilter("m".to_string()), 400, "m"),
        (SearchError::Vectorization("m".to_string()), 400, "m"),
        (SearchError::IngressQueueFull("m".to_string()), 429, "m"),
        (SearchError::IngressWorkerExited("m".to_string()), 503, "m"),
        (
            SearchError::Db(DbError::Qdrant("m".to_string())),
            500,
            "Database error: Qdrant error: m",
        ),
    ];
    for (e, status, message) in cases {
        assert_eq!(search_problem(e), plain(status, message));
    }
}

#[test]
fn readiness_depends_on_database_and_queue() {
    assert_eq!(readiness(true, None).0, 200);
    assert_eq!(readiness(true, Some(true)).0, 200);
    assert_eq!(readiness(true, Some(false)).0, 503);
    let (status, body) = readiness(false, None);
    assert_eq!(status, 503);
    assert!(!body.ready && body.rabbitmq && body.index && body.query);
}

#[test]
fn collection_names_are_checked_first() {
    assert_eq!(check_collection("books").unwrap(), "amgix_books");
    assert_eq!(
        check_collection("").unwrap_err(),
        placed(422, &["body"], "ensure this value has at least 1 characters")
    );
    assert_eq!(
        check_collection(&"a".repeat(101)).unwrap_err(),
        placed(422, &["body"], "ensure this value has at most 100 characters")
    );
    assert_eq!(unimplemented_answer(None), plain(501, "Not implemented in Amgix Now"));
    assert_eq!(unimplemented_answer(Some("a b")).status, 422);
    assert_eq!(unimplemented_answer(Some("ab")).status, 501);
}

#[test]
fn collections_without_vectors_index_nothing() {
    let c = requested_collection(None, None, None);
    assert_eq!(c.vectors, default_noop_vectors());
    assert!(c.store_content);
    assert_eq!(c.vectors[0].vector_type, VectorType::Noop);
    assert!(validate_collection_config(&c).is_ok());
    let c = requested_collection(Some(vec![]), Some(false), None);
    assert_eq!(c.vectors.len(), 1);
    assert!(!c.store_content);
}

#[test]
fn vector_names_are_unique_in_a_collection() {
    let c = config(vec![vector("a", VectorType::FullText), vector("a", VectorType::Trigrams)]);
    assert_eq!(
        validate_collection_config(&c).unwrap_err().0,
        "Duplicate vector names found: a. Each vector name must be unique within a collection."
    );
    assert!(check_new_collection("c", &c).is_err());
    let c = config(vec![vector("a", VectorType::DenseModel)]);
    assert!(validate_collection_config(&c).is_err());
}

#[test]
fn names_of_new_collections_must_be_free() {
    assert!(check_name_is_free("c", Err(DbError::NotFound("x".to_string()))).is_ok());
    assert_eq!(
        check_name_is_free("c", Ok(())).unwrap_err(),
        plain(409, "Collection 'c' already exists")
    );
    assert_eq!(
        check_name_is_free("c", Err(DbError::Qdrant("down".to_string()))).unwrap_err(),
        plain(500, "Failed to check collection: Qdrant error: down")
    );
}

#[test]
fn models_get_the_dimensions_they_have() {
    let mut v = vector("d", VectorType::DenseModel);
    v.model = Some("m".to_string());
    let report = |r: ModelValidationResult| ModelValidationResponse {
        results: Some(vec![("d".to_string(), r)]),
        error: None,
    };
    let good = ModelValidationResult { valid: true, dimension: Some(384), error: None };
    let mut w = vector("d", VectorType::DenseModel);
    w.model = Some("m".to_string());
    let c = complete_collection(config(vec![w]), "uid".to_string(), report(good)).unwrap();
    assert_eq!(c.collection_id, "uid");
    assert_eq!(c.version, 1);
    assert_eq!(c.vectors[0].dimensions, Some(384));
    assert_eq!(c.vectors[0].normalization, Some(true));
    let fail = |r: ModelValidationResponse| {
        complete_collection(config(vec![vector("d", VectorType::DenseModel)]), "u".to_string(), r)
            .unwrap_err()
    };
    assert_eq!(
        fail(report(ModelValidationResult { valid: false, dimension: None, error: None })),
        plain(400, "Model d is not valid: Model validation failed")
    );
    assert_eq!(
        fail(report(ModelValidationResult { valid: true, dimension: None, error: None })),
        plain(400, "Model d is valid but has no reported dimension after validation")
    );
    assert_eq!(
        fail(ModelValidationResponse { results: Some(vec![]), error: None }),
        plain(400, "Model validation failed for d")
    );
    assert_eq!(
        fail(ModelValidationResponse { results: None, error: Some("e".to_string()) }),
        plain(400, "Model validation failed: e")
    );
    assert_eq!(
        fail(ModelValidationResponse { results: None, error: None }),
        plain(400, "Model validation returned no results map")
    );
}

#[test]
fn changes_of_collections_are_answered() {
    assert!(creation_answer("c", Ok(true)).unwrap().ok);
    assert_eq!(
        creation_answer("c", Ok(false)).unwrap_err(),
        plain(500, "Failed to create collection 'c'")
    );
    assert_eq!(
        deletion_answer("c", Err(DbError::NotFound("n".to_string()))).unwrap_err(),
        plain(500, "Failed to delete collection: Not found: n")
    );
    assert!(!emptying_answer(Ok(false)).unwrap().ok);
    assert!(existence_answer(Ok(())).unwrap().exists);
    assert!(!existence_answer(Err(DbError::NotFound("".to_string()))).unwrap().exists);
    assert!(existence_answer(Err(DbError::Config("".to_string()))).is_err());
    assert_eq!(stats_answer(Ok(5)).unwrap().doc_count, 5);
    assert_eq!(
        config_lookup_problem("c", DbError::NotFound("x".to_string())),
        plain(404, "Collection 'c' not found")
    );
}

#[test]
fn documents_are_found_or_not() {
    assert_eq!(found_document(vec![Some(document("a"))], "a").unwrap().id, "a");
    assert_eq!(found_document(vec![None], "a").unwrap_err(), plain(404, "Document 'a' not found"));
    assert_eq!(found_document(vec![], "a").unwrap_err().status, 404);
    let s = status_answer(&vec![Some(document("a"))], "c", "a").unwrap();
    assert_eq!(s.statuses[0].status, QueuedDocumentStatus::Indexed);
    assert_eq!(s.statuses[0].timestamp, Timestamp { secs: 1, nanos: 0 });
    assert_eq!(
        status_answer(&vec![], "c", "a").unwrap_err(),
        plain(404, "Document a not found in collection c")
    );
}

#[test]
fn uploads_are_trimmed_and_checked() {
    let mut d = document(" a ");
    assert_eq!(check_upload("c", &mut d).unwrap(), "amgix_c");
    assert_eq!(d.id, "a");
    let mut d = document("a b");
    assert_eq!(check_upload("c", &mut d).unwrap_err().status, 422);
    let mut d = document(" a ");
    assert_eq!(check_upload("", &mut d).unwrap_err().status, 422);
    assert_eq!(d.id, " a ");
    let mut bad = document("b");
    bad.vectors = Some(vec![]);
    assert_eq!(
        check_bulk_vectors(&stored_collection(vec![]), &vec![document("a"), bad]).unwrap_err(),
        plain(
            400,
            "documents[1]: vectors must be omitted or contain the complete non-custom vector set"
        )
    );
}

#[test]
fn deletions_name_a_time_in_utc() {
    let (name, t) = check_delete("c", "2024-01-01T00:00:00Z").unwrap();
    assert_eq!(name, "amgix_c");
    assert_eq!(t.secs, 1_704_067_200);
    assert_eq!(
        check_delete("c", "now").unwrap_err(),
        placed(
            422,
            &["query", "request_timestamp"],
            "'request_timestamp' must include a UTC timezone (e.g. 2024-01-01T00:00:00Z). Got now"
        )
    );
}

#[test]
fn pages_have_between_one_and_a_thousand_documents() {
    let request = |page_size| DocumentFetchRequest {
        page_size,
        after: None,
        metadata_filter: None,
        document_tags: None,
        document_tags_match_all: false,
        join: None,
        with_vectors: false,
    };
    assert!(check_fetch("c", &request(1)).is_ok());
    assert!(check_fetch("c", &request(1000)).is_ok());
    for n in [0, 1001] {
        assert_eq!(
            check_fetch("c", &request(n)).unwrap_err(),
            plain(422, "page_size must be between 1 and 1000")
        );
    }
    assert!(check_fetch_filter(&stored_collection(vec![]), &request(1)).is_ok());
}

#[test]
fn searches_are_checked_and_put_in_order() {
    let limits = FacetLimits { prefetch_multiplier: 10, max_values: 100 };
    let mut q = query();
    assert_eq!(check_search("c", &mut q, limits).unwrap(), "amgix_c");
    let mut q = query();
    q.query = "".to_string();
    assert_eq!(check_search("c", &mut q, limits).unwrap_err().status, 422);
    let mut q = query();
    q.settings.limit = 101;
    assert_eq!(check_search("c", &mut q, limits).unwrap_err().status, 422);
}

#[test]
fn cached_configs_are_found_until_they_age() {
    let mut cache = CollectionConfigCache::new(false);
    assert!(cache.get("c", 0).is_none());
    cache.set("c", stored_collection(vec![]), 1000);
    assert_eq!(cache.get("c", 1000).unwrap().collection_id, "id");
    cache.invalidate("c");
    assert!(cache.get("c", 1001).is_none());
    cache.set("a", stored_collection(vec![]), 1000);
    cache.set("b", stored_collection(vec![]), 1000);
    cache.set("b", stored_collection(vec![]), 1000);
    cache.invalidate("b");
    assert!(cache.get("a", 1000).is_some() && cache.get("b", 1000).is_none());
    let mut cluster = CollectionConfigCache::new(true);
    cluster.set("c", stored_collection(vec![]), 0);
    assert!(cluster.get_for_search("c", CACHE_TTL_MS - 1).is_some());
    assert!(cluster.get_for_search("c", CACHE_TTL_MS + 1).is_none());
    for i in 0..(CACHE_MAX_ENTRIES + 5) {
        cluster.set(&format!("c{i}"), stored_collection(vec![]), i as u64);
    }
    assert!(cluster.get_for_search(&format!("c{}", CACHE_MAX_ENTRIES + 4), 0).is_some());
}

#[test]
fn stored_configs_are_shown_without_query_models() {
    let mut v = vector("k", VectorType::Keyword);
    v.query_model = Some("q".to_string());
    let internal = VectorConfigInternal::from_config(v);
    assert_eq!(internal.vector_type, VectorType::Wmtr);
    assert_eq!(internal.index_fields, Some(vec![DocumentField::Content]));
    assert_eq!(internal.normalization, Some(false));
    let shown = VectorConfig::from_internal(internal);
    assert_eq!(shown.query_model, None);
    let again = VectorConfig::from_internal(VectorConfigInternal::from_config(shown));
    assert_eq!(again.vector_type, VectorType::Wmtr);
    let c = CollectionConfig::from_internal(stored_collection(vec![stored("a", VectorType::Noop)]));
    assert_eq!(c.vectors[0].name, "a");
}

#[test]
fn layouts_have_a_slot_for_each_field() {
    let mut dense = stored("d", VectorType::DenseModel);
    assert!(collection_layout(&vec![stored("d", VectorType::DenseModel)]).is_err());
    dense.dimensions = Some(3);
    dense.index_fields = Some(vec![DocumentField::Name, DocumentField::Content]);
    let layout = collection_layout(&vec![dense, stored("f", VectorType::FullText)]).unwrap();
    let names: Vec<&str> = layout.dense.iter().map(|p| p.0.as_str()).collect();
    assert_eq!(names, vec!["name_d", "content_d"]);
    assert_eq!(layout.dense[0].1.size, 3);
    assert_eq!(layout.sparse.len(), 1);
    assert_eq!(layout.sparse[0].0, "content_f");
    assert_eq!(slot_name_text(DocumentField::Content, "f"), "content_f");
}

#[test]
fn template_vectors_have_a_slot_of_their_own() {
    let mut shown = vector("t", VectorType::FullText);
    shown.doc_template = Some("{name}".to_string());
    shown.query_template = Some("{query}".to_string());
    let t = VectorConfigInternal::from_config(shown);
    assert_eq!(field_slots(&t), vec![DocumentField::Template]);
    let layout = collection_layout(&vec![t.clone()]).unwrap();
    assert_eq!(layout.sparse[0].0, "template_t");
    let q = probe_query(&vec![t.clone()]);
    assert_eq!(q.settings.vector_options[0].field, Some(DocumentField::Template));
    let mut averages = vec![];
    add_default_averages(&mut averages, &vec![t]);
    assert_eq!(averages, vec![("template_t".to_string(), double(50.0))]);
    let mut none = stored("n", VectorType::FullText);
    none.index_fields = None;
    assert!(field_slots(&none).is_empty());
}

#[test]
fn payload_indexes_follow_the_declared_types() {
    let indexes = Some(vec![
        MetadataIndex { key: "a".to_string(), value_type: "string".to_string() },
        MetadataIndex { key: "b".to_string(), value_type: "datetime".to_string() },
    ]);
    assert_eq!(
        list_payload_indexes(&indexes),
        vec![
            ("tags".to_string(), FieldType::Keyword),
            ("metadata.a.value".to_string(), FieldType::Keyword),
            ("metadata.b.value".to_string(), FieldType::Datetime),
        ]
    );
    assert_eq!(list_payload_indexes(&None).len(), 1);
}

#[test]
fn waits_for_the_database_grow() {
    assert_eq!(next_wait(2), 4);
    assert_eq!(next_wait(30), 30);
}

#[test]
fn only_the_users_collections_are_listed() {
    assert_eq!(
        user_collections(&strings(&["amgix_a", "amgix_sys_meta", "other"])),
        strings(&["amgix_a"])
    );
    assert_ne!(config_point_id("c"), stats_point_id("c"));
}

#[test]
fn documents_come_in_the_order_asked_for() {
    let found = vec![point_id_text("b"), point_id_text("a")];
    let ids = strings(&["a", "x", "b"]);
    assert_eq!(order_documents(&found, &ids, true).unwrap(), vec![Some(1), None, Some(0)]);
    assert!(order_documents(&found, &ids, false).is_err());
    let twice = vec![ids[0].clone(), ids[0].clone()];
    assert_eq!(order_documents(&found, &twice, false).unwrap(), vec![Some(1), Some(1)]);
    assert!(check_document_found(true, "a", "c").is_ok());
    assert!(matches!(check_document_found(false, "a", "c"), Err(DbError::NotFound(_))));
}

#[test]
fn models_are_validated_by_a_probe() {
    let mut d = stored("d", VectorType::DenseModel);
    d.index_fields = Some(vec![DocumentField::Content]);
    let q = probe_query(&vec![stored("d", VectorType::DenseModel)]);
    assert_eq!(q.settings.vector_options.len(), 1);
    let vectors = vec![VectorData {
        vector_name: "d".to_string(),
        field: DocumentField::Content,
        vector_type: VectorType::DenseModel,
        dense_vector: Some(vec![0, 0, 0]),
        sparse_indices: None,
        sparse_values: None,
    }];
    let r = summarize_models(&vec![d], Ok(vectors));
    let results = r.results.unwrap();
    assert_eq!(results[0].1.dimension, Some(3));
    let r = summarize_models(&vec![], Err("e".to_string()));
    assert_eq!(r.error.as_deref(), Some("e"));
}

#[test]
fn templates_render_documents_and_queries() {
    assert!(validate_doc_template("{name}: {.meta.k}").is_ok());
    assert_eq!(validate_doc_template("").unwrap_err(), "doc_template cannot be empty");
    assert!(validate_doc_template("no placeholder").is_err());
    assert!(validate_doc_template("{title}").is_err());
    assert!(validate_query_template("find {query}").is_ok());
    assert!(validate_query_template("{query} {query}").is_err());
    let mut d = document("a");
    d.name = Some("N".to_string());
    d.metadata = Some(vec![("k".to_string(), amgix_now::json::JsonValue::Bool(true))]);
    assert_eq!(render_doc_template("{name}: {.meta.k}!", &d).unwrap(), "N: true!");
    assert_eq!(render_doc_template("{content}: {description}", &d).unwrap(), "");
    assert_eq!(render_query_template("find {query}", "x{query}"), "find x{query}");
}

#[test]
fn searches_look_in_a_vectors_fields() {
    let v = stored("v", VectorType::FullText);
    assert_eq!(resolve_search_field(&v, Some(DocumentField::Content)), Ok(DocumentField::Content));
    assert_eq!(
        resolve_search_field(&v, Some(DocumentField::Name)).unwrap_err(),
        "Field 'name' is not configured for vector 'v'. Available fields: [\"content\"]"
    );
    assert_eq!(
        resolve_search_field(&v, None).unwrap_err(),
        "field is required for vector 'v' (not template-based)"
    );
    let mut t = stored("t", VectorType::FullText);
    t.doc_template = Some("{name}".to_string());
    assert_eq!(resolve_search_field(&t, None), Ok(DocumentField::Template));
    assert_eq!(vector_index_fields(&t), Ok(vec![DocumentField::Template]));
}
