use amgix_now::common::{DenseDistance, DocumentField, VectorType};
use amgix_now::datetime_parse::Timestamp;
use amgix_now::json::{Double, JsonNumber, JsonValue};
use amgix_now::models::{
    CustomDocumentVector, CustomVector, Document, VectorConfigInternal, VectorData,
    VectorSearchOption,
};
use amgix_now::vectors::custom::{CustomDenseVector, CustomSparseVector};
use amgix_now::vectors::custom_values::{read_dense, read_sparse};
use amgix_now::vectors::document_work::{
    finish_documents, get_field_text, plan_documents, routed_vectors, DocumentWork, RoutedEmbed,
    Vectorized,
};
use amgix_now::vectors::embedded::{vector_data, Embedded};
use amgix_now::vectors::embedders::{
    DenseModelVector, FullTextVector, NoopVector, SparseModelVector, TrigramsVector,
};
use amgix_now::vectors::model_cache::{
    choose_loader, dense_model_cache_snapshot, fallback_failure, hf_architecture,
    is_hub_not_found, is_trusted_model, local_layouts, model_cache_size, no_layout_text,
    static_layouts,
    trust_enabled, trusted_organizations, CacheStep, Loader, ModelCache, Permits,
};
use amgix_now::vectors::query_work::{
    check_batch, collect_vectors, default_count, default_options, finish_queries, item_failure,
    plan_queries, query_work, spread_ready, QueryWork,
};
use amgix_now::vectors::st_pooling::{StPoolingConfig, StPoolingMode};
use amgix_now::vectors::vector_base::{
    count_tokens, dedup_sparse, get_language_code, get_token, hash_token, preprocess_text,
    preprocess_text_keep_case, top_k, validate_text, TokenWeight,
};
use amgix_now::vectors::vectorizer::{
    attach_vectors, chunk_size, embed_dims, embed_events, merge_results, route_embed_dispatch,
    Embedder,
};

fn strings(v: &[&str]) -> Vec<String> {
    v.iter().map(|s| s.to_string()).collect()
}

fn double(x: f64) -> Double {
    Double { bits: x.to_bits() }
}

fn text(s: &str) -> JsonValue {
    JsonValue::Text(s.to_string())
}

fn unsigned(n: u64) -> JsonValue {
    JsonValue::Number(JsonNumber::Unsigned(n, double(n as f64)))
}

fn negative(n: i64) -> JsonValue {
    JsonValue::Number(JsonNumber::Negative(n, double(n as f64)))
}

fn float(x: f64) -> JsonValue {
    JsonValue::Number(JsonNumber::Float(double(x)))
}

fn list(v: Vec<JsonValue>) -> JsonValue {
    JsonValue::Array(v)
}

fn object(m: Vec<(&str, JsonValue)>) -> JsonValue {
    JsonValue::Object(m.into_iter().map(|(k, v)| (k.to_string(), v)).collect())
}

fn config(name: &str, vector_type: VectorType) -> VectorConfigInternal {
    VectorConfigInternal {
        version: 1,
        name: name.to_string(),
        vector_type,
        model: None,
        revision: None,
        query_model: None,
        query_revision: None,
        dimensions: None,
        top_k: 2,
        wmtr_word_ratio: 80,
        index_fields: Some(vec![DocumentField::Content]),
        doc_template: None,
        query_template: None,
        language_default_code: "en".to_string(),
        language_detect: false,
        language_confidence: double(0.9),
        normalization: None,
        dense_distance: DenseDistance::Cosine,
        keep_case: Some(false),
    }
}

fn document(id: &str, content: Option<&str>) -> Document {
    Document {
        id: id.to_string(),
        timestamp: Timestamp { secs: 1, nanos: 0 },
        tags: None,
        name: None,
        description: None,
        content: content.map(|s| s.to_string()),
        content_hash: None,
        metadata: None,
        custom_vectors: None,
        joined: None,
        vectors: None,
        token_lengths: vec![],
    }
}

fn bits(v: &[f32]) -> Vec<u32> {
    v.iter().map(|x| x.to_bits()).collect()
}

#[test]
fn parses_pooling_mode_array() {
    let value = object(vec![("pooling_mode", list(vec![text("cls"), text("mean")]))]);
    let cfg = StPoolingConfig::from_json_value(&value);
    assert_eq!(cfg.modes, vec![StPoolingMode::Cls, StPoolingMode::Mean]);
}

#[test]
fn legacy_bool_order_matches_st() {
    let value = object(vec![
        ("pooling_mode_cls_token", JsonValue::Bool(true)),
        ("pooling_mode_mean_tokens", JsonValue::Bool(true)),
    ]);
    let cfg = StPoolingConfig::from_json_value(&value);
    assert_eq!(cfg.modes, vec![StPoolingMode::Cls, StPoolingMode::Mean]);
}

#[test]
fn some_pooling_mode_is_always_configured() {
    assert_eq!(StPoolingConfig::from_json_value(&JsonValue::Null), StPoolingConfig::mean_only());
    let one = object(vec![("pooling_mode", text("max"))]);
    assert_eq!(StPoolingConfig::from_json_value(&one).modes, vec![StPoolingMode::Max]);
    assert!(!StPoolingConfig::for_classifier(&JsonValue::Null).modes.is_empty());
    assert_eq!(StPoolingConfig::cls_only().modes, vec![StPoolingMode::Cls]);
}

#[test]
fn texts_are_tidied_before_they_are_cut_into_tokens() {
    assert_eq!(preprocess_text("  Hello,\t WORLD \n"), "hello, world");
    assert_eq!(preprocess_text_keep_case("  Hello,\t WORLD "), "Hello, WORLD");
    assert_eq!(preprocess_text(&preprocess_text(" A  B ")), preprocess_text(" A  B "));
    assert!(validate_text("x") && validate_text(" ") && !validate_text(""));
}

#[test]
fn tokens_are_positive_hashes() {
    for feature in ["hello", "", "café"] {
        let h = murmurhash3::murmurhash3_x86_32(feature.as_bytes(), 0);
        assert_eq!(get_token(feature), hash_token(h));
        assert_eq!(hash_token(h), (h as i32).unsigned_abs());
    }
    assert_ne!(get_token("hello"), get_token("world"));
}

#[test]
fn tokens_are_counted_and_the_heaviest_kept() {
    let counts = count_tokens(&strings(&["a", "b", "a"]));
    assert_eq!(counts.len(), 2);
    assert_eq!(counts.iter().map(|c| c.count).sum::<usize>(), 3);
    let w = |token, weight: f32| TokenWeight { token, weight: weight.to_bits() };
    let (tokens, weights) = top_k(vec![w(1, 0.5), w(2, 2.0), w(3, 1.0)], 2);
    assert_eq!(tokens, vec![2, 3]);
    assert_eq!(weights, bits(&[2.0, 1.0]));
    let groups = dedup_sparse(&vec![7, 3, 7], 3);
    assert_eq!(groups.len(), 2);
    let seven = groups.iter().find(|g| g.index == 7).unwrap();
    assert_eq!(seven.members, vec![0, 2]);
    assert_eq!(get_language_code(&config("v", VectorType::FullText)).unwrap(), "en");
}

#[test]
fn dense_values_are_read_as_serde_reads_them() {
    assert_eq!(read_dense(&list(vec![unsigned(1), float(0.1)])), Ok(bits(&[1.0, 0.1])));
    assert_eq!(read_dense(&list(vec![float(1e300)])), Ok(bits(&[f32::INFINITY])));
    let reading = |s: &str| {
        let v: serde_json::Value = serde_json::from_str(s).unwrap();
        serde_json::from_value::<Vec<f32>>(v).unwrap_err().to_string()
    };
    assert_eq!(read_dense(&list(vec![text("x")])), Err(reading(r#"["x"]"#)));
    assert_eq!(read_dense(&list(vec![JsonValue::Null])), Err(reading("[null]")));
    assert_eq!(read_dense(&list(vec![list(vec![])])), Err(reading("[[]]")));
    assert_eq!(read_dense(&list(vec![object(vec![])])), Err(reading("[{}]")));
    assert_eq!(read_dense(&list(vec![JsonValue::Bool(true)])), Err(reading("[true]")));
    assert_eq!(read_dense(&text("x")), Err(reading(r#""x""#)));
}

#[test]
fn sparse_values_are_read_as_serde_reads_them() {
    let pair = |a, b| list(vec![a, b]);
    assert_eq!(
        read_sparse(&list(vec![pair(unsigned(3), float(0.5)), pair(unsigned(1), unsigned(2))])),
        Ok((vec![3, 1], bits(&[0.5, 2.0])))
    );
    let reading = |s: &str| {
        let v: serde_json::Value = serde_json::from_str(s).unwrap();
        serde_json::from_value::<Vec<(u32, f32)>>(v).unwrap_err().to_string()
    };
    assert_eq!(
        read_sparse(&list(vec![pair(unsigned(4294967296), unsigned(1))])),
        Err(reading("[[4294967296, 1]]"))
    );
    assert_eq!(
        read_sparse(&list(vec![pair(negative(-1), unsigned(1))])),
        Err(reading("[[-1, 1]]"))
    );
    assert_eq!(
        read_sparse(&list(vec![pair(float(1.5), unsigned(1))])),
        Err(reading("[[1.5, 1]]"))
    );
    assert_eq!(read_sparse(&list(vec![list(vec![])])), Err(reading("[[]]")));
    assert_eq!(read_sparse(&list(vec![list(vec![unsigned(1)])])), Err(reading("[[1]]")));
    assert_eq!(
        read_sparse(&list(vec![list(vec![unsigned(1), unsigned(1), unsigned(1)])])),
        Err(reading("[[1, 1, 1]]"))
    );
    assert_eq!(read_sparse(&list(vec![unsigned(1)])), Err(reading("[1]")));
}

#[test]
fn custom_vectors_must_fit() {
    let mut dense = config("d", VectorType::DenseCustom);
    dense.dimensions = Some(2);
    let custom = |v: JsonValue| vec![CustomVector { vector_name: "d".to_string(), vector: v }];
    let two = || list(vec![unsigned(1), unsigned(2)]);
    assert_eq!(
        CustomDenseVector::extract_for_query(&dense, &custom(two())),
        Ok(Embedded::Dense(bits(&[1.0, 2.0])))
    );
    assert_eq!(
        CustomDenseVector::extract_for_query(&dense, &custom(list(vec![unsigned(1)]))),
        Err("Custom dense vector 'd' has 1 dimensions, expected 2".to_string())
    );
    assert_eq!(
        CustomDenseVector::extract_for_query(&dense, &vec![]),
        Err("Custom dense vector 'd' not provided in query".to_string())
    );
    let sparse = config("s", VectorType::SparseCustom);
    let entry = |i| list(vec![unsigned(i), unsigned(1)]);
    let many = list(vec![entry(1), entry(2), entry(3)]);
    assert_eq!(
        CustomSparseVector::extract_for_query(
            &sparse,
            &vec![CustomVector { vector_name: "s".to_string(), vector: many }]
        ),
        Err("Custom sparse vector 's' has 3 entries, max allowed: 2".to_string())
    );
    let mut d = document("a", None);
    assert_eq!(
        CustomDenseVector::extract_for_documents(&dense, &vec![document("a", None)]),
        Err("Custom dense vector 'd' requires custom vectors but document has none".to_string())
    );
    d.custom_vectors = Some(vec![CustomDocumentVector {
        vector_name: "d".to_string(),
        vector: two(),
        field: DocumentField::Content,
    }]);
    assert_eq!(
        CustomDenseVector::extract_for_documents(&dense, &vec![d]),
        Ok(vec![vec![Embedded::Dense(bits(&[1.0, 2.0]))]])
    );
}

#[test]
fn document_texts_are_planned_and_finished() {
    let c = config("v", VectorType::FullText);
    let docs = vec![document("a", Some("x")), document("b", None)];
    assert_eq!(get_field_text(&docs[1], DocumentField::Content), "");
    let table = Some(vec![("content_v".to_string(), double(7.0))]);
    assert_eq!(
        plan_documents(&c, &docs, &table),
        Ok(DocumentWork::Embed {
            texts: strings(&["x", ""]),
            averages: Some(vec![double(7.0), double(7.0)]),
        })
    );
    assert!(plan_documents(&c, &docs, &None).is_err());
    assert!(plan_documents(&c, &docs, &Some(vec![])).unwrap_err().contains("Missing avgdl_dict"));
    let routed = RoutedEmbed::Sparse(vec![(vec![1, 2], bits(&[1.0, 2.0])), (vec![], vec![])]);
    let done = finish_documents(&c, 2, Ok(routed)).unwrap();
    assert_eq!(done.vectors.len(), 2);
    assert_eq!(done.vectors[0][0].sparse_indices, Some(vec![1, 2]));
    assert_eq!(done.token_lengths[0], vec![("content_v".to_string(), 2)]);
    let e = finish_documents(&c, 2, Err("why".to_string())).unwrap_err();
    assert!(e.starts_with("Failed to generate vector 'v' for fields") && e.ends_with(": why"));
    assert_eq!(
        routed_vectors(RoutedEmbed::Dense(vec![vec![1]])),
        vec![Embedded::Dense(vec![1])]
    );
}

#[test]
fn vectors_are_attached_to_their_documents() {
    let c = config("v", VectorType::Trigrams);
    let data = || vector_data(&c, DocumentField::Content, Embedded::Sparse(vec![1], bits(&[1.0])));
    let v = |n: usize| Vectorized { vectors: vec![vec![data()]], token_lengths: vec![vec![("t".to_string(), n)]] };
    let merged = merge_results(1, vec![Ok(v(1)), Ok(v(2))]).unwrap();
    assert_eq!(merged.vectors[0].len(), 2);
    assert_eq!(merge_results(1, vec![Ok(v(1)), Err("e".to_string())]), Err("e".to_string()));
    let docs = attach_vectors(vec![document("a", None)], merged);
    assert_eq!(docs[0].vectors.as_ref().unwrap().len(), 2);
    assert_eq!(chunk_size(1, 1), 1);
    assert!(chunk_size(10, 3) * 3 >= 10);
}

#[test]
fn vectors_are_made_by_their_type() {
    let route = |t, averages| route_embed_dispatch(&config("v", t), averages);
    assert_eq!(route(VectorType::Noop, true), Ok(Embedder::Noop));
    assert_eq!(
        route(VectorType::Noop, false),
        Err("avgdl entries required for custom tokenization vector 'v' (Noop)".to_string())
    );
    assert_eq!(route(VectorType::FullText, true), Ok(Embedder::FullText));
    assert!(route(VectorType::FullText, false).is_err());
    assert_eq!(route(VectorType::DenseModel, false), Ok(Embedder::DenseModel));
    assert!(route(VectorType::DenseCustom, true).is_err());
    assert_ne!(embed_events(true), embed_events(false));
    assert!(!embed_dims(&config("v", VectorType::Noop)).is_empty());
}

#[test]
fn embedders_plan_their_work() {
    assert_eq!(NoopVector::get_dense_vector(), "NoopVector only supports sparse vectors");
    let (i, v) = NoopVector::get_sparse_vector_single();
    assert_eq!(i.len(), v.len());
    let c = config("v", VectorType::FullText);
    let plan = FullTextVector::plan(&c, "x").unwrap().unwrap();
    assert_eq!((plan.language.as_deref(), plan.top_k), (Some("en"), 2));
    assert_eq!(FullTextVector::plan(&c, ""), Ok(None));
    assert!(TrigramsVector::plan(&c, "x").is_some() && TrigramsVector::plan(&c, "").is_none());
    assert_eq!(
        DenseModelVector::plan(&c),
        Err("DenseModelVector requires 'model' to be specified in VectorConfig".to_string())
    );
    let mut m = config("v", VectorType::DenseModel);
    m.model = Some("org/m".to_string());
    m.normalization = Some(true);
    assert_eq!(DenseModelVector::plan(&m), Ok(("org/m".to_string(), true)));
    assert_eq!(
        SparseModelVector::plan(&c, &vec![]),
        Err("SparseModelVector requires 'model' to be specified in VectorConfig".to_string())
    );
    let scores = bits(&[0.0, 3.0, 1.0, 2.0]);
    assert_eq!(SparseModelVector::select(&scores, &vec![1], 2), (vec![3, 2], bits(&[2.0, 1.0])));
}

fn option(name: &str, field: Option<DocumentField>, weight: f64) -> VectorSearchOption {
    VectorSearchOption {
        vector_name: name.to_string(),
        weight: double(weight),
        field,
        wmtr_trigram_weight: double(0.5),
    }
}

#[test]
fn queries_are_embedded_for_the_fields_asked_for() {
    let configs = vec![config("v", VectorType::FullText), config("w", VectorType::Trigrams)];
    let mut options = vec![];
    let items = plan_queries(&mut options, &configs, double(0.5)).unwrap();
    assert_eq!(options.len(), default_count(&configs));
    assert_eq!(options.len(), default_options(&configs, double(0.5)).len());
    assert_eq!(items.len(), 2);
    assert_eq!(items[0].fields, vec![DocumentField::Content]);
    let mut options = vec![option("w", Some(DocumentField::Content), 1.0)];
    let items = plan_queries(&mut options, &configs, double(0.5)).unwrap();
    assert_eq!(items.len(), 1);
    assert_eq!(items[0].config, 1);
    let mut options = vec![option("x", None, 1.0)];
    assert_eq!(
        plan_queries(&mut options, &configs, double(0.5)).unwrap_err(),
        "Vector configuration 'x' not found. Available vectors: v, w"
    );
    assert_eq!(
        check_batch(&vec![], &configs, false).as_deref(),
        Some("Search query batch cannot be empty")
    );
    assert_eq!(
        check_batch(&strings(&[""]), &configs, false).as_deref(),
        Some("Search query cannot be empty")
    );
    assert_eq!(check_batch(&strings(&["q"]), &configs, true), None);
    assert!(check_batch(&strings(&["q"]), &vec![config("d", VectorType::DenseCustom)], true)
        .is_some());
}

#[test]
fn template_vectors_are_made_of_rendered_texts() {
    let mut c = config("t", VectorType::FullText);
    c.index_fields = None;
    c.doc_template = Some("<{content}>".to_string());
    c.query_template = Some("find {query}".to_string());
    let docs = vec![document("a", Some("x")), document("b", None)];
    let table = Some(vec![("template_t".to_string(), double(7.0))]);
    assert_eq!(
        plan_documents(&c, &docs, &table),
        Ok(DocumentWork::Embed {
            texts: strings(&["<x>", ""]),
            averages: Some(vec![double(7.0), double(7.0)]),
        })
    );
    let routed = RoutedEmbed::Sparse(vec![(vec![1], bits(&[1.0])), (vec![], vec![])]);
    let done = finish_documents(&c, 2, Ok(routed)).unwrap();
    assert_eq!(done.vectors[0].len(), 1);
    assert_eq!(done.vectors[0][0].field, DocumentField::Template);
    assert_eq!(done.token_lengths[0], vec![("template_t".to_string(), 1)]);
    let options = default_options(&vec![c.clone()], double(1.0));
    assert_eq!(options[0].field, Some(DocumentField::Template));
    match query_work(&c, &strings(&["x", "y"]), &None, false) {
        Ok(QueryWork::Embed { texts, .. }) => {
            assert_eq!(texts, strings(&["find x", "find y"]));
        }
        other => panic!("unexpected {other:?}"),
    }
    c.doc_template = Some("{title}".to_string());
    assert_eq!(
        plan_documents(&c, &docs, &table).unwrap_err(),
        "Failed to generate vector 't' for fields \"template\": Unexpected doc template placeholder '{title}'"
    );
}

#[test]
fn query_vectors_are_collected_by_query() {
    let c = config("v", VectorType::FullText);
    let texts = strings(&["q"]);
    match query_work(&c, &texts, &None, false) {
        Ok(QueryWork::Embed { texts: own, .. }) => assert_eq!(own, texts),
        other => panic!("unexpected {other:?}"),
    }
    let d = config("d", VectorType::DenseCustom);
    assert_eq!(
        query_work(&d, &texts, &None, false),
        Err("Custom dense vector 'd' requires custom vectors but query has none".to_string())
    );
    let fields = vec![DocumentField::Content];
    let routed = RoutedEmbed::Sparse(vec![(vec![1], bits(&[1.0])), (vec![2], bits(&[1.0]))]);
    let rows = finish_queries(&c, &fields, 2, routed).unwrap();
    assert_eq!(rows.len(), 2);
    assert_eq!(rows[1][0].sparse_indices, Some(vec![2]));
    assert!(finish_queries(&c, &fields, 2, RoutedEmbed::Dense(vec![])).is_err());
    assert!(finish_queries(&c, &fields, 2, RoutedEmbed::Sparse(vec![])).is_err());
    let ready = spread_ready(&c, &fields, 2, &Some(Embedded::Sparse(vec![9], bits(&[1.0]))));
    assert_eq!(ready.len(), 2);
    let all: Vec<Vec<VectorData>> = collect_vectors(2, vec![rows, ready]);
    assert_eq!(all[0].len(), 2);
    assert_eq!(all[1][1].sparse_indices, Some(vec![9]));
    assert_eq!(item_failure("v", "e"), "Failed to generate vector 'v': e");
}

#[test]
fn the_least_recently_used_model_makes_room() {
    let mut cache = ModelCache::new(2);
    let load = |cache: &mut ModelCache, m: &str, handle, now| {
        assert_eq!(cache.get_or_load(m, &None, &None, now), CacheStep::Load);
        cache.on_loaded(m, &None, handle, now)
    };
    load(&mut cache, "a", 1, 1);
    load(&mut cache, "b", 2, 2);
    assert_eq!(cache.get_or_load("a", &None, &None, 3), CacheStep::Hit(1));
    load(&mut cache, "c", 3, 4);
    assert_eq!(cache.get_or_load("a", &None, &None, 5), CacheStep::Hit(1));
    assert_eq!(cache.get_or_load("b", &None, &None, 6), CacheStep::Load);
    assert_eq!(cache.get_or_load("b", &None, &None, 6), CacheStep::Wait);
    cache.on_failed("b", &None);
    assert_eq!(cache.get_or_load("b", &None, &None, 6), CacheStep::Load);
    let trusted = Some(strings(&["org"]));
    assert!(matches!(cache.get_or_load("x/m", &None, &trusted, 7), CacheStep::Refused(_)));
    assert_eq!(cache.snapshot().len(), 2);
    assert!(dense_model_cache_snapshot(&None).is_empty());
    assert_eq!(dense_model_cache_snapshot(&Some(cache)).len(), 2);
}

#[test]
fn models_are_trusted_by_organization() {
    assert!(is_trusted_model("org/m", &strings(&["org"])));
    assert!(!is_trusted_model("other/m", &strings(&["org"])));
    assert!(trust_enabled(Some("TRUE")) && !trust_enabled(Some("1")) && !trust_enabled(None));
    assert_eq!(trusted_organizations(false, Some("a")), None);
    assert!(trusted_organizations(true, Some("# c\norg\n\nother ")).is_some());
    assert_eq!(model_cache_size(Some("7")), 7);
    assert_eq!(model_cache_size(None), model_cache_size(Some("x")));
}

#[test]
fn loaders_follow_the_architecture() {
    let c = object(vec![("architectures", list(vec![text("BertModel")]))]);
    assert_eq!(hf_architecture(&c).as_deref(), Some("BertModel"));
    assert_eq!(hf_architecture(&JsonValue::Null), None);
    assert_eq!(choose_loader(&Some("BertModel".to_string())), Loader::Bert);
    assert_eq!(choose_loader(&Some("ModernBertForMaskedLM".to_string())), Loader::ModernBert);
    assert_eq!(choose_loader(&Some("StaticModel".to_string())), Loader::Static);
    assert_eq!(choose_loader(&Some("X".to_string())), Loader::Generic("X".to_string()));
    assert_eq!(
        fallback_failure("m", "a", "b"),
        "Failed to load model 'm': a; static/model2vec fallback also failed: b"
    );
    assert!(is_hub_not_found("status code 404") && !is_hub_not_found("timeout"));
    assert_eq!(static_layouts()[2].model, "0_StaticEmbedding/model.safetensors");
    assert_eq!(local_layouts(false).len(), 3);
    let local = local_layouts(true);
    assert!(!local[2].config_in_parent && local[3].config_in_parent);
    assert_eq!(local[3].files.config, "config_sentence_transformers.json");
    assert_eq!(local[3].files.model, "model.safetensors");
    assert_ne!(no_layout_text("m", true), no_layout_text("m", false));
}

#[test]
fn permits_are_given_back() {
    let mut p = Permits::new(1);
    assert!(p.acquire() && !p.acquire());
    p.release();
    assert!(p.acquire());
}
