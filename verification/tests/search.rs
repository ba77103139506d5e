use amgix_now::common::{DenseDistance, DocumentField, SearchExcludeField, VectorType};
use amgix_now::datetime_parse::Timestamp;
use amgix_now::encoder::SearchError;
use amgix_now::filter_parser::parse_filter;
use amgix_now::fusion::{
    gather_hits, list_hits, place_results, rank_fused, Fused, Hit, ScoredId,
};
use amgix_now::group_run::{GroupAction, GroupRun};
use amgix_now::join_parser::{parse_join, JoinField};
use amgix_now::json::{Double, JsonNumber, JsonValue};
use amgix_now::models::{
    CollectionConfigInternal, Document, FacetOptions, MetadataFilter, MetadataIndex,
    SearchOutcome, SearchQuery, SearchQuerySettings, SearchResult, VectorConfigInternal,
    VectorSearchOption,
};
use amgix_now::payload::StoredValue;
use amgix_now::qdrant::DbError;
use amgix_now::query_settings::{gather_buckets, same_settings, SearchJob};
use amgix_now::query_validation::{
    normalize_search_query_python, validate_search_query, FacetLimits,
};
use amgix_now::search_facet::{
    compute_facet_counts, facet_value_key, required_fields_for_facets, FacetCount,
};
use amgix_now::search_filter::{
    build_search_filter, convert_metadata_filter, convert_metadata_node, Condition, RangeOp,
    StoreFilter,
};
use amgix_now::search_group::{
    apply_group_cap, build_group_exclusion_filter, required_fields_for_group,
    validate_group_field,
};
use amgix_now::search_join::{
    assign_children, collect_join_values, document_join_value, document_matches_metadata_filter,
    join_config_error, matching_children, max_documents, parse_join_field_validated, plan_fetch,
    required_fields_for_joins, validate_join_spec, JoinFetch,
};
use amgix_now::search_run::{
    search_queue_full, search_worker_gone, SearchAction, SearchPhase, SearchRun,
};

fn double(x: f64) -> Double {
    Double { bits: x.to_bits() }
}

fn text(s: &str) -> JsonValue {
    JsonValue::Text(s.to_string())
}

fn unsigned(n: u64) -> JsonValue {
    JsonValue::Number(JsonNumber::Unsigned(n, double(n as f64)))
}

fn strings(v: &[&str]) -> Vec<String> {
    v.iter().map(|s| s.to_string()).collect()
}

fn indexes(v: &[(&str, &str)]) -> Option<Vec<MetadataIndex>> {
    Some(
        v.iter()
            .map(|(k, t)| MetadataIndex { key: k.to_string(), value_type: t.to_string() })
            .collect(),
    )
}

fn collection(v: &[(&str, &str)]) -> CollectionConfigInternal {
    CollectionConfigInternal {
        version: 1,
        collection_id: "id".to_string(),
        vectors: vec![],
        store_content: true,
        metadata_indexes: indexes(v),
    }
}

fn document(id: &str, metadata: Vec<(&str, JsonValue)>) -> Document {
    Document {
        id: id.to_string(),
        timestamp: Timestamp { secs: 1, nanos: 0 },
        tags: None,
        name: None,
        description: None,
        content: None,
        content_hash: None,
        metadata: Some(metadata.into_iter().map(|(k, v)| (k.to_string(), v)).collect()),
        custom_vectors: None,
        joined: None,
        vectors: None,
        token_lengths: vec![],
    }
}

fn settings() -> SearchQuerySettings {
    SearchQuerySettings {
        vector_options: vec![],
        custom_vectors: None,
        limit: 10,
        score_threshold: None,
        document_tags: None,
        document_tags_match_all: false,
        metadata_filter: None,
        raw_scores: false,
        fusion_mode: "rrf".to_string(),
        join: None,
        exclude: None,
        group_field: None,
        group_max: 3,
        group_max_fetches: 2,
        facets: false,
        facet_options: None,
    }
}

fn keyword(key: &str, text: &str) -> Condition {
    Condition::Keyword { key: key.to_string(), text: text.to_string() }
}

fn plain(must: Vec<Condition>) -> StoreFilter {
    StoreFilter { must, should: vec![], must_not: vec![] }
}

/// Sums reciprocal ranks and raw scores per point, list by list.
fn sum_by_rank(arms: &Vec<Vec<ScoredId>>, weights: &[f64], k: f64) -> Vec<Fused> {
    let hits = list_hits(arms);
    gather_hits(&hits)
        .into_iter()
        .map(|g| {
            let mut score = 0.0;
            let mut raw = 0.0;
            for &p in &g.members {
                score += weights[hits[p].arm] / (k + hits[p].rank as f64);
                raw += f64::from_bits(hits[p].score.bits);
            }
            Fused { id: g.name, score: double(score), raw: double(raw) }
        })
        .collect()
}

fn arm(v: &[(&str, f64)]) -> Vec<ScoredId> {
    v.iter().map(|(i, s)| ScoredId { id: i.to_string(), score: double(*s) }).collect()
}

#[test]
fn tie_breaks_on_raw_sum_then_id() {
    let weights = [1.0, 1.0];
    let scored_lists = vec![arm(&[("b", 0.9), ("a", 0.1)]), arm(&[("a", 0.5), ("b", 0.4)])];
    let out = rank_fused(sum_by_rank(&scored_lists, &weights, 2.0), 10, None);
    assert_eq!(out.len(), 2);
    let score = |f: &Fused| f64::from_bits(f.score.bits);
    assert!((score(&out[0]) - score(&out[1])).abs() < 1e-12);
    assert_eq!(out[0].id, "b");
    assert_eq!(out[1].id, "a");

    let scored_equal = vec![arm(&[("b", 0.5), ("a", 0.5)]), arm(&[("a", 0.5), ("b", 0.5)])];
    let out2 = rank_fused(sum_by_rank(&scored_equal, &weights, 2.0), 10, None);
    assert_eq!(out2[0].id, "a");
    assert_eq!(out2[1].id, "b");
}

#[test]
fn fused_points_reach_the_threshold_and_the_limit() {
    let items = || {
        vec![
            Fused { id: "a".to_string(), score: double(0.1), raw: double(0.0) },
            Fused { id: "b".to_string(), score: double(0.3), raw: double(0.0) },
            Fused { id: "c".to_string(), score: double(0.2), raw: double(0.0) },
        ]
    };
    let ids = |v: Vec<Fused>| v.into_iter().map(|f| f.id).collect::<Vec<_>>();
    assert_eq!(ids(rank_fused(items(), 10, Some(double(0.2)))), strings(&["b", "c"]));
    assert_eq!(ids(rank_fused(items(), 1, None)), strings(&["b"]));
    assert!(rank_fused(items(), 0, None).is_empty());
}

#[test]
fn results_show_where_they_were_found() {
    let arms = vec![arm(&[("p", 0.9)]), arm(&[("q", 0.8), ("p", 0.7)])];
    let hits = list_hits(&arms);
    assert_eq!(
        hits[2],
        Hit { id: "p".to_string(), arm: 1, rank: 2, score: double(0.7) }
    );
    let fused = vec![Fused { id: "p".to_string(), score: double(1.0), raw: double(1.6) }];
    let names = strings(&["content_a", "name_b"]);
    let placed = place_results(&fused, &hits, &names, true);
    assert_eq!(placed.len(), 1);
    assert_eq!(hits[placed[0].hit].id, "p");
    let scores = &placed[0].vector_scores;
    assert_eq!(scores.len(), 2);
    assert_eq!((scores[1].field.as_str(), scores[1].vector.as_str()), ("name", "b"));
    assert_eq!((scores[1].rank, scores[1].score), (2, double(0.7)));
    assert!(place_results(&fused, &hits, &names, false)[0].vector_scores.is_empty());
}

#[test]
fn comparisons_become_conditions() {
    let none = None;
    let node = |s: &str| convert_metadata_node(&parse_filter(s).unwrap(), &none);
    assert_eq!(node(r#"a = "x""#), Some(keyword("metadata.a.value", "x")));
    assert_eq!(
        node("a = 5"),
        Some(Condition::Integer { key: "metadata.a.value".to_string(), number: 5 })
    );
    assert_eq!(
        node("a = true"),
        Some(Condition::Boolean { key: "metadata.a.value".to_string(), flag: true })
    );
    assert_eq!(
        node("a >= 1.5"),
        Some(Condition::Range {
            key: "metadata.a.value".to_string(),
            op: RangeOp::Gte,
            bound: double(1.5),
        })
    );
    let dated = indexes(&[("t", "datetime")]);
    let f = parse_filter(r#"t < "2024-01-01T00:00:00Z""#).unwrap();
    assert_eq!(
        convert_metadata_node(&f, &dated),
        Some(Condition::DatetimeRange {
            key: "metadata.t.value".to_string(),
            op: RangeOp::Lt,
            instant: Some(Timestamp { secs: 1_704_067_200, nanos: 0 }),
        })
    );
    for (value, secs) in [
        ("2024-01-01", 1_704_067_200),
        (" 2024-01-01T00:00:00 ", 1_704_067_200),
        ("2024-01-01 01:00:00 +0200", 1_704_063_600),
    ] {
        let f = MetadataFilter::comparison("t", "gte", text(value));
        assert_eq!(
            convert_metadata_node(&f, &dated),
            Some(Condition::DatetimeRange {
                key: "metadata.t.value".to_string(),
                op: RangeOp::Gte,
                instant: Some(Timestamp { secs, nanos: 0 }),
            })
        );
    }
    let f = parse_filter(r#"t > "soon""#).unwrap();
    assert_eq!(
        convert_metadata_node(&f, &dated),
        Some(Condition::DatetimeRange {
            key: "metadata.t.value".to_string(),
            op: RangeOp::Gt,
            instant: None,
        })
    );
    assert_eq!(convert_metadata_node(&MetadataFilter::is_null("a"), &none), None);
    assert_eq!(convert_metadata_node(&MetadataFilter::empty(), &none), None);
}

#[test]
fn combinations_become_filters() {
    let none = None;
    let f = parse_filter(r#"a = "x" AND NOT b = "y""#).unwrap();
    assert_eq!(
        convert_metadata_filter(&f, &none),
        Some(plain(vec![
            keyword("metadata.a.value", "x"),
            Condition::Nested {
                must: vec![],
                should: vec![],
                must_not: vec![keyword("metadata.b.value", "y")],
            },
        ]))
    );
    let f = parse_filter(r#"a = "x""#).unwrap();
    assert_eq!(
        convert_metadata_filter(&f, &none),
        Some(plain(vec![keyword("metadata.a.value", "x")]))
    );
}

#[test]
fn tags_and_metadata_are_filtered_together() {
    assert_eq!(build_search_filter(&settings(), &None), None);
    let mut s = settings();
    s.document_tags = Some(strings(&["p", "q"]));
    let any = Condition::Keywords { key: "tags".to_string(), texts: strings(&["p", "q"]) };
    assert_eq!(build_search_filter(&s, &None), Some(plain(vec![any])));
    s.document_tags_match_all = true;
    assert_eq!(
        build_search_filter(&s, &None),
        Some(plain(vec![keyword("tags", "p"), keyword("tags", "q")]))
    );
    s.metadata_filter = Some(parse_filter(r#"a = "x""#).unwrap());
    let nested = |must| Condition::Nested { must, should: vec![], must_not: vec![] };
    assert_eq!(
        build_search_filter(&s, &None),
        Some(plain(vec![
            nested(vec![keyword("tags", "p"), keyword("tags", "q")]),
            nested(vec![keyword("metadata.a.value", "x")]),
        ]))
    );
}

#[test]
fn facet_values_have_one_text_each() {
    let key = |v: StoredValue, t: &str| facet_value_key(&v, t);
    let integer = |i: i64| StoredValue::Integer(i, double(i as f64));
    let number = |x: f64| StoredValue::Number(double(x));
    let word = || StoredValue::Text("x".to_string());
    assert_eq!(key(integer(-3), "integer").as_deref(), Some("-3"));
    assert_eq!(key(number(3.9), "integer").as_deref(), Some("3"));
    assert_eq!(key(number(-3.9), "integer").as_deref(), Some("-3"));
    assert_eq!(key(number(1e300), "integer"), Some(i64::MAX.to_string()));
    assert_eq!(key(number(f64::NAN), "integer").as_deref(), Some("0"));
    assert_eq!(key(integer(3), "float").as_deref(), Some("3.0"));
    assert_eq!(key(number(1e-7), "float"), Some(format!("{:?}", 1e-7)));
    assert_eq!(key(StoredValue::Bool(true), "boolean").as_deref(), Some("true"));
    assert_eq!(key(word(), "datetime").as_deref(), Some("x"));
    assert_eq!(key(word(), "integer"), None);
    assert_eq!(key(StoredValue::Null, "string"), None);
}

#[test]
fn facets_count_the_most_frequent_values() {
    let point = |v: &str| {
        vec![(
            "metadata".to_string(),
            StoredValue::Struct(vec![("k".to_string(), StoredValue::Text(v.to_string()))]),
        )]
    };
    let points = vec![point("b"), point("a"), point("c"), point("b"), point("c"), vec![]];
    let fields = vec![("k".to_string(), "string".to_string())];
    let r = compute_facet_counts(&points, &fields, 2);
    assert_eq!(r.len(), 1);
    assert_eq!(r[0].key, "k");
    assert_eq!(
        r[0].counts,
        vec![
            FacetCount { value: "b".to_string(), count: 2 },
            FacetCount { value: "c".to_string(), count: 2 },
        ]
    );
    assert_eq!(required_fields_for_facets(true), vec![SearchExcludeField::Metadata]);
    assert!(required_fields_for_facets(false).is_empty());
}

#[test]
fn groups_are_capped_in_rank_order() {
    let values = vec![
        Some(text("x")),
        Some(text("x")),
        None,
        Some(text("x")),
        Some(text("y")),
        None,
        None,
    ];
    let cap = apply_group_cap(&values, 2, 10);
    assert_eq!(cap.selected, vec![0, 1, 2, 4, 5]);
    assert_eq!(cap.saturated, vec![0]);
    assert!(cap.null_saturated && cap.pool_exhausted);
    let cap = apply_group_cap(&values, 2, 3);
    assert_eq!(cap.selected, vec![0, 1, 2]);
    assert!(!cap.null_saturated && !cap.pool_exhausted);
}

#[test]
fn grouped_searches_fetch_until_they_have_enough() {
    let without = |v: &str| {
        MetadataFilter::negation(MetadataFilter::comparison("g", "eq", text(v)))
    };
    let groups = |v: &[&str]| v.iter().map(|g| Some(text(g))).collect::<Vec<_>>();
    let own = parse_filter("a = 1").unwrap();
    let (mut run, first) = GroupRun::start(Some(own), "g", 2, 4, 3);
    assert_eq!(first, GroupAction::Fetch(Some(parse_filter("a = 1").unwrap())));
    let next = run.on_pool(strings(&["1", "2", "3"]), groups(&["x", "x", "x"]));
    assert_eq!(
        next,
        GroupAction::Fetch(Some(MetadataFilter::all_of(vec![
            without("x"),
            parse_filter("a = 1").unwrap(),
        ])))
    );
    assert_eq!((run.ids.clone(), run.fetches), (strings(&["1", "2"]), 1));
    let next = run.on_pool(strings(&["4", "1", "4", "5"]), groups(&["y", "x", "y", "z"]));
    assert_eq!(next, GroupAction::Finish(strings(&["1", "2", "4", "5"])));
    assert_eq!(run.fetches, 2);
}

#[test]
fn grouped_searches_stop_where_fetching_is_no_use() {
    let groups = |v: &[&str]| v.iter().map(|g| Some(text(g))).collect::<Vec<_>>();
    let (mut run, first) = GroupRun::start(None, "g", 2, 4, 9);
    assert_eq!(first, GroupAction::Fetch(None));
    let next = run.on_pool(strings(&["1", "2"]), groups(&["x", "y"]));
    assert_eq!(next, GroupAction::Finish(strings(&["1", "2"])));
    let (mut run, _) = GroupRun::start(None, "g", 1, 9, 9);
    let next = run.on_pool(strings(&["1", "2"]), vec![None, None]);
    let null = MetadataFilter::negation(MetadataFilter::is_null("g"));
    assert_eq!(next, GroupAction::Fetch(Some(null)));
    assert_eq!(run.on_pool(vec![], vec![]), GroupAction::Finish(strings(&["1"])));
    let (mut run, _) = GroupRun::start(None, "g", 1, 9, 1);
    let next = run.on_pool(strings(&["1", "2"]), groups(&["x", "x"]));
    assert_eq!(next, GroupAction::Finish(strings(&["1"])));
    assert_eq!(run.fetches, 1);
}

#[test]
fn saturated_groups_are_excluded_from_the_next_round() {
    let eq = |v: JsonValue| MetadataFilter::negation(MetadataFilter::comparison("g", "eq", v));
    assert_eq!(build_group_exclusion_filter(None, "g", &vec![], false), None);
    assert_eq!(build_group_exclusion_filter(None, "g", &vec![text("x")], false), Some(eq(text("x"))));
    let existing = parse_filter("a = 1").unwrap();
    assert_eq!(
        build_group_exclusion_filter(Some(existing), "g", &vec![text("x")], true),
        Some(MetadataFilter::all_of(vec![
            eq(text("x")),
            MetadataFilter::negation(MetadataFilter::is_null("g")),
            parse_filter("a = 1").unwrap(),
        ]))
    );
    assert!(validate_group_field(&collection(&[("g", "string")]), "g").is_ok());
    assert_eq!(
        validate_group_field(&collection(&[]), "g").unwrap_err(),
        "group_field 'g' is not indexed in collection metadata_indexes"
    );
    assert!(required_fields_for_group(&None).is_empty());
    assert_eq!(
        required_fields_for_group(&Some("g".to_string())),
        vec![SearchExcludeField::Metadata]
    );
}

#[test]
fn join_values_are_collected_once() {
    let spec = parse_join("c[$.meta.ref=$$.meta.parent]").unwrap();
    let parents = vec![
        document("a", vec![("ref", text("x"))]),
        document("b", vec![("ref", text("x"))]),
        document("c", vec![("ref", JsonValue::Null)]),
        document("d", vec![]),
        document("e", vec![("ref", unsigned(2))]),
    ];
    let values = collect_join_values(&parents, &spec.parent_ref);
    assert_eq!(values, vec![text("x"), unsigned(2)]);
    assert_eq!(document_join_value(&parents[3], &spec.parent_ref), None);
    assert_eq!(plan_fetch(&spec, &values, 10), JoinFetch::ByMetadata("parent".to_string()));
    assert_eq!(plan_fetch(&spec, &values, 0), JoinFetch::Nothing);
    assert_eq!(plan_fetch(&spec, &vec![], 10), JoinFetch::Nothing);
    let by_id = parse_join("c").unwrap();
    assert_eq!(plan_fetch(&by_id, &values, 10), JoinFetch::ById(strings(&["x", "2"])));
    assert_eq!(max_documents(10, 3), 30);
    assert_eq!(max_documents(u32::MAX, 3), u32::MAX as usize);
    assert_eq!(required_fields_for_joins(&vec![spec]), vec![SearchExcludeField::Metadata]);
    assert!(required_fields_for_joins(&vec![by_id]).is_empty());
}

#[test]
fn children_share_their_parents_value() {
    let spec = parse_join("c[$id=$$.meta.parent]").unwrap();
    let result = |id: &str| SearchResult {
        document: document(id, vec![]),
        score: double(0.5),
        vector_scores: vec![],
    };
    let parents = vec![result("a"), result("b")];
    let children = vec![
        document("x", vec![("parent", text("b"))]),
        document("y", vec![("parent", text("z"))]),
        document("z", vec![("parent", text("b"))]),
    ];
    assert_eq!(assign_children(&parents, &children, &spec), vec![vec![], vec![0, 2]]);
}

#[test]
fn joins_need_indexed_keys() {
    let spec = parse_join("c[$id=$$.meta.parent]").unwrap();
    assert!(validate_join_spec(&spec, &collection(&[("parent", "string")])).is_ok());
    assert_eq!(
        validate_join_spec(&spec, &collection(&[])),
        Err(SearchError::InvalidFilter(
            "Join child collection 'c' has no metadata_indexes; cannot join on metadata key 'parent'"
                .to_string()
        ))
    );
    assert_eq!(
        validate_join_spec(&spec, &collection(&[("other", "string")])),
        Err(SearchError::InvalidFilter(
            "Join child metadata key 'parent' is not indexed in collection 'c'".to_string()
        ))
    );
    assert_eq!(
        join_config_error(DbError::NotFound("x".to_string()), "c"),
        SearchError::InvalidFilter("Join collection 'c' not found".to_string())
    );
    assert_eq!(
        parse_join_field_validated(JoinField::Multiple(vec![])).unwrap_err(),
        SearchError::InvalidFilter("Join list cannot be empty".to_string())
    );
}

#[test]
fn filters_hold_of_documents() {
    let d = document("a", vec![("n", unsigned(5)), ("s", text("m"))]);
    let holds = |f: &str| document_matches_metadata_filter(&d, &parse_filter(f).unwrap());
    assert!(holds("n = 5") && !holds("n != 5") && !holds("n = 6"));
    assert!(holds("n > 4") && holds("n >= 5") && !holds("n < 5") && holds("n <= 5"));
    assert!(holds(r#"s > "a""#) && !holds("s > 1") && !holds("missing > 1"));
    assert!(holds("missing != 1") && !holds("missing = 1"));
    assert!(holds(r#"n = 5 AND s = "m""#) && holds("n = 6 OR n = 5") && holds("NOT n = 6"));
    assert!(document_matches_metadata_filter(&d, &MetadataFilter::empty()));
    let docs = vec![document("a", vec![("n", unsigned(1))]), document("b", vec![])];
    assert_eq!(matching_children(&docs, &Some(parse_filter("n = 1").unwrap())), vec![0]);
    assert_eq!(matching_children(&docs, &None), vec![0, 1]);
}

#[test]
fn queries_are_checked() {
    let limits = FacetLimits { prefetch_multiplier: 10, max_values: 100 };
    let message = |change: &dyn Fn(&mut SearchQuery)| {
        let mut q = SearchQuery { query: "q".to_string(), settings: settings() };
        change(&mut q);
        match validate_search_query(&q, limits) {
            Ok(()) => "".to_string(),
            Err(e) => e.0,
        }
    };
    assert_eq!(message(&|_| ()), "");
    assert_eq!(
        message(&|q| q.query = " ".to_string()),
        "query: Query string cannot be empty or whitespace"
    );
    assert_eq!(
        message(&|q| q.query = "x".repeat(10001)),
        "query: ensure this value has at most 10000 characters"
    );
    assert_eq!(
        message(&|q| q.settings.limit = 0),
        "limit: ensure this value is greater than or equal to 1"
    );
    assert_eq!(
        message(&|q| q.settings.document_tags = Some(strings(&["a|b"]))),
        "document_tags: Document tag 'a|b' cannot contain pipe characters (|)"
    );
    assert_eq!(
        message(&|q| q.settings.fusion_mode = "max".to_string()),
        "fusion_mode must be one of ['rrf', 'linear'], got \"max\""
    );
    assert_eq!(
        message(&|q| q.settings.group_max = 0),
        "group_max: ensure this value is greater than or equal to 1"
    );
    let options = FacetOptions { prefetch_multiplier: 11, max_values: 1 };
    assert!(message(&|q| q.settings.facet_options = Some(options))
        .starts_with("facet_options.prefetch_multiplier: ensure this value is between 1 and 10"));
    let option = || VectorSearchOption {
        vector_name: "a b".to_string(),
        weight: double(1.0),
        field: None,
        wmtr_trigram_weight: double(0.5),
    };
    assert!(message(&|q| q.settings.vector_options = vec![option()])
        .starts_with("vector_options.vector_name: Vector name can only contain"));
}

#[test]
fn vector_names_are_trimmed_and_exclusions_kept_once() {
    let mut q = SearchQuery { query: " q ".to_string(), settings: settings() };
    q.settings.vector_options = vec![VectorSearchOption {
        vector_name: " v ".to_string(),
        weight: double(1.0),
        field: None,
        wmtr_trigram_weight: double(0.5),
    }];
    q.settings.exclude = Some(vec![
        SearchExcludeField::Tags,
        SearchExcludeField::Name,
        SearchExcludeField::Tags,
    ]);
    normalize_search_query_python(&mut q);
    assert_eq!(q.query, " q ");
    assert_eq!(q.settings.vector_options[0].vector_name, "v");
    assert_eq!(
        q.settings.exclude,
        Some(vec![SearchExcludeField::Tags, SearchExcludeField::Name])
    );
    let once = format!("{q:?}");
    normalize_search_query_python(&mut q);
    assert_eq!(format!("{q:?}"), once);
}

#[test]
fn like_searches_run_together() {
    let job = |name: &str, limit: u32| {
        let mut s = settings();
        s.limit = limit;
        SearchJob {
            collection_name: name.to_string(),
            query: SearchQuery { query: "q".to_string(), settings: s },
        }
    };
    assert!(same_settings(&settings(), &settings()));
    let jobs = vec![job("a", 1), job("b", 1), job("a", 1), job("a", 2)];
    assert_eq!(gather_buckets(&jobs), vec![vec![0, 2], vec![1], vec![3]]);
}

#[test]
fn a_search_runs_through_its_steps() {
    let (mut run, action) = SearchRun::start(settings(), 2);
    assert_eq!(action, SearchAction::FetchConfig);
    assert_eq!(run.on_config(&collection(&[]), true), SearchAction::Vectorize);
    assert_eq!(run.on_vectorized(2), SearchAction::Search(0));
    assert_eq!(run.on_found(), SearchAction::Reply(0, None));
    assert_eq!(run.on_replied(), SearchAction::Search(1));
    let e = || DbError::Qdrant("x".to_string());
    assert_eq!(
        run.on_search_error(e()),
        SearchAction::Reply(1, Some(SearchError::Db(e())))
    );
    assert_eq!(run.on_replied(), SearchAction::Finish);
    assert_eq!(run.phase, SearchPhase::Done);
}

#[test]
fn a_stale_config_is_fetched_once_more() {
    let (mut run, _) = SearchRun::start(settings(), 1);
    run.on_config(&collection(&[]), true);
    assert_eq!(run.on_vectorize_error("why"), SearchAction::RefreshConfig);
    assert_eq!(run.on_refreshed(true), SearchAction::Vectorize);
    assert_eq!(
        run.on_vectorize_error("again"),
        SearchAction::FailAll(SearchError::Vectorization("again".to_string()))
    );
}

#[test]
fn joined_searches_fetch_their_children() {
    let mut s = settings();
    s.join = Some(JoinField::Single("c".to_string()));
    let (mut run, _) = SearchRun::start(s, 1);
    run.on_config(&collection(&[]), false);
    run.on_vectorized(1);
    assert_eq!(run.on_found(), SearchAction::Join(0));
    assert_eq!(run.on_joined(None), SearchAction::Reply(0, None));
}

#[test]
fn searches_fail_with_their_reason() {
    let (mut run, _) = SearchRun::start(settings(), 1);
    assert_eq!(
        run.on_config_error(DbError::NotFound("c".to_string())),
        SearchAction::FailAll(SearchError::NotFound("Collection configuration not found".to_string()))
    );
    let mut s = settings();
    s.group_field = Some("g".to_string());
    let (mut run, _) = SearchRun::start(s, 1);
    assert_eq!(
        run.on_config(&collection(&[]), false),
        SearchAction::FailAll(SearchError::InvalidFilter(
            "group_field 'g' is not indexed in collection metadata_indexes".to_string()
        ))
    );
    let (mut run, _) = SearchRun::start(settings(), 2);
    run.on_config(&collection(&[]), false);
    assert!(matches!(run.on_vectorized(1), SearchAction::FailAll(SearchError::Vectorization(_))));
    let (mut run, _) = SearchRun::start(settings(), 1);
    run.on_config(&collection(&[]), false);
    assert!(matches!(run.on_worker_gone("x"), SearchAction::FailAll(_)));
    assert!(search_queue_full().message().contains("retry later."));
    assert!(search_worker_gone().message().contains("Search ingress worker stopped."));
}

#[test]
fn outcomes_start_without_facets() {
    let o = SearchOutcome::new(vec![]);
    assert!(o.results.is_empty() && o.facet_counts.is_none());
}

#[test]
fn configs_for_queries_keep_their_fields() {
    let v = VectorConfigInternal {
        version: 1,
        name: "v".to_string(),
        vector_type: VectorType::FullText,
        model: None,
        revision: None,
        query_model: None,
        query_revision: None,
        dimensions: None,
        top_k: 1,
        wmtr_word_ratio: 1,
        index_fields: Some(vec![DocumentField::Name]),
        doc_template: None,
        query_template: None,
        language_default_code: "en".to_string(),
        language_detect: false,
        language_confidence: double(0.5),
        normalization: None,
        dense_distance: DenseDistance::Dot,
        keep_case: None,
    };
    assert_eq!(
        amgix_now::templates::vector_index_fields(&v),
        Ok(vec![DocumentField::Name])
    );
}
