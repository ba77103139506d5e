//! What the requests of the API decide, before and after the database is
//! asked.

use vstd::prelude::*;

use crate::api;
use crate::api::{
    api_error, db_problem, query_validation_error, validation_error, Missing, Problem,
    STATUS_BAD_REQUEST, STATUS_CONFLICT, STATUS_INTERNAL_ERROR, STATUS_NOT_FOUND,
    STATUS_NOT_IMPLEMENTED, STATUS_UNPROCESSABLE,
};
use crate::common;
use crate::common::{get_real_collection_name, VectorType};
use crate::config_validation;
use crate::config_validation::validate_collection_config;
use crate::datetime_parse;
use crate::datetime_parse::{parse_utc_datetime, Timestamp};
use crate::document_vectors;
use crate::document_vectors::validate_document_vectors;
use crate::encoder;
use crate::encoder::validate_metadata_filter;
use crate::models;
use crate::models::{
    CollectionConfig, CollectionConfigInternal, CollectionExistsResponse, CollectionStatsResponse,
    Document, DocumentFetchRequest, DocumentStatus, DocumentStatusResponse,
    ModelValidationResponse, ModelValidationResult, OkResponse, QueueInfo, QueuedDocumentStatus,
    SearchQuery, VectorConfig, VectorConfigInternal,
};
use crate::qdrant::DbError;
use crate::query_validation;
use crate::query_validation::{
    normalize_search_query_python, validate_search_query, FacetLimits,
};
use crate::text;
use crate::text::{decimal_text, same_text, text2, text3, text4, text5};
use crate::validation;
use crate::validation::{normalize_document_python, validate_collection_name, validate_document};

verus! {

/// The most documents of a page.
pub const MAX_PAGE_SIZE: u32 = 1000;

/// The collection's name in the database.
pub open spec fn real_name(name: Seq<char>) -> Seq<char> {
    common::collection_prefix() + name
}

/// Checks the name of a collection and gives its name in the database.
pub fn check_collection(name: &str) -> (r: Result<String, Problem>)
    ensures
        match validation::collection_name_problem(name@) {
            Some(words) => r matches Err(p) && p@ == api::invalid(words),
            None => r matches Ok(n) && n@ == real_name(name@),
        },
{
    match validate_collection_name(name) {
        Ok(()) => Ok(get_real_collection_name(name)),
        Err(e) => Err(validation_error(e)),
    }
}

/// Answers a request for what this server does not offer: that its collection's
/// name is not acceptable, or else that it is not implemented.
pub fn unimplemented_answer(name: Option<&str>) -> (r: Problem)
    ensures
        r@ == (match name {
            Some(n) => match validation::collection_name_problem(n@) {
                Some(words) => api::invalid(words),
                None => api::plain(STATUS_NOT_IMPLEMENTED, "Not implemented in Amgix Now"@),
            },
            None => api::plain(STATUS_NOT_IMPLEMENTED, "Not implemented in Amgix Now"@),
        }),
{
    if let Some(n) = name {
        if let Err(e) = validate_collection_name(n) {
            return validation_error(e);
        }
    }
    api_error(STATUS_NOT_IMPLEMENTED, "Not implemented in Amgix Now".to_owned())
}

/// Checks a request for a new collection and gives the collection's name in the
/// database.
pub fn check_new_collection(name: &str, config: &CollectionConfig) -> (r: Result<String, Problem>)
    ensures
        match validation::first(
            validation::collection_name_problem(name@),
            config_validation::collection_config_problem(*config),
        ) {
            Some(words) => r matches Err(p) && p@ == api::invalid(words),
            None => r matches Ok(n) && n@ == real_name(name@),
        },
{
    if let Err(e) = validate_collection_name(name) {
        return Err(validation_error(e));
    }
    if let Err(e) = validate_collection_config(config) {
        return Err(validation_error(e));
    }
    Ok(get_real_collection_name(name))
}

/// Whether a new collection may have the name, given what the database has
/// under it.
pub fn check_name_is_free(name: &str, lookup: Result<(), DbError>) -> (r: Result<(), Problem>)
    ensures
        match lookup {
            Ok(_) => r matches Err(p) && p@ == api::plain(
                STATUS_CONFLICT,
                "Collection '"@ + name@ + "' already exists"@,
            ),
            Err(DbError::NotFound(_)) => r is Ok,
            Err(e) => r matches Err(p) && p@ == api::database_problem(
                e,
                Missing::Failure,
                false,
                "Failed to check collection"@,
            ),
        },
{
    match lookup {
        Ok(_) => Err(
            api_error(STATUS_CONFLICT, text3("Collection '", name, "' already exists")),
        ),
        Err(DbError::NotFound(_)) => Ok(()),
        Err(e) => Err(db_problem(e, Missing::Failure, false, "Failed to check collection")),
    }
}

/// The result of a model's validation under a vector's name.
pub open spec fn result_of(
    results: Seq<(String, ModelValidationResult)>,
    name: Seq<char>,
) -> Option<ModelValidationResult>
    decreases results.len(),
{
    if results.len() == 0 {
        None
    } else if results[0].0@ == name {
        Some(results[0].1)
    } else {
        result_of(results.drop_first(), name)
    }
}

fn find_result<'a>(results: &'a Vec<(String, ModelValidationResult)>, name: &str) -> (r: Option<
    &'a ModelValidationResult,
>)
    ensures
        match r {
            Some(found) => result_of(results@, name@) == Some(*found),
            None => result_of(results@, name@) is None,
        },
{
    let mut i: usize = 0;
    assert(results@.skip(0) =~= results@);
    while i < results.len()
        invariant
            i <= results@.len(),
            result_of(results@, name@) == result_of(results@.skip(i as int), name@),
        decreases results.len() - i,
    {
        assert(results@.skip(i as int)[0] == results@[i as int]);
        assert(results@.skip(i as int).drop_first() =~= results@.skip(i as int + 1));
        if same_text(results[i].0.as_str(), name) {
            return Some(&results[i].1);
        }
        i += 1;
    }
    None
}

/// Why a vector cannot be created with what the validation of the models says.
pub open spec fn completion_problem(
    v: VectorConfig,
    results: Seq<(String, ModelValidationResult)>,
) -> Option<Seq<char>> {
    if !(v.vector_type is DenseModel) {
        None
    } else {
        match result_of(results, v.name@) {
            None => Some("Model validation failed for "@ + v.name@),
            Some(found) => if !found.valid {
                Some(
                    "Model "@ + v.name@ + " is not valid: "@ + (match found.error {
                        Some(e) => e@,
                        None => "Model validation failed"@,
                    }),
                )
            } else if found.dimension is None {
                Some(
                    "Model "@ + v.name@
                        + " is valid but has no reported dimension after validation"@,
                )
            } else {
                None
            },
        }
    }
}

/// The first of the problems of vectors.
pub open spec fn first_completion_problem(
    v: Seq<VectorConfig>,
    results: Seq<(String, ModelValidationResult)>,
) -> Option<Seq<char>>
    decreases v.len(),
{
    if v.len() == 0 {
        None
    } else {
        validation::first(
            completion_problem(v[0], results),
            first_completion_problem(v.drop_first(), results),
        )
    }
}

/// The vector with the dimensions that its model turned out to have.
pub open spec fn with_dimensions(
    v: VectorConfig,
    results: Seq<(String, ModelValidationResult)>,
) -> VectorConfig {
    if v.vector_type is DenseModel {
        VectorConfig { dimensions: result_of(results, v.name@)->0.dimension, ..v }
    } else {
        v
    }
}

fn complete_vector(v: VectorConfig, results: &Vec<(String, ModelValidationResult)>) -> (r: Result<
    VectorConfigInternal,
    String,
>)
    ensures
        match r {
            Ok(full) => completion_problem(v, results@) is None && models::stored_as(
                with_dimensions(v, results@),
                full,
            ),
            Err(words) => completion_problem(v, results@) == Some(words@),
        },
{
    let mut v = v;
    if !matches!(v.vector_type, VectorType::DenseModel) {
        return Ok(VectorConfigInternal::from_config(v));
    }
    let found = match find_result(results, v.name.as_str()) {
        Some(found) => found,
        None => {
            return Err(text2("Model validation failed for ", v.name.as_str()));
        },
    };
    if !found.valid {
        let why = match &found.error {
            Some(e) => e.as_str().to_owned(),
            None => "Model validation failed".to_owned(),
        };
        return Err(text4("Model ", v.name.as_str(), " is not valid: ", why.as_str()));
    }
    match found.dimension {
        Some(dim) => {
            v.dimensions = Some(dim);
            Ok(VectorConfigInternal::from_config(v))
        },
        None => Err(
            text3(
                "Model ",
                v.name.as_str(),
                " is valid but has no reported dimension after validation",
            ),
        ),
    }
}

/// Completes the configuration of a new collection with its identity and with
/// the dimensions of its models.
pub fn complete_collection(
    config: CollectionConfig,
    collection_id: String,
    report: ModelValidationResponse,
) -> (r: Result<CollectionConfigInternal, Problem>)
    ensures
        match (report.error, report.results) {
            (Some(e), _) => r matches Err(p) && p@ == api::plain(
                STATUS_BAD_REQUEST,
                "Model validation failed: "@ + e@,
            ),
            (None, None) => r matches Err(p) && p@ == api::plain(
                STATUS_BAD_REQUEST,
                "Model validation returned no results map"@,
            ),
            (None, Some(results)) => match first_completion_problem(
                config.vectors@,
                results@,
            ) {
                Some(words) => r matches Err(p) && p@ == api::plain(STATUS_BAD_REQUEST, words),
                None => {
                    &&& r matches Ok(c)
                    &&& c.version == 1
                    &&& c.collection_id == collection_id
                    &&& c.store_content == config.store_content
                    &&& c.metadata_indexes == config.metadata_indexes
                    &&& c.vectors@.len() == config.vectors@.len()
                    &&& forall|i: int|
                        0 <= i < config.vectors@.len() ==> models::stored_as(
                            with_dimensions(config.vectors@[i], results@),
                            #[trigger] c.vectors@[i],
                        )
                },
            },
        },
{
    if let Some(e) = report.error {
        return Err(
            api_error(STATUS_BAD_REQUEST, text2("Model validation failed: ", e.as_str())),
        );
    }
    let results = match report.results {
        Some(results) => results,
        None => {
            return Err(
                api_error(
                    STATUS_BAD_REQUEST,
                    "Model validation returned no results map".to_owned(),
                ),
            );
        },
    };
    let ghost all = config.vectors@;
    let mut full: Vec<VectorConfigInternal> = Vec::new();
    let CollectionConfig { vectors, store_content, metadata_indexes } = config;
    assert(all.skip(0) =~= all);
    for v in it: vectors
        invariant
            it.seq() == all,
            all == config.vectors@,
            report.error is None,
            report.results == Some(results),
            full@.len() == it.index(),
            first_completion_problem(all, results@) == first_completion_problem(
                all.skip(it.index() as int),
                results@,
            ),
            forall|i: int|
                0 <= i < it.index() ==> models::stored_as(
                    with_dimensions(all[i], results@),
                    #[trigger] full@[i],
                ),
    {
        proof {
            let i = it.index() as int;
            assert(all.skip(i)[0] == v);
            assert(all.skip(i).drop_first() =~= all.skip(i + 1));
        }
        match complete_vector(v, &results) {
            Ok(f) => {
                full.push(f);
            },
            Err(words) => {
                return Err(api_error(STATUS_BAD_REQUEST, words));
            },
        }
    }
    assert(all.skip(all.len() as int) =~= Seq::empty());
    Ok(
        CollectionConfigInternal {
            version: 1,
            collection_id,
            vectors: full,
            store_content,
            metadata_indexes,
        },
    )
}

/// The answer to a change of a collection: to `do` it succeeds, does nothing or
/// fails.
pub open spec fn change_answer(
    r: Result<OkResponse, Problem>,
    verb: Seq<char>,
    name: Seq<char>,
    outcome: Result<bool, DbError>,
) -> bool {
    match outcome {
        Ok(true) => r matches Ok(a) && a.ok && a.skipped is None,
        Ok(false) => r matches Err(p) && p@ == api::plain(
            STATUS_INTERNAL_ERROR,
            "Failed to "@ + verb + " collection '"@ + name + "'"@,
        ),
        Err(e) => r matches Err(p) && p@ == api::database_problem(
            e,
            Missing::Failure,
            false,
            "Failed to "@ + verb + " collection"@,
        ),
    }
}

fn answer_change(verb: &str, name: &str, outcome: Result<bool, DbError>) -> (r: Result<
    OkResponse,
    Problem,
>)
    ensures
        change_answer(r, verb@, name@, outcome),
{
    match outcome {
        Ok(done) => if done {
            Ok(OkResponse::ok())
        } else {
            Err(
                api_error(
                    STATUS_INTERNAL_ERROR,
                    text5("Failed to ", verb, " collection '", name, "'"),
                ),
            )
        },
        Err(e) => {
            let context = text3("Failed to ", verb, " collection");
            Err(db_problem(e, Missing::Failure, false, context.as_str()))
        },
    }
}

/// Answers a request for a new collection. What is cached of the name is to be
/// dropped where the answer is good.
pub fn creation_answer(name: &str, outcome: Result<bool, DbError>) -> (r: Result<
    OkResponse,
    Problem,
>)
    ensures
        change_answer(r, "create"@, name@, outcome),
{
    answer_change("create", name, outcome)
}

/// Answers a request to delete a collection. What is cached of the name is to
/// be dropped where the answer is good.
pub fn deletion_answer(name: &str, outcome: Result<bool, DbError>) -> (r: Result<
    OkResponse,
    Problem,
>)
    ensures
        change_answer(r, "delete"@, name@, outcome),
{
    answer_change("delete", name, outcome)
}

/// Answers a request to empty a collection.
pub fn emptying_answer(outcome: Result<bool, DbError>) -> (r: Result<OkResponse, Problem>)
    ensures
        match outcome {
            Ok(done) => r matches Ok(a) && a.ok == done && a.skipped is None,
            Err(e) => r matches Err(p) && p@ == api::database_problem(
                e,
                Missing::Failure,
                false,
                "Failed to empty collection"@,
            ),
        },
{
    match outcome {
        Ok(ok) => Ok(OkResponse { ok, skipped: None }),
        Err(e) => Err(db_problem(e, Missing::Failure, false, "Failed to empty collection")),
    }
}

/// Answers whether a collection exists.
pub fn existence_answer(lookup: Result<(), DbError>) -> (r: Result<
    CollectionExistsResponse,
    Problem,
>)
    ensures
        match lookup {
            Ok(_) => r matches Ok(a) && a.exists,
            Err(DbError::NotFound(_)) => r matches Ok(a) && !a.exists,
            Err(e) => r matches Err(p) && p@ == api::database_problem(
                e,
                Missing::Failure,
                false,
                "Failed to check collection"@,
            ),
        },
{
    match lookup {
        Ok(_) => Ok(CollectionExistsResponse { exists: true }),
        Err(DbError::NotFound(_)) => Ok(CollectionExistsResponse { exists: false }),
        Err(e) => Err(db_problem(e, Missing::Failure, false, "Failed to check collection")),
    }
}

/// Answers with the statistics of a collection that was looked up. Nothing
/// waits in a queue.
pub fn stats_answer(doc_count: Result<u64, DbError>) -> (r: Result<
    CollectionStatsResponse,
    Problem,
>)
    ensures
        match doc_count {
            Ok(n) => {
                &&& r matches Ok(a)
                &&& a.doc_count == n as i64
                &&& a.queue.queued_upsert == 0
                &&& a.queue.queued_delete == 0
                &&& a.queue.requeued_upsert == 0
                &&& a.queue.requeued_delete == 0
                &&& a.queue.failed_upsert == 0
                &&& a.queue.failed_delete == 0
                &&& a.queue.total == 0
            },
            Err(e) => r matches Err(p) && p@ == api::database_problem(
                e,
                Missing::Failure,
                false,
                "Failed to get document count"@,
            ),
        },
{
    match doc_count {
        Ok(n) => Ok(CollectionStatsResponse { doc_count: n as i64, queue: QueueInfo::empty() }),
        Err(e) => Err(db_problem(e, Missing::Failure, false, "Failed to get document count")),
    }
}

/// Checks an upload of a document, trims the document, and gives the
/// collection's name in the database.
pub fn check_upload(name: &str, document: &mut Document) -> (r: Result<String, Problem>)
    ensures
        match validation::collection_name_problem(name@) {
            Some(words) => (r matches Err(p) && p@ == api::invalid(words)) && *final(document)
                == *old(document),
            None => validation::document_trimmed(*old(document), *final(document)) && (
            match validation::document_problem(*final(document)) {
                Some(words) => r matches Err(p) && p@ == api::invalid(words),
                None => r matches Ok(n) && n@ == real_name(name@),
            }),
        },
{
    if let Err(e) = validate_collection_name(name) {
        return Err(validation_error(e));
    }
    normalize_document_python(document);
    if let Err(e) = validate_document(document) {
        return Err(validation_error(e));
    }
    Ok(get_real_collection_name(name))
}

/// Checks the vectors that an uploaded document brings along.
pub fn check_uploaded_vectors(config: &CollectionConfigInternal, document: &Document) -> (r: Result<
    (),
    Problem,
>)
    ensures
        match document_vectors::vectors_problem(*config, *document) {
            Some(words) => r matches Err(p) && p@ == api::plain(STATUS_BAD_REQUEST, words),
            None => r is Ok,
        },
{
    match validate_document_vectors(config, document) {
        Ok(()) => Ok(()),
        Err(e) => Err(api_error(STATUS_BAD_REQUEST, e.0)),
    }
}

/// The first problem of the vectors of the documents from position `i` on.
pub open spec fn bulk_vectors_problem(
    config: CollectionConfigInternal,
    documents: Seq<Document>,
    i: int,
) -> Option<Seq<char>>
    decreases documents.len() - i,
{
    if i < 0 || i >= documents.len() {
        None
    } else {
        match document_vectors::vectors_problem(config, documents[i]) {
            Some(words) => Some(
                "documents["@ + text::decimal(i as nat) + "]: "@ + words,
            ),
            None => bulk_vectors_problem(config, documents, i + 1),
        }
    }
}

/// Checks the vectors that the documents of a bulk upload bring along.
pub fn check_bulk_vectors(config: &CollectionConfigInternal, documents: &Vec<Document>) -> (r:
    Result<(), Problem>)
    ensures
        match bulk_vectors_problem(*config, documents@, 0) {
            Some(words) => r matches Err(p) && p@ == api::plain(STATUS_BAD_REQUEST, words),
            None => r is Ok,
        },
{
    let mut i: usize = 0;
    while i < documents.len()
        invariant
            i <= documents@.len(),
            bulk_vectors_problem(*config, documents@, 0) == bulk_vectors_problem(
                *config,
                documents@,
                i as int,
            ),
        decreases documents.len() - i,
    {
        if let Err(e) = validate_document_vectors(config, &documents[i]) {
            let at = decimal_text(i as u64);
            return Err(
                api_error(
                    STATUS_BAD_REQUEST,
                    text4("documents[", at.as_str(), "]: ", e.0.as_str()),
                ),
            );
        }
        i += 1;
    }
    Ok(())
}

/// Answers a request for a collection's configuration that the database fails.
pub fn config_lookup_problem(name: &str, e: DbError) -> (r: Problem)
    ensures
        r@ == api::database_problem(
            e,
            Missing::Collection(name),
            false,
            "Failed to get collection config"@,
        ),
{
    db_problem(e, Missing::Collection(name), false, "Failed to get collection config")
}

/// The document that the database found, if it did.
pub fn found_document(rows: Vec<Option<Document>>, document_id: &str) -> (r: Result<
    Document,
    Problem,
>)
    ensures
        if rows@.len() > 0 && rows@[0] is Some {
            r == Ok::<Document, Problem>(rows@[0]->0)
        } else {
            r matches Err(p) && p@ == api::plain(
                STATUS_NOT_FOUND,
                "Document '"@ + document_id@ + "' not found"@,
            )
        },
{
    let mut rows = rows;
    if rows.len() > 0 {
        if let Some(d) = rows.remove(0) {
            return Ok(d);
        }
    }
    Err(api_error(STATUS_NOT_FOUND, text3("Document '", document_id, "' not found")))
}

/// The status of a document: indexed, if the database has it.
pub fn status_answer(rows: &Vec<Option<Document>>, name: &str, document_id: &str) -> (r: Result<
    DocumentStatusResponse,
    Problem,
>)
    ensures
        if rows@.len() > 0 && rows@[0] is Some {
            &&& r matches Ok(a)
            &&& a.statuses@.len() == 1
            &&& a.statuses@[0].status is Indexed
            &&& a.statuses@[0].op_type is None
            &&& a.statuses@[0].info is None
            &&& a.statuses@[0].timestamp == rows@[0]->0.timestamp
            &&& a.statuses@[0].queue_id is None
            &&& a.statuses@[0].try_count is None
        } else {
            r matches Err(p) && p@ == api::plain(
                STATUS_NOT_FOUND,
                "Document "@ + document_id@ + " not found in collection "@ + name@,
            )
        },
{
    if rows.len() > 0 {
        if let Some(d) = &rows[0] {
            let status = DocumentStatus {
                status: QueuedDocumentStatus::Indexed,
                op_type: None,
                info: None,
                timestamp: d.timestamp,
                queue_id: None,
                try_count: None,
            };
            return Ok(DocumentStatusResponse { statuses: vec![status] });
        }
    }
    Err(
        api_error(
            STATUS_NOT_FOUND,
            text4("Document ", document_id, " not found in collection ", name),
        ),
    )
}

/// The time that a request to delete a document names.
pub open spec fn delete_time(request_timestamp: Seq<char>) -> Result<Timestamp, Seq<char>> {
    datetime_parse::utc_reading(
        datetime_parse::zoned_datetime(text::trim(request_timestamp)),
        datetime_parse::naive_datetime(text::trim(request_timestamp)),
    )
}

/// Checks a request to delete a document, and gives the collection's name in
/// the database and the time of the request.
pub fn check_delete(name: &str, request_timestamp: &str) -> (r: Result<
    (String, Timestamp),
    Problem,
>)
    ensures
        match validation::collection_name_problem(name@) {
            Some(words) => r matches Err(p) && p@ == api::invalid(words),
            None => match delete_time(request_timestamp@) {
                Ok(t) => r matches Ok(plan) && plan.0@ == real_name(name@) && plan.1 == t,
                Err(_) => r matches Err(p) && p@ == api::placed(
                    STATUS_UNPROCESSABLE,
                    seq!["query"@, "request_timestamp"@],
                    "'request_timestamp' must include a UTC timezone (e.g. 2024-01-01T00:00:00Z). Got "@
                        + request_timestamp@,
                ),
            },
        },
{
    if let Err(e) = validate_collection_name(name) {
        return Err(validation_error(e));
    }
    match parse_utc_datetime(request_timestamp) {
        Ok(t) => Ok((get_real_collection_name(name), t)),
        Err(_) => Err(
            query_validation_error(
                "request_timestamp",
                text2(
                    "'request_timestamp' must include a UTC timezone (e.g. 2024-01-01T00:00:00Z). Got ",
                    request_timestamp,
                ),
            ),
        ),
    }
}

/// Checks a request for a page of documents, and gives the collection's name in
/// the database.
pub fn check_fetch(name: &str, request: &DocumentFetchRequest) -> (r: Result<String, Problem>)
    ensures
        match validation::collection_name_problem(name@) {
            Some(words) => r matches Err(p) && p@ == api::invalid(words),
            None => if 1 <= request.page_size <= MAX_PAGE_SIZE {
                r matches Ok(n) && n@ == real_name(name@)
            } else {
                r matches Err(p) && p@ == api::plain(
                    STATUS_UNPROCESSABLE,
                    "page_size must be between 1 and 1000"@,
                )
            },
        },
{
    if let Err(e) = validate_collection_name(name) {
        return Err(validation_error(e));
    }
    if request.page_size == 0 || request.page_size > MAX_PAGE_SIZE {
        return Err(
            api_error(STATUS_UNPROCESSABLE, "page_size must be between 1 and 1000".to_owned()),
        );
    }
    Ok(get_real_collection_name(name))
}

/// Checks the filter of a request for a page of documents.
pub fn check_fetch_filter(config: &CollectionConfigInternal, request: &DocumentFetchRequest) -> (r:
    Result<(), Problem>)
    ensures
        match request.metadata_filter {
            None => r is Ok,
            Some(filter) => match encoder::collection_filter_error(*config, filter) {
                Some(words) => r matches Err(p) && p@ == api::plain(STATUS_BAD_REQUEST, words),
                None => r is Ok,
            },
        },
{
    if let Some(filter) = &request.metadata_filter {
        if let Err(e) = validate_metadata_filter(config, filter) {
            return Err(api_error(STATUS_BAD_REQUEST, e.0));
        }
    }
    Ok(())
}

/// Checks a search, puts its query in order, and gives the collection's name in
/// the database.
pub fn check_search(name: &str, query: &mut SearchQuery, limits: FacetLimits) -> (r: Result<
    String,
    Problem,
>)
    ensures
        match validation::first(
            validation::collection_name_problem(name@),
            query_validation::search_query_problem(*old(query), limits),
        ) {
            Some(words) => (r matches Err(p) && p@ == api::invalid(words)) && *final(query)
                == *old(query),
            None => {
                &&& r matches Ok(n)
                &&& n@ == real_name(name@)
                &&& final(query).query == old(query).query
                &&& query_validation::settings_normalized(
                    old(query).settings,
                    final(query).settings,
                )
            },
        },
{
    if let Err(e) = validate_collection_name(name) {
        return Err(validation_error(e));
    }
    if let Err(e) = validate_search_query(query, limits) {
        return Err(validation_error(e));
    }
    normalize_search_query_python(query);
    Ok(get_real_collection_name(name))
}

proof fn lemma_no_completion_problem(
    v: Seq<VectorConfig>,
    results: Seq<(String, ModelValidationResult)>,
    i: int,
)
    requires
        first_completion_problem(v, results) is None,
        0 <= i < v.len(),
    ensures
        completion_problem(v[i], results) is None,
    decreases v.len(),
{
    if i > 0 {
        lemma_no_completion_problem(v.drop_first(), results, i - 1);
    }
}

/// Every model of a collection that is created has dimensions.
pub proof fn created_models_have_dimensions(
    v: Seq<VectorConfig>,
    results: Seq<(String, ModelValidationResult)>,
    i: int,
    full: VectorConfigInternal,
)
    requires
        first_completion_problem(v, results) is None,
        0 <= i < v.len(),
        models::stored_as(with_dimensions(v[i], results), full),
        full.vector_type is DenseModel,
    ensures
        full.dimensions is Some,
{
    lemma_no_completion_problem(v, results, i);
}

/// A collection is known to the database by its name behind the prefix.
pub proof fn collections_have_their_prefix(name: Seq<char>)
    ensures
        real_name(name) == "amgix_"@ + name,
        common::user_collection_name(real_name(name)) == name,
{
    reveal_strlit("amgix_");
    reveal_strlit("amgix");
    reveal_strlit("_");
    assert("amgix"@ + "_"@ =~= "amgix_"@);
    common::collection_names_round_trip(name);
}

/// A vector of a dense model is completed exactly if the first result under its
/// name is valid and has a dimension, which it then has; any other vector is
/// complete as it is.
pub proof fn dense_models_are_completed(
    v: VectorConfig,
    results: Seq<(String, ModelValidationResult)>,
    i: int,
)
    ensures
        !(v.vector_type is DenseModel) ==> completion_problem(v, results) is None
            && with_dimensions(v, results) == v,
        v.vector_type is DenseModel && (forall|k: int|
            0 <= k < results.len() ==> (#[trigger] results[k]).0@ != v.name@)
            ==> completion_problem(v, results) is Some,
        v.vector_type is DenseModel && 0 <= i < results.len() && results[i].0@ == v.name@ && (
        forall|k: int| 0 <= k < i ==> (#[trigger] results[k]).0@ != v.name@) ==> (
        completion_problem(v, results) is None <==> results[i].1.valid && results[i].1.dimension
            is Some) && with_dimensions(v, results).dimensions == results[i].1.dimension
            && with_dimensions(v, results).name == v.name && with_dimensions(v, results).model
            == v.model,
{
    lemma_result_of(results, v.name@, i);
}

proof fn lemma_result_of(results: Seq<(String, ModelValidationResult)>, name: Seq<char>, i: int)
    ensures
        (forall|k: int| 0 <= k < results.len() ==> (#[trigger] results[k]).0@ != name)
            ==> result_of(results, name) is None,
        0 <= i < results.len() && results[i].0@ == name && (forall|k: int|
            0 <= k < i ==> (#[trigger] results[k]).0@ != name) ==> result_of(results, name) == Some(
            results[i].1,
        ),
    decreases results.len(),
{
    if results.len() > 0 {
        let rest = results.drop_first();
        assert(forall|k: int| 0 <= k < rest.len() ==> #[trigger] rest[k] == results[k + 1]);
        lemma_result_of(rest, name, i - 1);
        if 0 < i < results.len() {
            assert(rest[i - 1] == results[i]);
        }
    }
}

/// A collection is completed exactly if each of its vectors is.
pub proof fn collections_are_completed_by_their_vectors(
    v: Seq<VectorConfig>,
    results: Seq<(String, ModelValidationResult)>,
)
    ensures
        first_completion_problem(v, results) is None <==> forall|i: int|
            0 <= i < v.len() ==> completion_problem(#[trigger] v[i], results) is None,
    decreases v.len(),
{
    if v.len() > 0 {
        let rest = v.drop_first();
        collections_are_completed_by_their_vectors(rest, results);
        assert(forall|i: int| 0 <= i < rest.len() ==> #[trigger] rest[i] == v[i + 1]);
        if first_completion_problem(v, results) is None {
            assert forall|i: int| 0 <= i < v.len() implies completion_problem(
                #[trigger] v[i],
                results,
            ) is None by {
                if i > 0 {
                    assert(rest[i - 1] == v[i]);
                }
            }
        }
    }
}

/// The vectors of documents are accepted together exactly if those of each are.
pub proof fn bulk_vectors_are_accepted_one_by_one(
    config: CollectionConfigInternal,
    documents: Seq<Document>,
    i: int,
)
    requires
        0 <= i <= documents.len(),
    ensures
        bulk_vectors_problem(config, documents, i) is None <==> forall|k: int|
            i <= k < documents.len() ==> document_vectors::vectors_problem(
                config,
                #[trigger] documents[k],
            ) is None,
    decreases documents.len() - i,
{
    if i < documents.len() {
        bulk_vectors_are_accepted_one_by_one(config, documents, i + 1);
        if bulk_vectors_problem(config, documents, i) is None {
            assert forall|k: int|
                i <= k < documents.len() implies document_vectors::vectors_problem(
                config,
                #[trigger] documents[k],
            ) is None by {
                if k > i {
                }
            }
        }
    }
}

/// A change of a collection is answered as done exactly if it was; one that was
/// not is an error of the server.
pub proof fn changes_are_answered_as_done_if_they_are(
    r: Result<OkResponse, Problem>,
    verb: Seq<char>,
    name: Seq<char>,
    outcome: Result<bool, DbError>,
)
    requires
        change_answer(r, verb, name, outcome),
    ensures
        r is Ok <==> outcome == Ok::<bool, DbError>(true),
        r matches Ok(a) ==> a.ok,
{
}

/// The time of a deletion is a universal one.
pub proof fn deletion_times_are_universal(s: Seq<char>)
    ensures
        delete_time(s) is Ok <==> (datetime_parse::zoned_datetime(text::trim(s)) matches Some(z)
            && z.offset == 0),
        delete_time(s) matches Ok(t) ==> t == datetime_parse::zoned_datetime(
            text::trim(s),
        )->0.instant,
{
}

} // verus!
