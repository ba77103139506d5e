//! Request and response types of the API and the configurations that are
//! stored with a collection.

use vstd::prelude::*;
use crate::common::{DenseDistance, DocumentField, SearchExcludeField, VectorType};
use crate::datetime_parse::Timestamp;
use crate::json;
use crate::join_parser::JoinField;
use crate::json::{find_member, get_member, set_member, Double, Json, JsonValue, ONE_BITS};

verus! {

/// The double 0.9, the default confidence of language detection.
pub const DEFAULT_LANGUAGE_CONFIDENCE_BITS: u64 = 0x3fec_cccc_cccc_cccd;

/// The double 1.0, the default trigram weight of `wmtr` vectors.
pub const DEFAULT_WMTR_TRIGRAM_WEIGHT_BITS: u64 = ONE_BITS;

#[derive(Debug, Clone, PartialEq, Eq)]
pub struct OkResponse {
    pub ok: bool,
    pub skipped: Option<Vec<String>>,
}

impl OkResponse {
    pub fn ok() -> (r: Self)
        ensures
            r.ok,
            r.skipped is None,
    {
        OkResponse { ok: true, skipped: None }
    }

    /// A success that names the skipped documents, if any.
    pub fn ok_with_skipped(skipped: Vec<String>) -> (r: Self)
        ensures
            r.ok,
            skipped@.len() == 0 ==> r.skipped is None,
            skipped@.len() > 0 ==> r.skipped == Some(skipped),
    {
        if skipped.is_empty() {
            OkResponse { ok: true, skipped: None }
        } else {
            OkResponse { ok: true, skipped: Some(skipped) }
        }
    }
}

/// Readiness of the server and of what it depends on.
#[derive(Debug, Clone, Copy, PartialEq, Eq, Structural)]
pub struct ReadyResponse {
    pub database: bool,
    pub rabbitmq: bool,
    pub index: bool,
    pub query: bool,
    pub ready: bool,
}

#[derive(Debug, Clone, PartialEq, Eq)]
pub struct VersionResponse {
    pub version: String,
}

#[derive(Debug, Clone, PartialEq, Eq)]
pub struct SystemInfoResponse {
    pub amgix_version: String,
    pub database_kind: String,
    pub database_version: String,
    pub database_features: Vec<(String, bool)>,
    pub rabbitmq_version: String,
    pub collection_count: u64,
}

#[derive(Debug, Clone, Copy, PartialEq, Eq, Structural)]
pub struct CollectionExistsResponse {
    pub exists: bool,
}

#[derive(Debug, Clone, Copy, PartialEq, Eq, Structural)]
pub struct QueueInfo {
    pub queued_upsert: i64,
    pub queued_delete: i64,
    pub requeued_upsert: i64,
    pub requeued_delete: i64,
    pub failed_upsert: i64,
    pub failed_delete: i64,
    pub total: i64,
}

impl QueueInfo {
    pub fn empty() -> (r: Self)
        ensures
            r == (QueueInfo {
                queued_upsert: 0,
                queued_delete: 0,
                requeued_upsert: 0,
                requeued_delete: 0,
                failed_upsert: 0,
                failed_delete: 0,
                total: 0,
            }),
    {
        QueueInfo {
            queued_upsert: 0,
            queued_delete: 0,
            requeued_upsert: 0,
            requeued_delete: 0,
            failed_upsert: 0,
            failed_delete: 0,
            total: 0,
        }
    }
}

#[derive(Debug, Clone, Copy, PartialEq, Eq, Structural)]
pub struct CollectionStatsResponse {
    pub doc_count: i64,
    pub queue: QueueInfo,
}

#[derive(Debug, Clone, Copy, PartialEq, Eq, Hash, Structural)]
pub enum QueuedDocumentStatus {
    Queued,
    Requeued,
    Indexed,
    Failed,
}

#[derive(Debug, Clone, Copy, PartialEq, Eq, Hash, Structural)]
pub enum QueueOperationType {
    Upsert,
    Delete,
}

/// One row of a document's status.
#[derive(Debug, Clone, PartialEq, Eq)]
pub struct DocumentStatus {
    pub status: QueuedDocumentStatus,
    pub op_type: Option<QueueOperationType>,
    pub info: Option<String>,
    pub timestamp: Timestamp,
    pub queue_id: Option<String>,
    pub try_count: Option<u32>,
}

#[derive(Debug, Clone, PartialEq, Eq)]
pub struct DocumentStatusResponse {
    pub statuses: Vec<DocumentStatus>,
}

/// An operation that waits in the queue.
#[derive(Debug, PartialEq, Eq)]
pub struct QueueDocument {
    pub queue_id: String,
    pub collection_name: String,
    pub collection_id: String,
    pub doc_id: String,
    pub op_type: QueueOperationType,
    pub doc_timestamp: Timestamp,
    pub status: QueuedDocumentStatus,
    pub info: Option<String>,
    pub document: Option<Document>,
    pub created_at: Timestamp,
    pub timestamp: Timestamp,
    pub try_count: u32,
}

/// A metadata key that a collection indexes, with the type of its values.
#[derive(Debug, Clone, PartialEq, Eq)]
pub struct MetadataIndex {
    pub key: String,
    pub value_type: String,
}

#[derive(Debug, Clone, PartialEq, Eq)]
pub struct VectorConfig {
    pub name: String,
    pub vector_type: VectorType,
    pub model: Option<String>,
    pub revision: Option<String>,
    pub query_model: Option<String>,
    pub query_revision: Option<String>,
    pub dimensions: Option<u32>,
    pub top_k: u32,
    pub wmtr_word_ratio: u32,
    /// Mutually exclusive with the templates; `[content]` when all three are absent.
    pub index_fields: Option<Vec<DocumentField>>,
    pub doc_template: Option<String>,
    pub query_template: Option<String>,
    pub language_default_code: String,
    pub language_detect: bool,
    pub language_confidence: Double,
    pub normalization: Option<bool>,
    pub dense_distance: DenseDistance,
    pub keep_case: Option<bool>,
}

/// The configuration of a vector as it is stored.
#[derive(Debug, Clone, PartialEq, Eq)]
pub struct VectorConfigInternal {
    pub version: u32,
    pub name: String,
    pub vector_type: VectorType,
    pub model: Option<String>,
    pub revision: Option<String>,
    pub query_model: Option<String>,
    pub query_revision: Option<String>,
    pub dimensions: Option<u32>,
    pub top_k: u32,
    pub wmtr_word_ratio: u32,
    pub index_fields: Option<Vec<DocumentField>>,
    pub doc_template: Option<String>,
    pub query_template: Option<String>,
    pub language_default_code: String,
    pub language_detect: bool,
    pub language_confidence: Double,
    pub normalization: Option<bool>,
    pub dense_distance: DenseDistance,
    pub keep_case: Option<bool>,
}

#[derive(Debug, Clone, PartialEq, Eq)]
pub struct CollectionConfig {
    pub vectors: Vec<VectorConfig>,
    pub store_content: bool,
    pub metadata_indexes: Option<Vec<MetadataIndex>>,
}

#[derive(Debug, Clone, PartialEq, Eq)]
pub struct CollectionConfigInternal {
    pub version: u32,
    pub collection_id: String,
    pub vectors: Vec<VectorConfigInternal>,
    pub store_content: bool,
    pub metadata_indexes: Option<Vec<MetadataIndex>>,
}

/// `keyword` is an alias of `wmtr`.
pub open spec fn canonical_type(vt: VectorType) -> VectorType {
    if vt is Keyword {
        VectorType::Wmtr
    } else {
        vt
    }
}

fn canonical_vector_type(vt: VectorType) -> (r: VectorType)
    ensures
        r == canonical_type(vt),
{
    match vt {
        VectorType::Keyword => VectorType::Wmtr,
        other => other,
    }
}

/// Dense vectors are normalized unless the configuration says otherwise,
/// sparse ones are not.
pub open spec fn normalization_or_default(norm: Option<bool>, vt: VectorType) -> bool {
    match norm {
        Some(n) => n,
        None => vt.spec_is_dense(),
    }
}

fn apply_normalization_default(norm: Option<bool>, vector_type: &VectorType) -> (r: Option<bool>)
    ensures
        r == Some(normalization_or_default(norm, *vector_type)),
{
    match norm {
        Some(n) => Some(n),
        None => Some(vector_type.is_dense()),
    }
}

fn default_index_fields() -> (r: Vec<DocumentField>)
    ensures
        r@ == seq![DocumentField::Content],
{
    vec![DocumentField::Content]
}

/// How a vector's configuration is stored.
pub open spec fn stored_as(v: VectorConfig, r: VectorConfigInternal) -> bool {
    let templated = v.doc_template is Some || v.query_template is Some;
    &&& r.version == 1
    &&& r.name == v.name
    &&& r.vector_type == canonical_type(v.vector_type)
    &&& r.model == v.model
    &&& r.revision == v.revision
    &&& r.query_model == v.query_model
    &&& r.query_revision == v.query_revision
    &&& r.dimensions == v.dimensions
    &&& r.top_k == v.top_k
    &&& r.wmtr_word_ratio == v.wmtr_word_ratio
    &&& templated ==> r.index_fields is None && r.doc_template == v.doc_template
        && r.query_template == v.query_template
    &&& !templated ==> r.doc_template is None && r.query_template is None && r.index_fields is Some
        && (if v.index_fields is Some {
        r.index_fields == v.index_fields
    } else {
        r.index_fields->0@ == seq![DocumentField::Content]
    })
    &&& r.language_default_code == v.language_default_code
    &&& r.language_detect == v.language_detect
    &&& r.language_confidence == v.language_confidence
    &&& r.normalization == Some(normalization_or_default(v.normalization, r.vector_type))
    &&& r.dense_distance == v.dense_distance
    &&& r.keep_case == v.keep_case
}

/// How a stored configuration of a vector is shown: the query model and the
/// case setting stay hidden.
pub open spec fn shown_as(v: VectorConfigInternal, r: VectorConfig) -> bool {
    &&& r.name == v.name
    &&& r.vector_type == canonical_type(v.vector_type)
    &&& r.model == v.model
    &&& r.revision == v.revision
    &&& r.query_model is None
    &&& r.query_revision is None
    &&& r.dimensions == v.dimensions
    &&& r.top_k == v.top_k
    &&& r.wmtr_word_ratio == v.wmtr_word_ratio
    &&& (if v.doc_template is Some {
        r.index_fields is None
    } else if v.index_fields is Some {
        r.index_fields == v.index_fields
    } else {
        r.index_fields is Some && r.index_fields->0@ == seq![DocumentField::Content]
    })
    &&& r.doc_template == v.doc_template
    &&& r.query_template == v.query_template
    &&& r.language_default_code == v.language_default_code
    &&& r.language_detect == v.language_detect
    &&& r.language_confidence == v.language_confidence
    &&& r.normalization == Some(normalization_or_default(v.normalization, r.vector_type))
    &&& r.dense_distance == v.dense_distance
    &&& r.keep_case == Some(false)
}

impl VectorConfigInternal {
    /// The stored form of a vector's configuration.
    pub fn from_config(v: VectorConfig) -> (r: VectorConfigInternal)
        ensures
            stored_as(v, r),
    {
        let vector_type = canonical_vector_type(v.vector_type);
        let normalization = apply_normalization_default(v.normalization, &vector_type);
        let (index_fields, doc_template, query_template) = if v.doc_template.is_some()
            || v.query_template.is_some() {
            (None, v.doc_template, v.query_template)
        } else {
            match v.index_fields {
                Some(fields) => (Some(fields), None, None),
                None => (Some(default_index_fields()), None, None),
            }
        };
        VectorConfigInternal {
            version: 1,
            name: v.name,
            vector_type,
            model: v.model,
            revision: v.revision,
            query_model: v.query_model,
            query_revision: v.query_revision,
            dimensions: v.dimensions,
            top_k: v.top_k,
            wmtr_word_ratio: v.wmtr_word_ratio,
            index_fields,
            doc_template,
            query_template,
            language_default_code: v.language_default_code,
            language_detect: v.language_detect,
            language_confidence: v.language_confidence,
            normalization,
            dense_distance: v.dense_distance,
            keep_case: v.keep_case,
        }
    }
}

impl VectorConfig {
    /// The form in which a stored configuration is shown.
    pub fn from_internal(v: VectorConfigInternal) -> (r: VectorConfig)
        ensures
            shown_as(v, r),
    {
        let vector_type = canonical_vector_type(v.vector_type);
        let normalization = apply_normalization_default(v.normalization, &vector_type);
        let index_fields = if v.doc_template.is_some() {
            None
        } else {
            match v.index_fields {
                Some(fields) => Some(fields),
                None => Some(default_index_fields()),
            }
        };
        VectorConfig {
            name: v.name,
            vector_type,
            model: v.model,
            revision: v.revision,
            query_model: None,
            query_revision: None,
            dimensions: v.dimensions,
            top_k: v.top_k,
            wmtr_word_ratio: v.wmtr_word_ratio,
            index_fields,
            doc_template: v.doc_template,
            query_template: v.query_template,
            language_default_code: v.language_default_code,
            language_detect: v.language_detect,
            language_confidence: v.language_confidence,
            normalization,
            dense_distance: v.dense_distance,
            keep_case: Some(false),
        }
    }
}

/// What is shown of a stored configuration is stored as it was, but for the
/// hidden query model and case setting: showing, storing and showing again
/// gives what was shown first.
pub proof fn shown_configs_are_stable(
    stored: VectorConfigInternal,
    shown: VectorConfig,
    stored_again: VectorConfigInternal,
    shown_again: VectorConfig,
)
    requires
        shown_as(stored, shown),
        stored_as(shown, stored_again),
        shown_as(stored_again, shown_again),
        stored.doc_template is None ==> stored.query_template is None,
    ensures
        shown_again.name == shown.name,
        shown_again.vector_type == shown.vector_type,
        shown_again.model == shown.model,
        shown_again.revision == shown.revision,
        shown_again.query_model is None,
        shown_again.query_revision is None,
        shown_again.dimensions == shown.dimensions,
        shown_again.top_k == shown.top_k,
        shown_again.wmtr_word_ratio == shown.wmtr_word_ratio,
        shown_again.index_fields == shown.index_fields,
        shown_again.doc_template == shown.doc_template,
        shown_again.query_template == shown.query_template,
        shown_again.language_default_code == shown.language_default_code,
        shown_again.language_detect == shown.language_detect,
        shown_again.language_confidence == shown.language_confidence,
        shown_again.normalization == shown.normalization,
        shown_again.dense_distance == shown.dense_distance,
        shown_again.keep_case == shown.keep_case,
{
}

impl CollectionConfig {
    /// The form in which a stored collection configuration is shown.
    pub fn from_internal(c: CollectionConfigInternal) -> (r: CollectionConfig)
        ensures
            r.vectors@.len() == c.vectors@.len(),
            forall|i: int| 0 <= i < c.vectors@.len() ==> shown_as(c.vectors@[i], #[trigger] r.vectors@[i]),
            r.store_content == c.store_content,
            r.metadata_indexes == c.metadata_indexes,
    {
        let ghost all = c.vectors@;
        let mut vectors: Vec<VectorConfig> = Vec::new();
        for v in it: c.vectors
            invariant
                it.seq() == all,
                vectors@.len() == it.index(),
                forall|i: int| 0 <= i < it.index() ==> shown_as(all[i], #[trigger] vectors@[i]),
        {
            vectors.push(VectorConfig::from_internal(v));
        }
        CollectionConfig {
            vectors,
            store_content: c.store_content,
            metadata_indexes: c.metadata_indexes,
        }
    }
}

/// A vector that a document brings along for one of its fields.
#[derive(Debug, Clone, PartialEq, Eq)]
pub struct CustomDocumentVector {
    pub vector_name: String,
    pub vector: JsonValue,
    pub field: DocumentField,
}

/// A document. The keys of `metadata`, of `joined` and of `token_lengths` are
/// each distinct.
#[derive(Debug, PartialEq, Eq)]
pub struct Document {
    pub id: String,
    pub timestamp: Timestamp,
    pub tags: Option<Vec<String>>,
    pub name: Option<String>,
    pub description: Option<String>,
    pub content: Option<String>,
    /// Hash of the content, for collections that do not store it.
    pub content_hash: Option<String>,
    pub metadata: Option<Vec<(String, JsonValue)>>,
    pub custom_vectors: Option<Vec<CustomDocumentVector>>,
    pub joined: Option<Vec<(String, Vec<Document>)>>,
    pub vectors: Option<Vec<VectorData>>,
    pub token_lengths: Vec<(String, usize)>,
}

#[derive(Debug, PartialEq, Eq)]
pub struct BulkUploadRequest {
    pub documents: Vec<Document>,
}

/// A vector computed for one field. The single-precision components are held
/// as their bit patterns.
#[derive(Debug, Clone, PartialEq, Eq)]
pub struct VectorData {
    pub vector_name: String,
    pub field: DocumentField,
    pub vector_type: VectorType,
    pub dense_vector: Option<Vec<u32>>,
    pub sparse_indices: Option<Vec<u32>>,
    pub sparse_values: Option<Vec<u32>>,
}

#[derive(Debug, Clone, PartialEq, Eq)]
pub struct CustomVector {
    pub vector_name: String,
    pub vector: JsonValue,
}

#[derive(Debug, Clone, PartialEq, Eq)]
pub struct VectorSearchOption {
    pub vector_name: String,
    pub weight: Double,
    /// Optional for template-based vectors (ignored if present).
    pub field: Option<DocumentField>,
    pub wmtr_trigram_weight: Double,
}

/// A node of a metadata filter: a comparison, or a combination of nodes.
#[derive(Debug, PartialEq, Eq)]
pub struct MetadataFilter {
    pub and_: Option<Vec<MetadataFilter>>,
    pub or_: Option<Vec<MetadataFilter>>,
    pub not_: Option<Box<MetadataFilter>>,
    pub key: Option<String>,
    pub op: Option<String>,
    pub value: Option<JsonValue>,
}

/// Faceting options for a search query.
#[derive(Debug, Clone, Copy, PartialEq, Eq, Hash, Structural)]
pub struct FacetOptions {
    pub prefetch_multiplier: u32,
    pub max_values: u32,
}

/// Everything in a search query but its text.
#[derive(Debug, Clone, PartialEq, Eq)]
pub struct SearchQuerySettings {
    pub vector_options: Vec<VectorSearchOption>,
    pub custom_vectors: Option<Vec<CustomVector>>,
    pub limit: u32,
    pub score_threshold: Option<Double>,
    pub document_tags: Option<Vec<String>>,
    pub document_tags_match_all: bool,
    pub metadata_filter: Option<MetadataFilter>,
    pub raw_scores: bool,
    pub fusion_mode: String,
    pub join: Option<JoinField>,
    pub exclude: Option<Vec<SearchExcludeField>>,
    pub group_field: Option<String>,
    pub group_max: u32,
    pub group_max_fetches: u32,
    pub facets: bool,
    pub facet_options: Option<FacetOptions>,
}

#[derive(Debug, Clone, PartialEq, Eq)]
pub struct SearchQuery {
    pub query: String,
    pub settings: SearchQuerySettings,
}

/// A search query with the vectors computed from its text.
#[derive(Debug, Clone, PartialEq, Eq)]
pub struct SearchQueryWithVectors {
    pub query: String,
    pub settings: SearchQuerySettings,
    pub vectors: Vec<VectorData>,
}

#[derive(Debug, Clone, PartialEq, Eq)]
pub struct ModelValidationResult {
    pub valid: bool,
    pub dimension: Option<u32>,
    pub error: Option<String>,
}

/// The outcome of a model validation: results by vector name, or an error.
#[derive(Debug, Clone, PartialEq, Eq)]
pub struct ModelValidationResponse {
    pub results: Option<Vec<(String, ModelValidationResult)>>,
    pub error: Option<String>,
}

#[derive(Debug, Clone, PartialEq, Eq)]
pub struct VectorScore {
    pub field: String,
    pub vector: String,
    pub score: Double,
    pub rank: u32,
}

/// A document found by a search, with its score.
#[derive(Debug, PartialEq, Eq)]
pub struct SearchResult {
    pub document: Document,
    pub score: Double,
    pub vector_scores: Vec<VectorScore>,
}

/// What a search found, with the counts of its facets where the query asked
/// for them: field by field, each with its values and their counts.
#[derive(Debug, PartialEq, Eq)]
pub struct SearchOutcome {
    pub results: Vec<SearchResult>,
    pub facet_counts: Option<Vec<(String, Vec<(String, u64)>)>>,
}

impl SearchOutcome {
    pub fn new(results: Vec<SearchResult>) -> (r: Self)
        ensures
            r.results == results,
            r.facet_counts is None,
    {
        SearchOutcome { results, facet_counts: None }
    }
}

/// The answer to a search, with the time it took.
#[derive(Debug, PartialEq, Eq)]
pub struct SearchResponse {
    pub results: Vec<SearchResult>,
    pub query_time_ms: Double,
}

/// A request for one page of a collection's documents.
#[derive(Debug, Clone, PartialEq, Eq)]
pub struct DocumentFetchRequest {
    pub page_size: u32,
    /// Where the page before ended.
    pub after: Option<String>,
    pub metadata_filter: Option<MetadataFilter>,
    pub document_tags: Option<Vec<String>>,
    pub document_tags_match_all: bool,
    pub join: Option<JoinField>,
    pub with_vectors: bool,
}

/// One page of a collection's documents.
#[derive(Debug, PartialEq, Eq)]
pub struct DocumentFetchResponse {
    pub documents: Vec<Document>,
    /// Where the next page starts; none after the last page.
    pub after: Option<String>,
}

/// A metadata value in its flat form: `{"value": x, "type": t}` stands for `x`.
pub open spec fn flat_value(v: Json) -> Json {
    match v {
        Json::Object(o) => if o.len() == 2 && json::member(o, "value"@) is Some && json::member(
            o,
            "type"@,
        ) is Some {
            json::member(o, "value"@)->0
        } else {
            v
        },
        _ => v,
    }
}

/// Metadata with every value in its flat form.
pub open spec fn flat_metadata(m: Seq<(Seq<char>, Json)>) -> Seq<(Seq<char>, Json)> {
    Seq::new(m.len(), |i: int| (m[i].0, flat_value(m[i].1)))
}

/// A document whose `metadata`, where it is an object, is flat.
pub open spec fn flat_document(v: Json) -> Json {
    match v {
        Json::Object(m) => {
            let i = json::member_index(m, "metadata"@);
            if i < m.len() && m[i].1 is Object {
                Json::Object(
                    m.update(i, (m[i].0, Json::Object(flat_metadata(m[i].1->Object_0)))),
                )
            } else {
                v
            }
        },
        _ => v,
    }
}

fn flatten_value(v: &JsonValue) -> (r: JsonValue)
    ensures
        r@ == flat_value(v@),
{
    if let JsonValue::Object(o) = v {
        proof {
            JsonValue::object_view(*o);
        }
        if o.len() == 2 {
            if let Some(inner) = get_member(o, "value") {
                if get_member(o, "type").is_some() {
                    return inner.duplicate();
                }
            }
        }
    }
    v.duplicate()
}

fn flatten_members(meta: &Vec<(String, JsonValue)>) -> (r: Vec<(String, JsonValue)>)
    ensures
        json::members(r@) == flat_metadata(json::members(meta@)),
{
    let mut out: Vec<(String, JsonValue)> = Vec::new();
    let mut i: usize = 0;
    while i < meta.len()
        invariant
            i <= meta@.len(),
            json::members(out@) == flat_metadata(json::members(meta@)).take(i as int),
        decreases meta.len() - i,
    {
        let ghost before = json::members(out@);
        out.push((meta[i].0.clone(), flatten_value(&meta[i].1)));
        proof {
            assert(json::members(meta@)[i as int] == (meta@[i as int].0@, meta@[i as int].1@));
            assert(json::members(out@) =~= before.push(
                (meta@[i as int].0@, flat_value(meta@[i as int].1@)),
            ));
            assert(flat_metadata(json::members(meta@)).take(i as int + 1) =~= flat_metadata(
                json::members(meta@),
            ).take(i as int).push(flat_metadata(json::members(meta@))[i as int]));
        }
        i += 1;
    }
    assert(flat_metadata(json::members(meta@)).take(i as int) =~= flat_metadata(
        json::members(meta@),
    ));
    out
}

/// Unwraps wrapped metadata entries `{"key": {"value": x, "type": y}}` to
/// `{"key": x}`. Called when documents leave through the API.
pub fn flatten_doc_metadata(val: JsonValue) -> (r: JsonValue)
    ensures
        r@ == flat_document(val@),
{
    match val {
        JsonValue::Object(mut m) => {
            proof {
                JsonValue::object_view(m);
            }
            let ghost before = json::members(m@);
            let i = find_member(&m, "metadata");
            if i < m.len() {
                let flattened = if let JsonValue::Object(meta) = &m[i].1 {
                    proof {
                        JsonValue::object_view(*meta);
                    }
                    Some(flatten_members(meta))
                } else {
                    None
                };
                assert(before[i as int] == (m@[i as int].0@, m@[i as int].1@));
                if let Some(flat) = flattened {
                    proof {
                        JsonValue::object_view(flat);
                    }
                    let key = m[i].0.clone();
                    m.set(i, (key, JsonValue::Object(flat)));
                    assert(json::members(m@) =~= before.update(
                        i as int,
                        (
                            before[i as int].0,
                            Json::Object(flat_metadata(before[i as int].1->Object_0)),
                        ),
                    ));
                }
            }
            proof {
                JsonValue::object_view(m);
            }
            JsonValue::Object(m)
        },
        other => other,
    }
}

/// A value without the object members that are null, at any depth. Null
/// elements of arrays stay.
pub open spec fn without_nulls(v: Json) -> Json
    decreases v,
{
    match v {
        Json::Object(m) => Json::Object(members_without_nulls(m)),
        Json::Array(a) => Json::Array(
            Seq::new(
                a.len(),
                |i: int|
                    if 0 <= i < a.len() {
                        without_nulls(a[i])
                    } else {
                        Json::Null
                    },
            ),
        ),
        _ => v,
    }
}

pub open spec fn members_without_nulls(m: Seq<(Seq<char>, Json)>) -> Seq<(Seq<char>, Json)>
    decreases m,
{
    if m.len() == 0 {
        Seq::empty()
    } else {
        let rest = members_without_nulls(m.drop_last());
        if m.last().1 is Null {
            rest
        } else {
            rest.push((m.last().0, without_nulls(m.last().1)))
        }
    }
}

/// Removes the object members that are null, at any depth.
pub fn strip_null_json_fields(val: &JsonValue) -> (r: JsonValue)
    ensures
        r@ == without_nulls(val@),
    decreases val,
{
    match val {
        JsonValue::Object(m) => {
            let mut out: Vec<(String, JsonValue)> = Vec::new();
            let mut i: usize = 0;
            proof {
                JsonValue::object_view(*m);
                assert(json::members(m@).take(0) =~= Seq::<(Seq<char>, Json)>::empty());
            }
            while i < m.len()
                invariant
                    i <= m@.len(),
                    json::members(out@) == members_without_nulls(
                        json::members(m@).take(i as int),
                    ),
                    decreases_to!(val => m),
                decreases m.len() - i,
            {
                let ghost next = json::members(m@).take(i as int + 1);
                proof {
                    assert(next.drop_last() =~= json::members(m@).take(i as int));
                    assert(next.last() == (m@[i as int].0@, m@[i as int].1@));
                    assert(decreases_to!(m => m@[i as int]));
                    assert(decreases_to!(m@[i as int] => m@[i as int].1));
                }
                if !m[i].1.is_null() {
                    let ghost before = json::members(out@);
                    out.push((m[i].0.clone(), strip_null_json_fields(&m[i].1)));
                    assert(json::members(out@) =~= before.push(
                        (m@[i as int].0@, without_nulls(m@[i as int].1@)),
                    ));
                }
                i += 1;
            }
            proof {
                assert(json::members(m@).take(i as int) =~= json::members(m@));
                JsonValue::object_view(out);
            }
            JsonValue::Object(out)
        },
        JsonValue::Array(a) => {
            let mut out: Vec<JsonValue> = Vec::new();
            let mut i: usize = 0;
            while i < a.len()
                invariant
                    i <= a@.len(),
                    out@.len() == i,
                    forall|k: int| 0 <= k < i ==> (#[trigger] out@[k])@ == without_nulls(a@[k]@),
                    decreases_to!(val => a),
                decreases a.len() - i,
            {
                assert(decreases_to!(a => a@[i as int]));
                out.push(strip_null_json_fields(&a[i]));
                i += 1;
            }
            proof {
                JsonValue::array_view(*a);
                JsonValue::array_view(out);
                assert(json::values(out@) =~= without_nulls(val@)->Array_0);
            }
            JsonValue::Array(out)
        },
        _ => val.duplicate(),
    }
}

proof fn lemma_stripped_members(m: Seq<(Seq<char>, Json)>)
    ensures
        forall|i: int| 0 <= i < members_without_nulls(m).len() ==> !((#[trigger]
        members_without_nulls(m)[i]).1 is Null),
        members_without_nulls(members_without_nulls(m)) == members_without_nulls(m),
    decreases m,
{
    if m.len() > 0 {
        let rest = members_without_nulls(m.drop_last());
        lemma_stripped_members(m.drop_last());
        if !(m.last().1 is Null) {
            stripping_nulls_is_idempotent(m.last().1);
            let full = rest.push((m.last().0, without_nulls(m.last().1)));
            assert(full.drop_last() =~= rest);
        }
    } else {
        assert(members_without_nulls(m) =~= m);
    }
}

/// A value that holds no null members is left as it is: stripping twice is
/// stripping once.
pub proof fn stripping_nulls_is_idempotent(v: Json)
    ensures
        without_nulls(without_nulls(v)) == without_nulls(v),
    decreases v,
{
    match v {
        Json::Object(m) => {
            lemma_stripped_members(m);
        },
        Json::Array(a) => {
            assert forall|i: int| 0 <= i < a.len() implies without_nulls(
                without_nulls(#[trigger] a[i]),
            ) == without_nulls(a[i]) by {
                stripping_nulls_is_idempotent(a[i]);
            }
            assert(without_nulls(without_nulls(v))->Array_0 =~= without_nulls(v)->Array_0);
        },
        _ => {},
    }
}

/// An exported document holds no member that is null.
pub proof fn exported_members_are_not_null(m: Seq<(Seq<char>, Json)>)
    ensures
        forall|i: int| 0 <= i < members_without_nulls(m).len() ==> !((#[trigger]
        members_without_nulls(m)[i]).1 is Null),
{
    lemma_stripped_members(m);
}

/// The form in which a document is exported: flat metadata and no null members.
pub fn export_value(val: JsonValue) -> (r: JsonValue)
    ensures
        r@ == without_nulls(flat_document(val@)),
{
    let flat = flatten_doc_metadata(val);
    strip_null_json_fields(&flat)
}

/// The members with each of the excluded fields set to null, one after the
/// other.
pub open spec fn with_nulls(
    m: Seq<(Seq<char>, Json)>,
    exclude: Seq<SearchExcludeField>,
) -> Seq<(Seq<char>, Json)>
    decreases exclude.len(),
{
    if exclude.len() == 0 {
        m
    } else {
        json::with_member(
            with_nulls(m, exclude.drop_last()),
            exclude.last().spec_name(),
            Json::Null,
        )
    }
}

/// A search hit with the excluded fields set to null, and with the documents
/// of each joined collection treated in the same way.
pub open spec fn excluded(v: Json, exclude: Seq<SearchExcludeField>) -> Json
    decreases v,
{
    match v {
        Json::Object(m) => {
            let i = json::member_index(m, "joined"@);
            let with_joined = if 0 <= i < m.len() && m[i].1 is Object {
                m.update(
                    i,
                    (m[i].0, Json::Object(joined_excluded(m[i].1->Object_0, exclude))),
                )
            } else {
                m
            };
            Json::Object(with_nulls(with_joined, exclude))
        },
        _ => v,
    }
}

/// The joined collections with the excluded fields of their documents set to
/// null; what is no list of documents stays.
pub open spec fn joined_excluded(
    joined: Seq<(Seq<char>, Json)>,
    exclude: Seq<SearchExcludeField>,
) -> Seq<(Seq<char>, Json)>
    decreases joined,
{
    Seq::new(
        joined.len(),
        |i: int|
            if 0 <= i < joined.len() {
                (
                    joined[i].0,
                    match joined[i].1 {
                        Json::Array(docs) => Json::Array(
                            Seq::new(
                                docs.len(),
                                |k: int|
                                    if 0 <= k < docs.len() {
                                        excluded(docs[k], exclude)
                                    } else {
                                        Json::Null
                                    },
                            ),
                        ),
                        other => other,
                    },
                )
            } else {
                (Seq::empty(), Json::Null)
            },
    )
}

fn exclude_in_joined(
    joined: &Vec<(String, JsonValue)>,
    exclude: &Vec<SearchExcludeField>,
) -> (r: Vec<(String, JsonValue)>)
    ensures
        json::members(r@) == joined_excluded(json::members(joined@), exclude@),
    decreases joined,
{
    let mut out: Vec<(String, JsonValue)> = Vec::new();
    let mut i: usize = 0;
    let ghost goal = joined_excluded(json::members(joined@), exclude@);
    while i < joined.len()
        invariant
            i <= joined@.len(),
            out@.len() == i,
            goal == joined_excluded(json::members(joined@), exclude@),
            forall|k: int|
                0 <= k < i ==> ((#[trigger] out@[k]).0@, out@[k].1@) == goal[k],
        decreases joined.len() - i,
    {
        assert(decreases_to!(joined => joined@[i as int]));
        assert(decreases_to!(joined@[i as int] => joined@[i as int].1));
        assert(json::members(joined@)[i as int] == (
            joined@[i as int].0@,
            joined@[i as int].1@,
        ));
        let name = joined[i].0.clone();
        match &joined[i].1 {
            JsonValue::Array(docs) => {
                let mut new_docs: Vec<JsonValue> = Vec::new();
                let mut k: usize = 0;
                while k < docs.len()
                    invariant
                        k <= docs@.len(),
                        new_docs@.len() == k,
                        decreases_to!(joined => docs),
                        forall|j: int|
                            0 <= j < k ==> (#[trigger] new_docs@[j])@ == excluded(
                                docs@[j]@,
                                exclude@,
                            ),
                    decreases docs.len() - k,
                {
                    assert(decreases_to!(docs => docs@[k as int]));
                    new_docs.push(apply_search_exclude(&docs[k], exclude));
                    k += 1;
                }
                proof {
                    JsonValue::array_view(*docs);
                    JsonValue::array_view(new_docs);
                    assert(json::values(new_docs@) =~= goal[i as int].1->Array_0);
                }
                out.push((name, JsonValue::Array(new_docs)));
            },
            other => {
                out.push((name, other.duplicate()));
            },
        }
        i += 1;
    }
    assert(json::members(out@) =~= goal);
    out
}

/// Nulls out excluded fields of a search hit, also in its joined documents.
/// Fields are set to null rather than removed so the response shape stays
/// stable.
pub fn apply_search_exclude(val: &JsonValue, exclude: &Vec<SearchExcludeField>) -> (r: JsonValue)
    ensures
        r@ == excluded(val@, exclude@),
    decreases val,
{
    match val {
        JsonValue::Object(m) => {
            proof {
                JsonValue::object_view(*m);
            }
            let at = find_member(m, "joined");
            let mut out: Vec<(String, JsonValue)> = Vec::new();
            let ghost i0 = json::member_index(json::members(m@), "joined"@);
            let ghost with_joined = if i0 < m@.len() && json::members(m@)[i0].1 is Object {
                json::members(m@).update(
                    i0,
                    (
                        json::members(m@)[i0].0,
                        Json::Object(
                            joined_excluded(json::members(m@)[i0].1->Object_0, exclude@),
                        ),
                    ),
                )
            } else {
                json::members(m@)
            };
            let mut i: usize = 0;
            while i < m.len()
                invariant
                    i <= m@.len(),
                    out@.len() == i,
                    at == i0,
                    i0 == json::member_index(json::members(m@), "joined"@),
                    decreases_to!(val => m),
                    with_joined == (if i0 < m@.len() && json::members(m@)[i0].1 is Object {
                        json::members(m@).update(
                            i0,
                            (
                                json::members(m@)[i0].0,
                                Json::Object(
                                    joined_excluded(json::members(m@)[i0].1->Object_0, exclude@),
                                ),
                            ),
                        )
                    } else {
                        json::members(m@)
                    }),
                    forall|k: int|
                        0 <= k < i ==> ((#[trigger] out@[k]).0@, out@[k].1@) == with_joined[k],
                decreases m.len() - i,
            {
                assert(decreases_to!(m => m@[i as int]));
                assert(decreases_to!(m@[i as int] => m@[i as int].1));
                assert(json::members(m@)[i as int] == (m@[i as int].0@, m@[i as int].1@));
                let key = m[i].0.clone();
                if i == at {
                    if let JsonValue::Object(joined) = &m[i].1 {
                        proof {
                            JsonValue::object_view(*joined);
                        }
                        let stripped = exclude_in_joined(joined, exclude);
                        proof {
                            JsonValue::object_view(stripped);
                        }
                        out.push((key, JsonValue::Object(stripped)));
                    } else {
                        out.push((key, m[i].1.duplicate()));
                    }
                } else {
                    out.push((key, m[i].1.duplicate()));
                }
                i += 1;
            }
            assert(json::members(out@) =~= with_joined);
            let mut k: usize = 0;
            assert(exclude@.take(0) =~= Seq::<SearchExcludeField>::empty());
            while k < exclude.len()
                invariant
                    k <= exclude@.len(),
                    json::members(out@) == with_nulls(with_joined, exclude@.take(k as int)),
                decreases exclude.len() - k,
            {
                assert(exclude@.take(k as int + 1).drop_last() =~= exclude@.take(k as int));
                set_member(&mut out, exclude[k].as_str(), JsonValue::Null);
                k += 1;
            }
            assert(exclude@.take(k as int) =~= exclude@);
            proof {
                JsonValue::object_view(out);
            }
            JsonValue::Object(out)
        },
        _ => val.duplicate(),
    }
}

proof fn lemma_with_nulls_keeps(
    m: Seq<(Seq<char>, Json)>,
    exclude: Seq<SearchExcludeField>,
    field: SearchExcludeField,
)
    requires
        exclude.contains(field),
    ensures
        json::member(with_nulls(m, exclude), field.spec_name()) == Some(Json::Null),
    decreases exclude.len(),
{
    let before = with_nulls(m, exclude.drop_last());
    let name = exclude.last().spec_name();
    lemma_member_after_set(before, name, Json::Null, field.spec_name());
    if field != exclude.last() {
        assert(exclude.drop_last().contains(field)) by {
            let i = choose|i: int| 0 <= i < exclude.len() && exclude[i] == field;
            assert(exclude.drop_last()[i] == field);
        }
        lemma_with_nulls_keeps(m, exclude.drop_last(), field);
    }
}

proof fn lemma_member_after_set(
    m: Seq<(Seq<char>, Json)>,
    key: Seq<char>,
    value: Json,
    other: Seq<char>,
)
    ensures
        json::member(json::with_member(m, key, value), key) == Some(value),
        other != key ==> json::member(json::with_member(m, key, value), other) == json::member(
            m,
            other,
        ),
{
    let after = json::with_member(m, key, value);
    json::member_index_is_first(m, key);
    json::member_index_is_first(m, other);
    json::member_index_is_first(after, key);
    json::member_index_is_first(after, other);
    json::insert_index_bounds(m, key);
    let i = json::member_index(m, key);
    if i < m.len() {
        assert(after[i] == (key, value));
        let a = json::member_index(after, key);
        if a < i {
            assert(m[a].0 != key);
        }
        if other != key {
            let o = json::member_index(m, other);
            let b = json::member_index(after, other);
            if o < m.len() {
                assert(after[o].0 == other);
                if b < o {
                    assert(m[b].0 == other);
                }
            } else if b < after.len() {
                assert(m[b].0 == other);
            }
        }
    } else {
        let at = json::insert_index(m, key);
        assert(after[at] == (key, value));
        let a = json::member_index(after, key);
        if a < at {
            assert(after[a] == m[a]);
        }
        if other != key {
            let o = json::member_index(m, other);
            let b = json::member_index(after, other);
            if o < m.len() {
                let shifted = if o < at {
                    o
                } else {
                    o + 1
                };
                assert(after[shifted] == m[o]);
                if b < shifted {
                    assert(after[b] == m[if b < at {
                        b
                    } else {
                        b - 1
                    }]);
                }
            } else if b < after.len() {
                assert(after[b] == m[if b < at {
                    b
                } else {
                    b - 1
                }]);
            }
        }
    }
}

/// Every excluded field of a search hit is null, whether or not the hit had it.
pub proof fn excluded_fields_are_null(
    m: Seq<(Seq<char>, Json)>,
    exclude: Seq<SearchExcludeField>,
    field: SearchExcludeField,
)
    requires
        exclude.contains(field),
    ensures
        excluded(Json::Object(m), exclude) is Object,
        json::member(excluded(Json::Object(m), exclude)->Object_0, field.spec_name()) == Some(
            Json::Null,
        ),
{
    let i = json::member_index(m, "joined"@);
    let with_joined = if 0 <= i < m.len() && m[i].1 is Object {
        m.update(i, (m[i].0, Json::Object(joined_excluded(m[i].1->Object_0, exclude))))
    } else {
        m
    };
    lemma_with_nulls_keeps(with_joined, exclude, field);
}

/// A configured vector is stored as it was given, except that a vector with a
/// template has no fields, one without both is made of the content, and one that
/// does not say whether it is normalized is if it is dense.
pub proof fn configs_are_stored_as_given(v: VectorConfig, r: VectorConfigInternal)
    requires
        stored_as(v, r),
    ensures
        r.name == v.name,
        r.model == v.model && r.revision == v.revision,
        r.query_model == v.query_model && r.query_revision == v.query_revision,
        r.dimensions == v.dimensions && r.top_k == v.top_k && r.wmtr_word_ratio
            == v.wmtr_word_ratio,
        r.language_default_code == v.language_default_code && r.language_detect
            == v.language_detect && r.language_confidence == v.language_confidence,
        r.dense_distance == v.dense_distance && r.keep_case == v.keep_case,
        !(v.vector_type is Keyword) ==> r.vector_type == v.vector_type,
        v.vector_type is Keyword ==> r.vector_type == VectorType::Wmtr,
        v.normalization is Some ==> r.normalization == v.normalization,
        v.normalization is None ==> r.normalization == Some(
            v.vector_type == VectorType::DenseModel || v.vector_type == VectorType::DenseCustom,
        ),
        v.doc_template is Some || v.query_template is Some ==> r.index_fields is None
            && r.doc_template == v.doc_template && r.query_template == v.query_template,
        v.doc_template is None && v.query_template is None ==> r.doc_template is None
            && r.query_template is None && (v.index_fields is Some ==> r.index_fields
            == v.index_fields) && (v.index_fields is None ==> (r.index_fields matches Some(fs)
            && fs@ == seq![DocumentField::Content])),
{
}

/// A stored vector is shown as it is stored, without the models for queries and
/// without whether the case of letters is kept.
pub proof fn configs_are_shown_as_stored(v: VectorConfigInternal, r: VectorConfig)
    requires
        shown_as(v, r),
    ensures
        r.name == v.name,
        !(v.vector_type is Keyword) ==> r.vector_type == v.vector_type,
        r.model == v.model && r.revision == v.revision,
        r.query_model is None && r.query_revision is None,
        r.dimensions == v.dimensions && r.top_k == v.top_k && r.wmtr_word_ratio
            == v.wmtr_word_ratio,
        r.doc_template == v.doc_template && r.query_template == v.query_template,
        v.doc_template is Some ==> r.index_fields is None,
        v.doc_template is None && v.index_fields is Some ==> r.index_fields == v.index_fields,
        r.language_default_code == v.language_default_code && r.language_detect
            == v.language_detect && r.language_confidence == v.language_confidence,
        v.normalization is Some ==> r.normalization == v.normalization,
        r.dense_distance == v.dense_distance,
        r.keep_case == Some(false),
{
}

/// A value with its type beside it is shown bare; any other value is shown as it
/// is.
pub proof fn typed_values_are_shown_bare(t: Json, v: Json, other: Json)
    requires
        match other {
            Json::Object(o) => o.len() != 2 || json::member(o, "type"@) is None || json::member(
                o,
                "value"@,
            ) is None,
            _ => true,
        },
    ensures
        flat_value(Json::Object(seq![("type"@, t), ("value"@, v)])) == v,
        flat_value(Json::Object(seq![("value"@, v), ("type"@, t)])) == v,
        flat_value(other) == other,
{
    reveal_strlit("type");
    reveal_strlit("value");
    assert("type"@.len() != "value"@.len());
    let a = seq![("type"@, t), ("value"@, v)];
    let b = seq![("value"@, v), ("type"@, t)];
    json::the_first_member_counts(a, "type"@, 0);
    json::the_first_member_counts(a, "value"@, 1);
    json::the_first_member_counts(b, "value"@, 0);
    json::the_first_member_counts(b, "type"@, 1);
}

/// Of a shown document only the metadata is changed: each value under its key.
pub proof fn only_metadata_is_flattened(
    m: Seq<(Seq<char>, Json)>,
    key: Seq<char>,
    meta: Seq<(Seq<char>, Json)>,
    i: int,
)
    ensures
        flat_document(Json::Object(m)) is Object,
        key != "metadata"@ ==> json::member(flat_document(Json::Object(m))->Object_0, key)
            == json::member(m, key),
        json::member(m, "metadata"@) == Some(Json::Object(meta)) ==> json::member(
            flat_document(Json::Object(m))->Object_0,
            "metadata"@,
        ) == Some(Json::Object(flat_metadata(meta))),
        flat_metadata(meta).len() == meta.len(),
        0 <= i < meta.len() ==> flat_metadata(meta)[i] == (meta[i].0, flat_value(meta[i].1)),
{
    let k = "metadata"@;
    json::member_index_is_first(m, k);
    json::member_index_is_first(m, key);
    let at = json::member_index(m, k);
    let n = flat_document(Json::Object(m))->Object_0;
    assert(n.len() == m.len());
    assert(forall|x: int| 0 <= x < m.len() ==> (#[trigger] n[x]).0 == m[x].0);
    assert(forall|x: int| 0 <= x < m.len() && x != at ==> #[trigger] n[x] == m[x]);
    let o = json::member_index(m, key);
    json::the_first_member_counts(n, key, o);
    json::the_first_member_counts(n, k, at);
}

/// Members that are null are left out wherever they stand; the others stay, in
/// order and under their keys. Plain values stay as they are.
pub proof fn nulls_are_left_out(m: Seq<(Seq<char>, Json)>, key: Seq<char>, v: Json, b: bool, s: Seq<char>)
    ensures
        members_without_nulls(Seq::empty()) == Seq::<(Seq<char>, Json)>::empty(),
        v is Null ==> members_without_nulls(m.push((key, v))) == members_without_nulls(m),
        !(v is Null) ==> members_without_nulls(m.push((key, v))) == members_without_nulls(m).push(
            (key, without_nulls(v)),
        ),
        without_nulls(Json::Object(m)) == Json::Object(members_without_nulls(m)),
        v is Number || v is Bool || v is Text || v is Null ==> without_nulls(v) == v,
{
    assert(m.push((key, v)).drop_last() =~= m);
}

/// A list keeps its length, and nulls are left out of what it holds.
pub proof fn nulls_are_left_out_of_lists(a: Seq<Json>, i: int)
    requires
        0 <= i < a.len(),
    ensures
        without_nulls(Json::Array(a)) is Array,
        without_nulls(Json::Array(a))->Array_0.len() == a.len(),
        without_nulls(Json::Array(a))->Array_0[i] == without_nulls(a[i]),
{
}

/// Excluding fields leaves the other members of a result as they are.
pub proof fn other_fields_stay(
    m: Seq<(Seq<char>, Json)>,
    exclude: Seq<SearchExcludeField>,
    key: Seq<char>,
)
    requires
        key != "joined"@,
        forall|i: int| 0 <= i < exclude.len() ==> (#[trigger] exclude[i]).spec_name() != key,
    ensures
        excluded(Json::Object(m), exclude) is Object,
        json::member(excluded(Json::Object(m), exclude)->Object_0, key) == json::member(m, key),
{
    let k = "joined"@;
    json::member_index_is_first(m, k);
    json::member_index_is_first(m, key);
    let at = json::member_index(m, k);
    let n = if 0 <= at < m.len() && m[at].1 is Object {
        m.update(at, (m[at].0, Json::Object(joined_excluded(m[at].1->Object_0, exclude))))
    } else {
        m
    };
    assert(n.len() == m.len());
    assert(forall|x: int| 0 <= x < m.len() ==> (#[trigger] n[x]).0 == m[x].0);
    assert(forall|x: int| 0 <= x < m.len() && x != at ==> #[trigger] n[x] == m[x]);
    json::the_first_member_counts(n, key, json::member_index(m, key));
    lemma_nulls_elsewhere(n, exclude, key);
}

proof fn lemma_nulls_elsewhere(
    m: Seq<(Seq<char>, Json)>,
    exclude: Seq<SearchExcludeField>,
    key: Seq<char>,
)
    requires
        forall|i: int| 0 <= i < exclude.len() ==> (#[trigger] exclude[i]).spec_name() != key,
    ensures
        json::member(with_nulls(m, exclude), key) == json::member(m, key),
    decreases exclude.len(),
{
    if exclude.len() > 0 {
        let init = exclude.drop_last();
        assert forall|i: int| 0 <= i < init.len() implies (#[trigger] init[i]).spec_name() != key by {
            assert(init[i] == exclude[i]);
        }
        lemma_nulls_elsewhere(m, init, key);
        let last = exclude[exclude.len() - 1];
        json::set_members_are_read_back(
            with_nulls(m, init),
            last.spec_name(),
            Json::Null,
            key,
        );
    }
}

/// What is excluded of a result is excluded of the documents joined to it too.
pub proof fn joined_documents_are_excluded_alike(
    joined: Seq<(Seq<char>, Json)>,
    exclude: Seq<SearchExcludeField>,
    i: int,
    docs: Seq<Json>,
    k: int,
)
    requires
        0 <= i < joined.len(),
        joined[i].1 == Json::Array(docs),
        0 <= k < docs.len(),
    ensures
        joined_excluded(joined, exclude).len() == joined.len(),
        joined_excluded(joined, exclude)[i].0 == joined[i].0,
        joined_excluded(joined, exclude)[i].1 is Array,
        joined_excluded(joined, exclude)[i].1->Array_0.len() == docs.len(),
        joined_excluded(joined, exclude)[i].1->Array_0[k] == excluded(docs[k], exclude),
{
    reveal_with_fuel(joined_excluded, 2);
}

} // verus!
