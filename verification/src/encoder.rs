//! Validation of documents and filters against a collection, and the errors of
//! upserts and searches.

use vstd::prelude::*;
use crate::common::{DocumentField, MAX_INDEXED_METADATA_VALUE_LENGTH};
use crate::datetime_parse;
use crate::datetime_parse::is_valid_datetime_string;
use crate::functions;
use crate::json;
use crate::json::{get_member, Json, JsonValue};
use crate::models::{
    CollectionConfigInternal, Document, MetadataFilter, MetadataIndex, VectorConfigInternal,
};
use crate::qdrant::DbError;
use crate::templates;
use crate::templates::{field_slots, has_template_changed};
use crate::text;
use crate::text::{char_count, same_opt_text, same_text, text3, text5};

verus! {

/// Token-length sums of one field of a batch, for the collection's statistics.
#[derive(Debug, Clone, Copy, PartialEq, Eq, Structural)]
pub struct TokenLengthUpdate {
    pub new_doc_count: i64,
    pub new_sum_token_lengths: i64,
    pub update_doc_count: i64,
    pub update_sum_token_lengths: i64,
    pub old_sum_token_lengths: i64,
}

/// Why an upsert or a delete did not go through.
#[derive(Debug, PartialEq, Eq)]
pub enum UpsertSyncError {
    NotFound(String),
    Db(DbError),
    /// The document itself is not acceptable; queue rows fail immediately.
    Validation(String),
    Vectorization(String),
    /// The collection of a queue row was recreated since.
    QueueCollectionMismatch(String),
    /// The ingress buffer has no space; clients should retry with backoff.
    IngressQueueFull(String),
    /// The ingress worker is gone.
    IngressWorkerExited(String),
    /// The queue row was already gone under the document's lock. Not a failure:
    /// the row must not be acknowledged.
    QueueEntryGone,
}

/// The view of an `UpsertSyncError`, by kind and message.
pub open spec fn upsert_error_text(e: UpsertSyncError) -> Seq<char> {
    match e {
        UpsertSyncError::NotFound(m) => m@,
        UpsertSyncError::Db(d) => d.message_text(),
        UpsertSyncError::Validation(m) => m@,
        UpsertSyncError::Vectorization(m) => m@,
        UpsertSyncError::QueueCollectionMismatch(m) => m@,
        UpsertSyncError::IngressQueueFull(m) => m@,
        UpsertSyncError::IngressWorkerExited(m) => m@,
        UpsertSyncError::QueueEntryGone => "queue entry already removed"@,
    }
}

/// Whether `r` reports what `e` reports: the same kind with the same message,
/// a database error as its message.
pub open spec fn replicates(e: UpsertSyncError, r: UpsertSyncError) -> bool {
    match e {
        UpsertSyncError::NotFound(m) => r matches UpsertSyncError::NotFound(n) && n@ == m@,
        UpsertSyncError::Db(d) => r matches UpsertSyncError::Db(DbError::Config(n)) && n@
            == d.message_text(),
        UpsertSyncError::Validation(m) => r matches UpsertSyncError::Validation(n) && n@ == m@,
        UpsertSyncError::Vectorization(m) => r matches UpsertSyncError::Vectorization(n) && n@
            == m@,
        UpsertSyncError::QueueCollectionMismatch(m) => r
            matches UpsertSyncError::QueueCollectionMismatch(n) && n@ == m@,
        UpsertSyncError::IngressQueueFull(m) => r matches UpsertSyncError::IngressQueueFull(n)
            && n@ == m@,
        UpsertSyncError::IngressWorkerExited(m) => r
            matches UpsertSyncError::IngressWorkerExited(n) && n@ == m@,
        UpsertSyncError::QueueEntryGone => r is QueueEntryGone,
    }
}

impl UpsertSyncError {
    /// The error in words.
    pub fn message(&self) -> (r: String)
        ensures
            r@ == upsert_error_text(*self),
    {
        match self {
            UpsertSyncError::NotFound(m) => m.clone(),
            UpsertSyncError::Db(d) => d.message(),
            UpsertSyncError::Validation(m) => m.clone(),
            UpsertSyncError::Vectorization(m) => m.clone(),
            UpsertSyncError::QueueCollectionMismatch(m) => m.clone(),
            UpsertSyncError::IngressQueueFull(m) => m.clone(),
            UpsertSyncError::IngressWorkerExited(m) => m.clone(),
            UpsertSyncError::QueueEntryGone => "queue entry already removed".to_owned(),
        }
    }
}

/// A copy of the error for another caller that waits for the same outcome.
pub fn replicate_upsert_sync_err(src: &UpsertSyncError) -> (r: UpsertSyncError)
    ensures
        replicates(*src, r),
{
    match src {
        UpsertSyncError::NotFound(s) => UpsertSyncError::NotFound(s.clone()),
        UpsertSyncError::Db(e) => UpsertSyncError::Db(DbError::Config(e.message())),
        UpsertSyncError::Validation(s) => UpsertSyncError::Validation(s.clone()),
        UpsertSyncError::Vectorization(s) => UpsertSyncError::Vectorization(s.clone()),
        UpsertSyncError::QueueCollectionMismatch(s) => UpsertSyncError::QueueCollectionMismatch(
            s.clone(),
        ),
        UpsertSyncError::IngressQueueFull(s) => UpsertSyncError::IngressQueueFull(s.clone()),
        UpsertSyncError::IngressWorkerExited(s) => UpsertSyncError::IngressWorkerExited(s.clone()),
        UpsertSyncError::QueueEntryGone => UpsertSyncError::QueueEntryGone,
    }
}

/// What became of a bulk upsert: ids of stale documents, and ids whose queue
/// rows were missing under the lock.
#[derive(Debug, Clone, PartialEq, Eq)]
pub struct BulkUpsertOutcome {
    pub skipped: Vec<String>,
    pub drained: Vec<String>,
}

impl Default for BulkUpsertOutcome {
    fn default() -> (r: Self)
        ensures
            r.skipped@.len() == 0,
            r.drained@.len() == 0,
    {
        BulkUpsertOutcome { skipped: Vec::new(), drained: Vec::new() }
    }
}

/// The queue row behind a document, to be verified under the document's lock.
#[derive(Debug, Clone, PartialEq, Eq)]
pub struct QueueVerify {
    pub queue_id: String,
    pub collection_id: String,
}

/// The text of a document's field; a template is no field of the document.
pub open spec fn field_text(d: Document, field: DocumentField) -> Option<Seq<char>> {
    match field {
        DocumentField::Name => text::opt_view(d.name),
        DocumentField::Description => text::opt_view(d.description),
        DocumentField::Content => text::opt_view(d.content),
        DocumentField::Template => None,
    }
}

/// Whether what a vector was computed from has changed. Content that is not
/// stored is compared by its hash.
pub open spec fn field_changed(
    incoming: Document,
    existing: Document,
    field: DocumentField,
    store_content: bool,
) -> bool {
    if field is Content && !store_content {
        text::opt_view(incoming.content_hash) != text::opt_view(existing.content_hash)
    } else {
        field_text(incoming, field) != field_text(existing, field)
    }
}

/// Whether what a slot of a vector was computed from has changed: a field, or
/// what the vector's template says.
pub open spec fn slot_changed(
    incoming: Document,
    existing: Document,
    config: VectorConfigInternal,
    field: DocumentField,
    store_content: bool,
) -> bool {
    match (field, config.doc_template) {
        (DocumentField::Template, Some(t)) => templates::template_changed(
            t@,
            incoming,
            existing,
            store_content,
        ),
        _ => field_changed(incoming, existing, field, store_content),
    }
}

/// Whether any slot of any vector of the collection has changed, or the
/// document brings vectors of its own.
pub open spec fn must_revectorize(
    incoming: Document,
    existing: Document,
    config: CollectionConfigInternal,
) -> bool {
    ||| incoming.vectors is Some
    ||| incoming.custom_vectors is Some
    ||| exists|v: int, f: int|
        #![trigger config.vectors@[v].slots()[f]]
        0 <= v < config.vectors@.len() && 0 <= f < config.vectors@[v].slots().len()
            && slot_changed(
            incoming,
            existing,
            config.vectors@[v],
            config.vectors@[v].slots()[f],
            config.store_content,
        )
}

fn has_field_changed(
    incoming: &Document,
    existing: &Document,
    field: DocumentField,
    store_content: bool,
) -> (r: bool)
    ensures
        r == field_changed(*incoming, *existing, field, store_content),
{
    match field {
        DocumentField::Name => !same_opt_text(&incoming.name, &existing.name),
        DocumentField::Description => !same_opt_text(&incoming.description, &existing.description),
        DocumentField::Content => if store_content {
            !same_opt_text(&incoming.content, &existing.content)
        } else {
            !same_opt_text(&incoming.content_hash, &existing.content_hash)
        },
        DocumentField::Template => false,
    }
}

fn has_slot_changed(
    incoming: &Document,
    existing: &Document,
    config: &VectorConfigInternal,
    field: DocumentField,
    store_content: bool,
) -> (r: bool)
    ensures
        r == slot_changed(*incoming, *existing, *config, field, store_content),
{
    match (field, &config.doc_template) {
        (DocumentField::Template, Some(t)) => has_template_changed(
            t.as_str(),
            incoming,
            existing,
            store_content,
        ),
        _ => has_field_changed(incoming, existing, field, store_content),
    }
}

/// Whether a newer version of a document needs new vectors.
pub fn needs_revectorization(
    incoming: &Document,
    existing: &Document,
    collection_config: &CollectionConfigInternal,
) -> (r: bool)
    ensures
        r == must_revectorize(*incoming, *existing, *collection_config),
{
    if incoming.vectors.is_some() || incoming.custom_vectors.is_some() {
        return true;
    }
    let vectors = &collection_config.vectors;
    let mut v: usize = 0;
    while v < vectors.len()
        invariant
            v <= vectors@.len(),
            *vectors == collection_config.vectors,
            forall|w: int, f: int|
                #![trigger vectors@[w].slots()[f]]
                0 <= w < v && 0 <= f < vectors@[w].slots().len() ==> !slot_changed(
                    *incoming,
                    *existing,
                    vectors@[w],
                    vectors@[w].slots()[f],
                    collection_config.store_content,
                ),
        decreases vectors.len() - v,
    {
        let fields = field_slots(&vectors[v]);
        let mut f: usize = 0;
        while f < fields.len()
            invariant
                f <= fields@.len(),
                v < vectors@.len(),
                *vectors == collection_config.vectors,
                vectors@[v as int].slots() == fields@,
                forall|g: int|
                    0 <= g < f ==> !slot_changed(
                        *incoming,
                        *existing,
                        vectors@[v as int],
                        #[trigger] fields@[g],
                        collection_config.store_content,
                    ),
            decreases fields.len() - f,
        {
            if has_slot_changed(
                incoming,
                existing,
                &vectors[v],
                fields[f],
                collection_config.store_content,
            ) {
                assert(collection_config.vectors@[v as int].slots()[f as int]
                    == fields@[f as int]);
                return true;
            }
            f += 1;
        }
        v += 1;
    }
    false
}

/// A document's metadata does not fit the collection's declared types.
#[derive(Debug, Clone, PartialEq, Eq)]
pub struct MetadataTypeError(pub String);

/// Whether a metadata value is of the type that an index declares.
pub open spec fn matches_index_type(value: Json, expected: Seq<char>) -> bool {
    if expected == "string"@ {
        value is Text
    } else if expected == "integer"@ {
        value matches Json::Number(n) && n.is_integer()
    } else if expected == "float"@ {
        value is Number
    } else if expected == "boolean"@ {
        value is Bool
    } else if expected == "datetime"@ {
        value matches Json::Text(s) && datetime_parse::is_datetime_text(s)
    } else {
        false
    }
}

fn metadata_value_matches_index_type(value: &JsonValue, expected_type: &str) -> (r: bool)
    ensures
        r == matches_index_type(value@, expected_type@),
{
    if same_text(expected_type, "string") {
        matches!(value, JsonValue::Text(_))
    } else if same_text(expected_type, "integer") {
        match value {
            JsonValue::Number(n) => n.is_int(),
            _ => false,
        }
    } else if same_text(expected_type, "float") {
        matches!(value, JsonValue::Number(_))
    } else if same_text(expected_type, "boolean") {
        matches!(value, JsonValue::Bool(_))
    } else if same_text(expected_type, "datetime") {
        match value {
            JsonValue::Text(s) => is_valid_datetime_string(s.as_str()),
            _ => false,
        }
    } else {
        false
    }
}

/// What is wrong with the value of one indexed key. Absent and null values are
/// always in order.
pub open spec fn index_violation(
    key: Seq<char>,
    value_type: Seq<char>,
    value: Option<Json>,
) -> Option<Seq<char>> {
    match value {
        None => None,
        Some(v) => if v is Null {
            None
        } else if !matches_index_type(v, value_type) {
            Some(
                "Metadata key '"@ + key
                    + "' value does not match collection config expected type '"@ + value_type
                    + "'"@,
            )
        } else if value_type == "string"@ && v->Text_0.len() > MAX_INDEXED_METADATA_VALUE_LENGTH {
            Some(
                "String metadata value for key '"@ + key + "' exceeds 1024 character limit"@,
            )
        } else {
            None
        },
    }
}

/// The first violation among the indexed keys.
pub open spec fn first_violation(
    indexes: Seq<MetadataIndex>,
    metadata: Seq<(Seq<char>, Json)>,
) -> Option<Seq<char>>
    decreases indexes.len(),
{
    if indexes.len() == 0 {
        None
    } else {
        match index_violation(
            indexes[0].key@,
            indexes[0].value_type@,
            json::member(metadata, indexes[0].key@),
        ) {
            Some(e) => Some(e),
            None => first_violation(indexes.drop_first(), metadata),
        }
    }
}

/// The indexed keys of a collection.
pub open spec fn indexes_of(config: CollectionConfigInternal) -> Seq<MetadataIndex> {
    match config.metadata_indexes {
        Some(v) => v@,
        None => Seq::empty(),
    }
}

fn check_index(
    idx: &MetadataIndex,
    metadata: &Vec<(String, JsonValue)>,
) -> (r: Option<String>)
    ensures
        text::opt_view(r) == index_violation(
            idx.key@,
            idx.value_type@,
            json::member(json::members(metadata@), idx.key@),
        ),
{
    match get_member(metadata, idx.key.as_str()) {
        None => None,
        Some(value) => {
            if value.is_null() {
                return None;
            }
            if !metadata_value_matches_index_type(value, idx.value_type.as_str()) {
                return Some(
                    text5(
                        "Metadata key '",
                        idx.key.as_str(),
                        "' value does not match collection config expected type '",
                        idx.value_type.as_str(),
                        "'",
                    ),
                );
            }
            if same_text(idx.value_type.as_str(), "string") {
                if let JsonValue::Text(s) = value {
                    if char_count(s.as_str()) > MAX_INDEXED_METADATA_VALUE_LENGTH {
                        return Some(
                            text3(
                                "String metadata value for key '",
                                idx.key.as_str(),
                                "' exceeds 1024 character limit",
                            ),
                        );
                    }
                }
            }
            None
        },
    }
}

/// Checks that metadata values are of the types that the collection declares.
pub fn validate_metadata_types(
    collection_config: &CollectionConfigInternal,
    document: &Document,
) -> (r: Result<(), MetadataTypeError>)
    ensures
        match r {
            Ok(_) => first_violation(
                indexes_of(*collection_config),
                functions::metadata_members(document.metadata),
            ) is None,
            Err(e) => first_violation(
                indexes_of(*collection_config),
                functions::metadata_members(document.metadata),
            ) == Some(e.0@),
        },
{
    let ghost all = indexes_of(*collection_config);
    let ghost meta = functions::metadata_members(document.metadata);
    let none: Vec<(String, JsonValue)> = Vec::new();
    let metadata = match &document.metadata {
        Some(m) => m,
        None => &none,
    };
    assert(json::members(metadata@) =~= meta);
    if let Some(indexes) = &collection_config.metadata_indexes {
        let mut i: usize = 0;
        assert(all.skip(0) =~= all);
        while i < indexes.len()
            invariant
                i <= indexes@.len(),
                all == indexes@,
                all == indexes_of(*collection_config),
                json::members(metadata@) == meta,
                meta == functions::metadata_members(document.metadata),
                first_violation(all, meta) == first_violation(all.skip(i as int), meta),
            decreases indexes.len() - i,
        {
            assert(all.skip(i as int)[0] == indexes@[i as int]);
            assert(all.skip(i as int).drop_first() =~= all.skip(i as int + 1));
            if let Some(e) = check_index(&indexes[i], metadata) {
                return Err(MetadataTypeError(e));
            }
            i += 1;
        }
    }
    Ok(())
}

/// A metadata filter does not fit the collection.
#[derive(Debug, Clone, PartialEq, Eq)]
pub struct MetadataFilterError(pub String);

/// The declared type of a key; of several declarations the last one counts.
pub open spec fn declared_type(indexes: Seq<MetadataIndex>, key: Seq<char>) -> Option<Seq<char>>
    decreases indexes.len(),
{
    if indexes.len() == 0 {
        None
    } else if indexes.last().key@ == key {
        Some(indexes.last().value_type@)
    } else {
        declared_type(indexes.drop_last(), key)
    }
}

fn find_type<'a>(indexes: &'a Vec<MetadataIndex>, key: &str) -> (r: Option<&'a String>)
    ensures
        match r {
            Some(t) => declared_type(indexes@, key@) == Some(t@),
            None => declared_type(indexes@, key@) is None,
        },
{
    let mut i: usize = indexes.len();
    assert(indexes@.take(i as int) =~= indexes@);
    while i > 0
        invariant
            i <= indexes@.len(),
            declared_type(indexes@, key@) == declared_type(indexes@.take(i as int), key@),
        decreases i,
    {
        assert(indexes@.take(i as int).drop_last() =~= indexes@.take(i - 1));
        assert(indexes@.take(i as int).last() == indexes@[i - 1]);
        if same_text(indexes[i - 1].key.as_str(), key) {
            return Some(&indexes[i - 1].value_type);
        }
        i -= 1;
    }
    None
}

/// The operator of a comparison; a missing one is empty.
pub open spec fn op_text(op: Option<String>) -> Seq<char> {
    match op {
        Some(o) => o@,
        None => Seq::empty(),
    }
}

/// What is wrong with a comparison of `key`, declared as `expected`, by `op`
/// with `value`.
pub open spec fn comparison_error(
    key: Seq<char>,
    expected: Seq<char>,
    op: Seq<char>,
    value: Option<Json>,
) -> Option<Seq<char>> {
    if op == "is_null"@ {
        None
    } else if expected == "string"@ {
        if op != "eq"@ && op != "neq"@ {
            Some(
                "Metadata filter operator '"@ + op + "' is not supported for string key '"@ + key
                    + "'. Use 'eq' or '!='."@,
            )
        } else if value matches Some(Json::Text(_)) {
            None
        } else {
            Some("Metadata filter value for key '"@ + key + "' must be a string"@)
        }
    } else if expected == "integer"@ {
        if value matches Some(Json::Number(n)) && n.is_integer() {
            None
        } else {
            Some("Metadata filter value for key '"@ + key + "' must be an integer"@)
        }
    } else if expected == "float"@ {
        if value matches Some(Json::Number(_)) {
            None
        } else {
            Some("Metadata filter value for key '"@ + key + "' must be a number"@)
        }
    } else if expected == "boolean"@ {
        if op != "eq"@ && op != "neq"@ {
            Some(
                "Metadata filter operator '"@ + op + "' is not supported for boolean key '"@ + key
                    + "'. Use 'eq' or '!='."@,
            )
        } else if value matches Some(Json::Bool(_)) {
            None
        } else {
            Some("Metadata filter value for key '"@ + key + "' must be a boolean"@)
        }
    } else if expected == "datetime"@ {
        if value matches Some(Json::Text(s)) && datetime_parse::is_datetime_text(s) {
            None
        } else {
            Some("Metadata filter value for key '"@ + key + "' must be an ISO datetime string"@)
        }
    } else {
        Some("Unknown metadata index type '"@ + expected + "' for key '"@ + key + "'"@)
    }
}

fn check_comparison(
    key: &str,
    expected: &str,
    op: &str,
    value: &Option<JsonValue>,
) -> (r: Option<String>)
    ensures
        text::opt_view(r) == comparison_error(key@, expected@, op@, json::opt_json(*value)),
{
    if same_text(op, "is_null") {
        return None;
    }
    let prefix = "Metadata filter value for key '";
    if same_text(expected, "string") {
        if !same_text(op, "eq") && !same_text(op, "neq") {
            return Some(
                text5(
                    "Metadata filter operator '",
                    op,
                    "' is not supported for string key '",
                    key,
                    "'. Use 'eq' or '!='.",
                ),
            );
        }
        match value {
            Some(JsonValue::Text(_)) => None,
            _ => Some(text3(prefix, key, "' must be a string")),
        }
    } else if same_text(expected, "integer") {
        match value {
            Some(JsonValue::Number(n)) => if n.is_int() {
                None
            } else {
                Some(text3(prefix, key, "' must be an integer"))
            },
            _ => Some(text3(prefix, key, "' must be an integer")),
        }
    } else if same_text(expected, "float") {
        match value {
            Some(JsonValue::Number(_)) => None,
            _ => Some(text3(prefix, key, "' must be a number")),
        }
    } else if same_text(expected, "boolean") {
        if !same_text(op, "eq") && !same_text(op, "neq") {
            return Some(
                text5(
                    "Metadata filter operator '",
                    op,
                    "' is not supported for boolean key '",
                    key,
                    "'. Use 'eq' or '!='.",
                ),
            );
        }
        match value {
            Some(JsonValue::Bool(_)) => None,
            _ => Some(text3(prefix, key, "' must be a boolean")),
        }
    } else if same_text(expected, "datetime") {
        match value {
            Some(JsonValue::Text(s)) => if is_valid_datetime_string(s.as_str()) {
                None
            } else {
                Some(text3(prefix, key, "' must be an ISO datetime string"))
            },
            _ => Some(text3(prefix, key, "' must be an ISO datetime string")),
        }
    } else {
        Some(text5("Unknown metadata index type '", expected, "' for key '", key, "'"))
    }
}

/// The first thing wrong with a filter: its own comparison, then the nodes it
/// combines by and, by or, and by not. A test for null ends the check of its
/// node.
pub open spec fn filter_error(
    filter: MetadataFilter,
    indexes: Seq<MetadataIndex>,
) -> Option<Seq<char>>
    decreases filter,
{
    let own = match filter.key {
        None => None,
        Some(key) => match declared_type(indexes, key@) {
            None => Some(
                "Metadata filter key '"@ + key@
                    + "' is not indexed in collection metadata_indexes"@,
            ),
            Some(t) => comparison_error(key@, t, op_text(filter.op), json::opt_json(filter.value)),
        },
    };
    if own is Some {
        own
    } else if filter.key is Some && op_text(filter.op) == "is_null"@ {
        None
    } else {
        let in_and = match filter.and_ {
            Some(children) => filters_error(children@, indexes),
            None => None,
        };
        if in_and is Some {
            in_and
        } else {
            let in_or = match filter.or_ {
                Some(children) => filters_error(children@, indexes),
                None => None,
            };
            if in_or is Some {
                in_or
            } else {
                match filter.not_ {
                    Some(child) => filter_error(*child, indexes),
                    None => None,
                }
            }
        }
    }
}

/// The first thing wrong with a list of filters.
pub open spec fn filters_error(
    filters: Seq<MetadataFilter>,
    indexes: Seq<MetadataIndex>,
) -> Option<Seq<char>>
    decreases filters,
{
    if filters.len() == 0 {
        None
    } else {
        match filter_error(filters[0], indexes) {
            Some(e) => Some(e),
            None => filters_error(filters.drop_first(), indexes),
        }
    }
}

fn validate_filter_nodes(
    filters: &Vec<MetadataFilter>,
    indexes: &Vec<MetadataIndex>,
) -> (r: Option<String>)
    ensures
        text::opt_view(r) == filters_error(filters@, indexes@),
    decreases filters,
{
    let mut i: usize = 0;
    assert(filters@.skip(0) =~= filters@);
    while i < filters.len()
        invariant
            i <= filters@.len(),
            filters_error(filters@, indexes@) == filters_error(filters@.skip(i as int), indexes@),
        decreases filters.len() - i,
    {
        assert(filters@.skip(i as int)[0] == filters@[i as int]);
        assert(filters@.skip(i as int).drop_first() =~= filters@.skip(i as int + 1));
        assert(decreases_to!(filters => filters@[i as int]));
        if let Some(e) = validate_filter_node(&filters[i], indexes) {
            return Some(e);
        }
        i += 1;
    }
    None
}

/// What is wrong with a filter, if anything is.
pub fn validate_filter_node(filter: &MetadataFilter, indexes: &Vec<MetadataIndex>) -> (r: Option<
    String,
>)
    ensures
        text::opt_view(r) == filter_error(*filter, indexes@),
    decreases filter,
{
    if let Some(key) = &filter.key {
        match find_type(indexes, key.as_str()) {
            None => {
                return Some(
                    text3(
                        "Metadata filter key '",
                        key.as_str(),
                        "' is not indexed in collection metadata_indexes",
                    ),
                );
            },
            Some(expected) => {
                let empty = String::new();
                assert(empty@ =~= Seq::<char>::empty());
                let op = match &filter.op {
                    Some(o) => o.as_str(),
                    None => empty.as_str(),
                };
                let own = check_comparison(key.as_str(), expected.as_str(), op, &filter.value);
                if own.is_some() {
                    return own;
                }
                if same_text(op, "is_null") {
                    return None;
                }
            },
        }
    }
    if let Some(children) = &filter.and_ {
        let e = validate_filter_nodes(children, indexes);
        if e.is_some() {
            return e;
        }
    }
    if let Some(children) = &filter.or_ {
        let e = validate_filter_nodes(children, indexes);
        if e.is_some() {
            return e;
        }
    }
    if let Some(child) = &filter.not_ {
        return validate_filter_node(child, indexes);
    }
    None
}

/// What is wrong with filtering a collection by metadata.
pub open spec fn collection_filter_error(
    config: CollectionConfigInternal,
    filter: MetadataFilter,
) -> Option<Seq<char>> {
    if indexes_of(config).len() == 0 {
        Some("Collection has no metadata_indexes defined. Cannot filter on metadata."@)
    } else {
        filter_error(filter, indexes_of(config))
    }
}

/// Checks a metadata filter against the keys that the collection indexes.
pub fn validate_metadata_filter(
    collection_config: &CollectionConfigInternal,
    filter: &MetadataFilter,
) -> (r: Result<(), MetadataFilterError>)
    ensures
        match r {
            Ok(_) => collection_filter_error(*collection_config, *filter) is None,
            Err(e) => collection_filter_error(*collection_config, *filter) == Some(e.0@),
        },
{
    if let Some(indexes) = &collection_config.metadata_indexes {
        if indexes.len() > 0 {
            return match validate_filter_node(filter, indexes) {
                Some(e) => Err(MetadataFilterError(e)),
                None => Ok(()),
            };
        }
    }
    Err(
        MetadataFilterError(
            "Collection has no metadata_indexes defined. Cannot filter on metadata.".to_owned(),
        ),
    )
}

/// Why a search failed.
#[derive(Debug, PartialEq, Eq)]
pub enum SearchError {
    NotFound(String),
    InvalidFilter(String),
    Vectorization(String),
    Db(DbError),
    IngressQueueFull(String),
    IngressWorkerExited(String),
}

impl SearchError {
    pub open spec fn message_text(self) -> Seq<char> {
        match self {
            SearchError::NotFound(m) => m@,
            SearchError::InvalidFilter(m) => m@,
            SearchError::Vectorization(m) => m@,
            SearchError::Db(e) => e.message_text(),
            SearchError::IngressQueueFull(m) => m@,
            SearchError::IngressWorkerExited(m) => m@,
        }
    }

    /// The error in words.
    pub fn message(&self) -> (r: String)
        ensures
            r@ == self.message_text(),
    {
        match self {
            SearchError::NotFound(m) => m.as_str().to_owned(),
            SearchError::InvalidFilter(m) => m.as_str().to_owned(),
            SearchError::Vectorization(m) => m.as_str().to_owned(),
            SearchError::Db(e) => e.message(),
            SearchError::IngressQueueFull(m) => m.as_str().to_owned(),
            SearchError::IngressWorkerExited(m) => m.as_str().to_owned(),
        }
    }

    /// Whether an error is a copy of another for one more caller: of the same
    /// kind and in the same words, except that a database error becomes one of
    /// configuration that quotes it.
    pub open spec fn is_copy(self, original: SearchError) -> bool {
        match (self, original) {
            (SearchError::NotFound(a), SearchError::NotFound(b)) => a@ == b@,
            (SearchError::InvalidFilter(a), SearchError::InvalidFilter(b)) => a@ == b@,
            (SearchError::Vectorization(a), SearchError::Vectorization(b)) => a@ == b@,
            (SearchError::Db(DbError::Config(a)), SearchError::Db(b)) => a@ == b.message_text(),
            (SearchError::IngressQueueFull(a), SearchError::IngressQueueFull(b)) => a@ == b@,
            (SearchError::IngressWorkerExited(a), SearchError::IngressWorkerExited(b)) => a@ == b@,
            _ => false,
        }
    }

    /// Copies the error for one more caller.
    pub fn duplicate(&self) -> (r: SearchError)
        ensures
            r.is_copy(*self),
    {
        match self {
            SearchError::NotFound(m) => SearchError::NotFound(m.as_str().to_owned()),
            SearchError::InvalidFilter(m) => SearchError::InvalidFilter(m.as_str().to_owned()),
            SearchError::Vectorization(m) => SearchError::Vectorization(m.as_str().to_owned()),
            SearchError::Db(e) => SearchError::Db(DbError::Config(e.message())),
            SearchError::IngressQueueFull(m) => SearchError::IngressQueueFull(
                m.as_str().to_owned(),
            ),
            SearchError::IngressWorkerExited(m) => SearchError::IngressWorkerExited(
                m.as_str().to_owned(),
            ),
        }
    }
}

impl Clone for SearchError {
    fn clone(&self) -> (r: Self)
        ensures
            r.is_copy(*self),
    {
        self.duplicate()
    }
}

/// A newer version that is only patched brings no vectors and has, in every
/// field that a vector is made of, the text that is stored; content that is not
/// stored has the hash that is.
pub proof fn patched_versions_have_the_stored_texts(
    incoming: Document,
    existing: Document,
    config: CollectionConfigInternal,
    v: int,
    f: int,
)
    requires
        !must_revectorize(incoming, existing, config),
        0 <= v < config.vectors@.len(),
        config.vectors@[v].doc_template is None,
        config.vectors@[v].index_fields is Some,
        0 <= f < config.vectors@[v].index_fields->0@.len(),
    ensures
        incoming.vectors is None,
        incoming.custom_vectors is None,
        match config.vectors@[v].index_fields->0@[f] {
            DocumentField::Name => text::opt_view(incoming.name) == text::opt_view(existing.name),
            DocumentField::Description => text::opt_view(incoming.description) == text::opt_view(
                existing.description,
            ),
            DocumentField::Content => if config.store_content {
                text::opt_view(incoming.content) == text::opt_view(existing.content)
            } else {
                text::opt_view(incoming.content_hash) == text::opt_view(existing.content_hash)
            },
            DocumentField::Template => true,
        },
{
    let field = config.vectors@[v].slots()[f];
    assert(field == config.vectors@[v].index_fields->0@[f]);
    assert(!slot_changed(incoming, existing, config.vectors@[v], field, config.store_content));
}

/// A newer version that is only patched has, by every vector's template, the
/// text that the stored one has.
pub proof fn patched_versions_render_alike(
    incoming: Document,
    existing: Document,
    config: CollectionConfigInternal,
    v: int,
)
    requires
        !must_revectorize(incoming, existing, config),
        config.store_content,
        0 <= v < config.vectors@.len(),
        config.vectors@[v].doc_template is Some,
    ensures
        templates::doc_text(config.vectors@[v].doc_template->0@, incoming) == templates::doc_text(
            config.vectors@[v].doc_template->0@,
            existing,
        ),
{
    templates::templates_have_one_slot(config.vectors@[v]);
    let field = config.vectors@[v].slots()[0];
    assert(!slot_changed(incoming, existing, config.vectors@[v], field, config.store_content));
    templates::unchanged_documents_render_alike(
        config.vectors@[v].doc_template->0@,
        incoming,
        existing,
    );
}

/// A newer version with the stored texts, the stored hash and the stored
/// metadata, and without vectors of its own, needs no new vectors.
pub proof fn unchanged_versions_are_only_patched(
    incoming: Document,
    existing: Document,
    config: CollectionConfigInternal,
)
    requires
        incoming.vectors is None,
        incoming.custom_vectors is None,
        text::opt_view(incoming.name) == text::opt_view(existing.name),
        text::opt_view(incoming.description) == text::opt_view(existing.description),
        text::opt_view(incoming.content) == text::opt_view(existing.content),
        text::opt_view(incoming.content_hash) == text::opt_view(existing.content_hash),
        incoming.metadata == existing.metadata,
    ensures
        !must_revectorize(incoming, existing, config),
{
    assert forall|v: int, f: int|
        #![trigger config.vectors@[v].slots()[f]]
        0 <= v < config.vectors@.len() && 0 <= f
            < config.vectors@[v].slots().len() implies !slot_changed(
        incoming,
        existing,
        config.vectors@[v],
        config.vectors@[v].slots()[f],
        config.store_content,
    ) by {
        if let Some(t) = config.vectors@[v].doc_template {
            templates::same_values_are_unchanged(t@, incoming, existing, config.store_content);
        }
    }
}

proof fn lemma_declared_types_differ()
    ensures
        "string"@ != "integer"@,
        "string"@ != "float"@,
        "string"@ != "boolean"@,
        "string"@ != "datetime"@,
        "integer"@ != "float"@,
        "integer"@ != "boolean"@,
        "integer"@ != "datetime"@,
        "float"@ != "boolean"@,
        "float"@ != "datetime"@,
        "boolean"@ != "datetime"@,
{
    reveal_strlit("string");
    reveal_strlit("integer");
    reveal_strlit("float");
    reveal_strlit("boolean");
    reveal_strlit("datetime");
    assert("integer"@[0] != "boolean"@[0]);
    assert("string"@.len() == 6 && "integer"@.len() == 7 && "float"@.len() == 5 && "boolean"@.len()
        == 7 && "datetime"@.len() == 8);
}

/// Whether a value may stand under an index of a type: a text of up to 1024
/// characters, a whole number, any number, a truth value or the text of an
/// instant; null may stand under any.
pub open spec fn may_be_indexed(t: Seq<char>, v: Json) -> bool {
    ||| v is Null
    ||| t == "string"@ && (v matches Json::Text(s) && s.len() <= 1024)
    ||| t == "integer"@ && (v matches Json::Number(n) && !(n is Float))
    ||| t == "float"@ && v is Number
    ||| t == "boolean"@ && v is Bool
    ||| t == "datetime"@ && (v matches Json::Text(s) && datetime_parse::is_datetime_text(s))
}

/// Metadata is of the declared types exactly if under every index there is no
/// value or one that may stand there. Keys that are not declared do not matter.
pub proof fn metadata_is_of_the_declared_types(
    indexes: Seq<MetadataIndex>,
    metadata: Seq<(Seq<char>, Json)>,
)
    ensures
        first_violation(indexes, metadata) is None <==> forall|i: int|
            0 <= i < indexes.len() ==> (json::member(metadata, (#[trigger] indexes[i]).key@)
                matches Some(v) ==> may_be_indexed(indexes[i].value_type@, v)),
    decreases indexes.len(),
{
    lemma_declared_types_differ();
    if indexes.len() > 0 {
        let rest = indexes.drop_first();
        metadata_is_of_the_declared_types(rest, metadata);
        assert(forall|i: int| 0 <= i < rest.len() ==> #[trigger] rest[i] == indexes[i + 1]);
        let own = index_violation(
            indexes[0].key@,
            indexes[0].value_type@,
            json::member(metadata, indexes[0].key@),
        );
        assert(own is None <==> (json::member(metadata, indexes[0].key@) matches Some(v)
            ==> may_be_indexed(indexes[0].value_type@, v)));
        if first_violation(indexes, metadata) is None {
            assert forall|i: int| 0 <= i < indexes.len() implies (json::member(
                metadata,
                (#[trigger] indexes[i]).key@,
            ) matches Some(v) ==> may_be_indexed(indexes[i].value_type@, v)) by {
                if i > 0 {
                    assert(rest[i - 1] == indexes[i]);
                }
            }
        }
    }
}

/// The type of a key is that of the last index on it; a key without an index has
/// none.
pub proof fn the_last_index_declares_the_type(
    indexes: Seq<MetadataIndex>,
    one: MetadataIndex,
    key: Seq<char>,
)
    ensures
        one.key@ == key ==> declared_type(indexes.push(one), key) == Some(one.value_type@),
        one.key@ != key ==> declared_type(indexes.push(one), key) == declared_type(indexes, key),
        declared_type(Seq::empty(), key) is None,
{
    assert(indexes.push(one).drop_last() =~= indexes);
}

/// A comparison is accepted exactly if its key is declared and its value is of the
/// declared type; texts and truth values can only be equal or not. A test for
/// absence needs only the key.
pub proof fn comparisons_are_of_the_declared_type(filter: MetadataFilter, indexes: Seq<MetadataIndex>)
    requires
        filter.key is Some,
        filter.and_ is None,
        filter.or_ is None,
        filter.not_ is None,
    ensures
        filter_error(filter, indexes) is None <==> (declared_type(indexes, filter.key->0@) matches Some(
            t,
        ) && {
            let op = match filter.op {
                Some(o) => o@,
                None => Seq::empty(),
            };
            let v = match filter.value {
                Some(j) => Some(j@),
                None => None,
            };
            let equality = op == "eq"@ || op == "neq"@;
            ||| op == "is_null"@
            ||| t == "string"@ && equality && (v matches Some(Json::Text(_)))
            ||| t == "integer"@ && (v matches Some(Json::Number(n)) && !(n is Float))
            ||| t == "float"@ && (v matches Some(Json::Number(_)))
            ||| t == "boolean"@ && equality && (v matches Some(Json::Bool(_)))
            ||| t == "datetime"@ && (v matches Some(Json::Text(s))
                && datetime_parse::is_datetime_text(s))
        }),
{
    lemma_declared_types_differ();
}

/// A combination is accepted exactly if each of its parts is.
pub proof fn combinations_are_accepted_by_their_parts(
    filter: MetadataFilter,
    indexes: Seq<MetadataIndex>,
)
    requires
        filter.key is None,
    ensures
        filter_error(filter, indexes) is None <==> {
            &&& filter.and_ matches Some(fs) ==> forall|i: int|
                0 <= i < fs@.len() ==> filter_error(#[trigger] fs@[i], indexes) is None
            &&& filter.or_ matches Some(fs) ==> forall|i: int|
                0 <= i < fs@.len() ==> filter_error(#[trigger] fs@[i], indexes) is None
            &&& filter.not_ matches Some(f) ==> filter_error(*f, indexes) is None
        },
{
    if let Some(fs) = filter.and_ {
        lemma_each_filter(fs@, indexes);
    }
    if let Some(fs) = filter.or_ {
        lemma_each_filter(fs@, indexes);
    }
}

proof fn lemma_each_filter(fs: Seq<MetadataFilter>, indexes: Seq<MetadataIndex>)
    ensures
        filters_error(fs, indexes) is None <==> forall|i: int|
            0 <= i < fs.len() ==> filter_error(#[trigger] fs[i], indexes) is None,
    decreases fs.len(),
{
    if fs.len() > 0 {
        let rest = fs.drop_first();
        lemma_each_filter(rest, indexes);
        assert(forall|i: int| 0 <= i < rest.len() ==> #[trigger] rest[i] == fs[i + 1]);
        if filters_error(fs, indexes) is None {
            assert forall|i: int| 0 <= i < fs.len() implies filter_error(
                #[trigger] fs[i],
                indexes,
            ) is None by {
                if i > 0 {
                    assert(rest[i - 1] == fs[i]);
                }
            }
        }
    }
}

/// A collection without indexes accepts no filter.
pub proof fn filters_need_indexes(config: CollectionConfigInternal, filter: MetadataFilter)
    ensures
        config.metadata_indexes is None ==> collection_filter_error(config, filter) is Some,
        config.metadata_indexes matches Some(v) ==> (v@.len() > 0 ==> collection_filter_error(
            config,
            filter,
        ) == filter_error(filter, v@)),
        config.metadata_indexes matches Some(v) ==> (v@.len() == 0 ==> collection_filter_error(
            config,
            filter,
        ) is Some),
{
}

/// A copy of an error is of its kind and says the same; only an error of the
/// database is told by its message.
pub proof fn copied_errors_say_the_same(e: UpsertSyncError, r: UpsertSyncError)
    requires
        replicates(e, r),
    ensures
        !(e is Db) ==> upsert_error_text(r) == upsert_error_text(e),
        e is NotFound ==> r is NotFound,
        e is Validation ==> r is Validation,
        e is Vectorization ==> r is Vectorization,
        e is QueueCollectionMismatch ==> r is QueueCollectionMismatch,
        e is IngressQueueFull ==> r is IngressQueueFull,
        e is IngressWorkerExited ==> r is IngressWorkerExited,
        e is QueueEntryGone ==> r is QueueEntryGone,
        e matches UpsertSyncError::Db(d) ==> (r matches UpsertSyncError::Db(DbError::Config(m))
            && m@ == d.message_text()),
{
}

/// A copy of an error of a search is of its kind and says the same; only an error
/// of the database is told by its message.
pub proof fn copied_search_errors_say_the_same(e: SearchError, r: SearchError)
    requires
        r.is_copy(e),
    ensures
        !(e is Db) ==> r.message_text() == e.message_text(),
        e is NotFound ==> r is NotFound,
        e is InvalidFilter ==> r is InvalidFilter,
        e is Vectorization ==> r is Vectorization,
        e is IngressQueueFull ==> r is IngressQueueFull,
        e is IngressWorkerExited ==> r is IngressWorkerExited,
        e matches SearchError::Db(d) ==> (r matches SearchError::Db(DbError::Config(m)) && m@
            == d.message_text()),
{
}

} // verus!
