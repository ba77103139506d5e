//! Joins: which documents of another collection belong to a document, by an id
//! or a metadata value that the two share.

use vstd::prelude::*;
use crate::common::SearchExcludeField;
use crate::encoder;
use crate::encoder::{validate_metadata_filter, SearchError};
use crate::filters;
use crate::filters::FilterView;
use crate::indices;
use crate::join_parser;
use crate::join_parser::{JoinField, JoinRefKind, JoinSideRef, JoinSpec};
use crate::json;
use crate::json::{get_member, Json, JsonValue};
use crate::json_text;
use crate::json_text::to_json_text;
use crate::models::{CollectionConfigInternal, Document, MetadataFilter, SearchResult};
use crate::qdrant::DbError;
use crate::search_filter;
use crate::search_group;
use crate::search_group::key_indexed;
use crate::text;
use crate::text::{same_opt_text, same_text, text3, text5, text_before};

verus! {

/// Parses the joins of a query. A syntax error is a bad filter.
pub fn parse_join_field_validated(join: JoinField) -> (r: Result<Vec<JoinSpec>, SearchError>)
    ensures
        match r {
            Ok(v) => join.exprs().len() > 0 && join_parser::joins_of(join.exprs()) == Ok::<
                Seq<join_parser::JoinView>,
                Seq<char>,
            >(join_parser::join_views(v@)),
            Err(e) => e matches SearchError::InvalidFilter(m) && if join.exprs().len() == 0 {
                m@ == "Join list cannot be empty"@
            } else {
                join_parser::joins_of(join.exprs()) == Err::<
                    Seq<join_parser::JoinView>,
                    Seq<char>,
                >(m@)
            },
        },
{
    match join.into_specs() {
        Ok(v) => Ok(v),
        Err(e) => Err(SearchError::InvalidFilter(e)),
    }
}

/// Whether a join reads a value off the parent's metadata.
pub open spec fn reads_parent_metadata(specs: Seq<JoinSpec>) -> bool {
    exists|i: int| 0 <= i < specs.len() && (#[trigger] specs[i]).parent_ref.kind is Meta
}

/// The fields that must be fetched for the joins, whatever a query excludes:
/// the metadata, if a join reads it off the parent.
pub fn required_fields_for_joins(specs: &Vec<JoinSpec>) -> (r: Vec<SearchExcludeField>)
    ensures
        r@ == if reads_parent_metadata(specs@) {
            seq![SearchExcludeField::Metadata]
        } else {
            Seq::empty()
        },
{
    let mut i: usize = 0;
    while i < specs.len()
        invariant
            i <= specs@.len(),
            forall|k: int| 0 <= k < i ==> !((#[trigger] specs@[k]).parent_ref.kind is Meta),
        decreases specs.len() - i,
    {
        if matches!(specs[i].parent_ref.kind, JoinRefKind::Meta(_)) {
            let r = vec![SearchExcludeField::Metadata];
            assert(specs@[i as int].parent_ref.kind is Meta);
            assert(r@ =~= seq![SearchExcludeField::Metadata]);
            return r;
        }
        i += 1;
    }
    Vec::new()
}

/// What documents of another collection can be joined to.
pub trait JoinParent: Sized {
    spec fn id_text(&self) -> Seq<char>;

    spec fn metadata_members(&self) -> Option<Seq<(Seq<char>, Json)>>;

    fn join_id(&self) -> (r: &str)
        ensures
            r@ == self.id_text(),
    ;

    fn join_metadata(&self) -> (r: &Option<Vec<(String, JsonValue)>>)
        ensures
            self.metadata_members() == (match *r {
                Some(m) => Some(json::members(m@)),
                None => None,
            }),
    ;
}

impl JoinParent for Document {
    open spec fn id_text(&self) -> Seq<char> {
        self.id@
    }

    open spec fn metadata_members(&self) -> Option<Seq<(Seq<char>, Json)>> {
        match self.metadata {
            Some(m) => Some(json::members(m@)),
            None => None,
        }
    }

    fn join_id(&self) -> (r: &str) {
        self.id.as_str()
    }

    fn join_metadata(&self) -> (r: &Option<Vec<(String, JsonValue)>>) {
        &self.metadata
    }
}

impl JoinParent for SearchResult {
    open spec fn id_text(&self) -> Seq<char> {
        self.document.id@
    }

    open spec fn metadata_members(&self) -> Option<Seq<(Seq<char>, Json)>> {
        match self.document.metadata {
            Some(m) => Some(json::members(m@)),
            None => None,
        }
    }

    fn join_id(&self) -> (r: &str) {
        self.document.id.as_str()
    }

    fn join_metadata(&self) -> (r: &Option<Vec<(String, JsonValue)>>) {
        &self.document.metadata
    }
}

/// The value that a document is joined by: its id, or that of a metadata key.
pub open spec fn join_value<P: JoinParent>(document: P, side: JoinSideRef) -> Option<Json> {
    match side.kind {
        JoinRefKind::Id => Some(Json::Text(document.id_text())),
        JoinRefKind::Meta(key) => match document.metadata_members() {
            Some(m) => json::member(m, key@),
            None => None,
        },
    }
}

/// The value that a document is joined by.
pub fn document_join_value<P: JoinParent>(document: &P, side: &JoinSideRef) -> (r: Option<JsonValue>)
    ensures
        json::opt_json(r) == join_value(*document, *side),
{
    match &side.kind {
        JoinRefKind::Id => Some(JsonValue::Text(document.join_id().to_owned())),
        JoinRefKind::Meta(key) => match document.join_metadata() {
            Some(m) => match get_member(m, key.as_str()) {
                Some(v) => Some(v.duplicate()),
                None => None,
            },
            None => None,
        },
    }
}

/// The key of a value that documents are joined by: its JSON text. Nothing is
/// joined by null.
pub open spec fn join_key(value: Option<Json>) -> Option<Seq<char>> {
    match value {
        None => None,
        Some(Json::Null) => None,
        Some(v) => Some(json_text::json_text(v)),
    }
}

fn join_value_key(value: &Option<JsonValue>) -> (r: Option<String>)
    ensures
        text::opt_view(r) == join_key(json::opt_json(*value)),
{
    match value {
        None => None,
        Some(JsonValue::Null) => None,
        Some(v) => Some(to_json_text(v)),
    }
}

/// Whether an earlier document has the join key of the one at a position.
pub open spec fn key_repeats<P: JoinParent>(documents: Seq<P>, side: JoinSideRef, i: int) -> bool {
    exists|k: int|
        0 <= k < i && join_key(join_value(#[trigger] documents[k], side)) == join_key(
            join_value(documents[i], side),
        )
}

/// The values that the first documents are joined by, each once.
pub open spec fn wanted_values<P: JoinParent>(
    documents: Seq<P>,
    side: JoinSideRef,
    n: int,
) -> Seq<Json>
    decreases n,
{
    if n <= 0 {
        Seq::empty()
    } else {
        let rest = wanted_values(documents, side, n - 1);
        if join_key(join_value(documents[n - 1], side)) is None || key_repeats(
            documents,
            side,
            n - 1,
        ) {
            rest
        } else {
            rest.push(join_value(documents[n - 1], side)->0)
        }
    }
}

fn collect_keys<P: JoinParent>(documents: &Vec<P>, side: &JoinSideRef) -> (r: Vec<Option<String>>)
    ensures
        r@.len() == documents@.len(),
        forall|k: int|
            0 <= k < r@.len() ==> text::opt_view(#[trigger] r@[k]) == join_key(
                join_value(documents@[k], *side),
            ),
{
    let mut out: Vec<Option<String>> = Vec::new();
    let mut i: usize = 0;
    while i < documents.len()
        invariant
            i <= documents@.len(),
            out@.len() == i,
            forall|k: int|
                0 <= k < i ==> text::opt_view(#[trigger] out@[k]) == join_key(
                    join_value(documents@[k], *side),
                ),
        decreases documents.len() - i,
    {
        let value = document_join_value(&documents[i], side);
        out.push(join_value_key(&value));
        i += 1;
    }
    out
}

/// The values that documents are joined by, each once.
pub fn collect_join_values<P: JoinParent>(documents: &Vec<P>, parent_ref: &JoinSideRef) -> (r: Vec<
    JsonValue,
>)
    ensures
        json::values(r@) == wanted_values(documents@, *parent_ref, documents@.len() as int),
{
    let keys = collect_keys(documents, parent_ref);
    let mut out: Vec<JsonValue> = Vec::new();
    let mut i: usize = 0;
    assert(json::values(out@) =~= Seq::empty());
    while i < documents.len()
        invariant
            i <= documents@.len(),
            keys@.len() == documents@.len(),
            forall|k: int|
                0 <= k < keys@.len() ==> text::opt_view(#[trigger] keys@[k]) == join_key(
                    join_value(documents@[k], *parent_ref),
                ),
            json::values(out@) == wanted_values(documents@, *parent_ref, i as int),
        decreases documents.len() - i,
    {
        assert(text::opt_view(keys@[i as int]) == join_key(
            join_value(documents@[i as int], *parent_ref),
        ));
        let mut repeats = false;
        let mut k: usize = 0;
        while k < i
            invariant
                k <= i < documents@.len(),
                keys@.len() == documents@.len(),
                forall|x: int|
                    0 <= x < keys@.len() ==> text::opt_view(#[trigger] keys@[x]) == join_key(
                        join_value(documents@[x], *parent_ref),
                    ),
                repeats <==> exists|x: int|
                    0 <= x < k && join_key(join_value(#[trigger] documents@[x], *parent_ref))
                        == join_key(join_value(documents@[i as int], *parent_ref)),
            decreases i - k,
        {
            assert(text::opt_view(keys@[k as int]) == join_key(
                join_value(documents@[k as int], *parent_ref),
            ));
            assert(text::opt_view(keys@[i as int]) == join_key(
                join_value(documents@[i as int], *parent_ref),
            ));
            if same_opt_text(&keys[k], &keys[i]) {
                repeats = true;
            }
            k += 1;
        }
        if keys[i].is_some() && !repeats {
            if let Some(v) = document_join_value(&documents[i], parent_ref) {
                let ghost before = json::values(out@);
                let ghost view = v@;
                out.push(v);
                assert(json::values(out@) =~= before.push(view));
            }
        }
        i += 1;
    }
    out
}

/// The most documents that a join fetches: so many for each document, without
/// going beyond 32 bits.
pub open spec fn most_children(limit: u32, documents: usize) -> int {
    if limit * (documents as u32) <= u32::MAX {
        limit * (documents as u32)
    } else {
        u32::MAX as int
    }
}

/// The most documents that a join fetches.
pub fn max_documents(limit: u32, documents: usize) -> (r: usize)
    ensures
        r == most_children(limit, documents),
{
    let n: u64 = (documents as u32) as u64;
    assert(limit as int * n <= u32::MAX * u32::MAX) by (nonlinear_arith)
        requires
            limit <= u32::MAX,
            n <= u32::MAX,
    ;
    let product: u64 = limit as u64 * n;
    if product <= u32::MAX as u64 {
        product as usize
    } else {
        u32::MAX as usize
    }
}

/// What to fetch for a join.
#[derive(Debug, PartialEq, Eq)]
pub enum JoinFetch {
    Nothing,
    /// The documents with these ids.
    ById(Vec<String>),
    /// The documents whose value of the key is one of those wanted.
    ByMetadata(String),
}

/// The id that a value names: a text itself, any other value by its JSON text.
pub open spec fn id_of(v: Json) -> Seq<char> {
    match v {
        Json::Text(s) => s,
        _ => json_text::json_text(v),
    }
}

/// The ids that values name.
pub open spec fn ids_of(values: Seq<Json>) -> Seq<Seq<char>> {
    Seq::new(values.len(), |i: int| id_of(values[i]))
}

/// Plans what to fetch for a join.
pub fn plan_fetch(spec: &JoinSpec, join_values: &Vec<JsonValue>, max_documents: usize) -> (r:
    JoinFetch)
    ensures
        if join_values@.len() == 0 || max_documents == 0 {
            r is Nothing
        } else {
            match spec.child_ref.kind {
                JoinRefKind::Id => r matches JoinFetch::ById(ids) && text::views(ids@) == ids_of(
                    json::values(join_values@),
                ),
                JoinRefKind::Meta(key) => r matches JoinFetch::ByMetadata(k) && k@ == key@,
            }
        },
{
    if join_values.len() == 0 || max_documents == 0 {
        return JoinFetch::Nothing;
    }
    match &spec.child_ref.kind {
        JoinRefKind::Id => {
            let mut ids: Vec<String> = Vec::new();
            let mut i: usize = 0;
            while i < join_values.len()
                invariant
                    i <= join_values@.len(),
                    ids@.len() == i,
                    forall|k: int|
                        0 <= k < i ==> (#[trigger] ids@[k])@ == id_of(join_values@[k]@),
                decreases join_values.len() - i,
            {
                let id = match &join_values[i] {
                    JsonValue::Text(s) => s.as_str().to_owned(),
                    other => to_json_text(other),
                };
                ids.push(id);
                i += 1;
            }
            assert(text::views(ids@) =~= ids_of(json::values(join_values@)));
            JoinFetch::ById(ids)
        },
        JoinRefKind::Meta(key) => JoinFetch::ByMetadata(key.as_str().to_owned()),
    }
}

/// Whether the value of a child is that of a parent; nothing belongs to a
/// parent without a value.
pub open spec fn belongs(parent: Option<Json>, child: Option<Json>) -> bool {
    join_key(parent) is Some && join_key(parent) == join_key(child)
}

/// The positions of a parent's children.
pub open spec fn children_of<P: JoinParent>(
    parent: P,
    children: Seq<Document>,
    parent_ref: JoinSideRef,
    child_ref: JoinSideRef,
    n: int,
) -> Seq<int> {
    indices::picked(
        n,
        |c: int| belongs(join_value(parent, parent_ref), join_value(children[c], child_ref)),
    )
}

/// Assigns the documents fetched for a join to their parents: for each parent
/// the positions of its children, in order.
pub fn assign_children<P: JoinParent>(
    parents: &Vec<P>,
    children: &Vec<Document>,
    spec: &JoinSpec,
) -> (r: Vec<Vec<usize>>)
    ensures
        r@.len() == parents@.len(),
        forall|p: int|
            0 <= p < r@.len() ==> indices::positions((#[trigger] r@[p])@) == children_of(
                parents@[p],
                children@,
                spec.parent_ref,
                spec.child_ref,
                children@.len() as int,
            ),
{
    let parent_keys = collect_keys(parents, &spec.parent_ref);
    let child_keys = collect_keys(children, &spec.child_ref);
    let mut out: Vec<Vec<usize>> = Vec::new();
    let mut p: usize = 0;
    while p < parents.len()
        invariant
            p <= parents@.len(),
            out@.len() == p,
            parent_keys@.len() == parents@.len(),
            child_keys@.len() == children@.len(),
            forall|k: int|
                0 <= k < parent_keys@.len() ==> text::opt_view(#[trigger] parent_keys@[k])
                    == join_key(join_value(parents@[k], spec.parent_ref)),
            forall|k: int|
                0 <= k < child_keys@.len() ==> text::opt_view(#[trigger] child_keys@[k])
                    == join_key(join_value(children@[k], spec.child_ref)),
            forall|k: int|
                0 <= k < p ==> indices::positions((#[trigger] out@[k])@) == children_of(
                    parents@[k],
                    children@,
                    spec.parent_ref,
                    spec.child_ref,
                    children@.len() as int,
                ),
        decreases parents.len() - p,
    {
        let mut members: Vec<usize> = Vec::new();
        let mut c: usize = 0;
        assert(text::opt_view(parent_keys@[p as int]) == join_key(
            join_value(parents@[p as int], spec.parent_ref),
        ));
        assert(indices::positions(members@) =~= Seq::empty());
        while c < children.len()
            invariant
                c <= children@.len(),
                p < parents@.len(),
                parent_keys@.len() == parents@.len(),
                child_keys@.len() == children@.len(),
                text::opt_view(parent_keys@[p as int]) == join_key(
                    join_value(parents@[p as int], spec.parent_ref),
                ),
                forall|k: int|
                    0 <= k < child_keys@.len() ==> text::opt_view(#[trigger] child_keys@[k])
                        == join_key(join_value(children@[k], spec.child_ref)),
                indices::positions(members@) == children_of(
                    parents@[p as int],
                    children@,
                    spec.parent_ref,
                    spec.child_ref,
                    c as int,
                ),
            decreases children.len() - c,
        {
            let ghost before = indices::positions(members@);
            assert(text::opt_view(child_keys@[c as int]) == join_key(
                join_value(children@[c as int], spec.child_ref),
            ));
            if parent_keys[p].is_some() && same_opt_text(&parent_keys[p], &child_keys[c]) {
                members.push(c);
                assert(indices::positions(members@) =~= before.push(c as int));
            }
            c += 1;
        }
        out.push(members);
        p += 1;
    }
    out
}

/// What a missing or broken child collection means for a search.
pub fn join_config_error(e: DbError, collection_name: &str) -> (r: SearchError)
    ensures
        match e {
            DbError::NotFound(_) => r matches SearchError::InvalidFilter(m) && m@
                == "Join collection '"@ + collection_name@ + "' not found"@,
            _ => r == SearchError::Db(e),
        },
{
    match e {
        DbError::NotFound(_) => SearchError::InvalidFilter(
            text3("Join collection '", collection_name, "' not found"),
        ),
        other => SearchError::Db(other),
    }
}

/// What is wrong with a join, given the configuration of the child collection.
pub open spec fn join_problem(spec: JoinSpec, config: CollectionConfigInternal) -> Option<Seq<char>> {
    let indexes = search_filter::index_list(config.metadata_indexes);
    let own = match spec.child_ref.kind {
        JoinRefKind::Meta(key) => if indexes.len() == 0 {
            Some(
                "Join child collection '"@ + spec.collection_name@
                    + "' has no metadata_indexes; cannot join on metadata key '"@ + key@ + "'"@,
            )
        } else if !search_group::is_indexed(indexes, key@) {
            Some(
                "Join child metadata key '"@ + key@ + "' is not indexed in collection '"@
                    + spec.collection_name@ + "'"@,
            )
        } else {
            None
        },
        JoinRefKind::Id => None,
    };
    if own is Some {
        own
    } else {
        match spec.metadata_filter {
            Some(f) => encoder::collection_filter_error(config, f),
            None => None,
        }
    }
}

/// Checks a join against the configuration of the child collection.
pub fn validate_join_spec(spec: &JoinSpec, child_config: &CollectionConfigInternal) -> (r: Result<
    (),
    SearchError,
>)
    ensures
        match r {
            Ok(_) => join_problem(*spec, *child_config) is None,
            Err(e) => e matches SearchError::InvalidFilter(m) && join_problem(*spec, *child_config)
                == Some(m@),
        },
{
    if let JoinRefKind::Meta(key) = &spec.child_ref.kind {
        let empty = match &child_config.metadata_indexes {
            Some(list) => list.len() == 0,
            None => true,
        };
        if empty {
            return Err(
                SearchError::InvalidFilter(
                    text5(
                        "Join child collection '",
                        spec.collection_name.as_str(),
                        "' has no metadata_indexes; cannot join on metadata key '",
                        key.as_str(),
                        "'",
                    ),
                ),
            );
        }
        if !key_indexed(&child_config.metadata_indexes, key.as_str()) {
            return Err(
                SearchError::InvalidFilter(
                    text5(
                        "Join child metadata key '",
                        key.as_str(),
                        "' is not indexed in collection '",
                        spec.collection_name.as_str(),
                        "'",
                    ),
                ),
            );
        }
    }
    if let Some(filter) = &spec.metadata_filter {
        return match validate_metadata_filter(child_config, filter) {
            Ok(_) => Ok(()),
            Err(e) => Err(SearchError::InvalidFilter(e.0)),
        };
    }
    Ok(())
}

/// A value, or null in its absence.
pub open spec fn or_null(v: Option<Json>) -> Json {
    match v {
        Some(v) => v,
        None => Json::Null,
    }
}

/// Whether a value is below another: of two numbers or of two texts.
pub open spec fn json_below(a: Json, b: Json) -> bool {
    match (a, b) {
        (Json::Number(x), Json::Number(y)) => x.nearest().below(y.nearest()),
        (Json::Text(x), Json::Text(y)) => text::text_precedes(x, y),
        _ => false,
    }
}

/// Whether two values can be ordered.
pub open spec fn comparable(a: Json, b: Json) -> bool {
    (a is Number && b is Number) || (a is Text && b is Text)
}

/// Whether a value stands in the named order to another.
pub open spec fn ordered(value: Json, bound: Json, op: Seq<char>) -> bool {
    comparable(value, bound) && if op == "gt"@ {
        json_below(bound, value)
    } else if op == "gte"@ {
        !json_below(value, bound)
    } else if op == "lt"@ {
        json_below(value, bound)
    } else {
        op == "lte"@ && !json_below(bound, value)
    }
}

/// Whether metadata satisfy a comparison.
pub open spec fn satisfies_comparison(
    value: Option<Json>,
    op: Seq<char>,
    bound: Option<Json>,
) -> bool {
    if op == "eq"@ {
        or_null(value).equals(or_null(bound))
    } else if op == "neq"@ {
        !or_null(value).equals(or_null(bound))
    } else {
        match (value, bound) {
            (Some(v), Some(b)) => ordered(v, b, op),
            _ => false,
        }
    }
}

/// Whether metadata satisfy a filter: its comparison, or else the opposite of
/// what it negates, or all or any of what it combines. A filter that says
/// nothing is always satisfied.
pub open spec fn satisfies(f: FilterView, metadata: Option<Seq<(Seq<char>, Json)>>) -> bool
    decreases f,
{
    match f.key {
        Some(key) => satisfies_comparison(
            match metadata {
                Some(m) => json::member(m, key),
                None => None,
            },
            match f.op {
                Some(op) => op,
                None => Seq::empty(),
            },
            f.value,
        ),
        None => match f.not_ {
            Some(g) => !satisfies(*g, metadata),
            None => match f.and_ {
                Some(fs) => satisfies_all(fs, metadata),
                None => match f.or_ {
                    Some(fs) => satisfies_any(fs, metadata),
                    None => true,
                },
            },
        },
    }
}

/// Whether metadata satisfy all of the filters.
pub open spec fn satisfies_all(
    fs: Seq<FilterView>,
    metadata: Option<Seq<(Seq<char>, Json)>>,
) -> bool
    decreases fs,
{
    fs.len() == 0 || (satisfies_all(fs.drop_last(), metadata) && satisfies(fs.last(), metadata))
}

/// Whether metadata satisfy any of the filters.
pub open spec fn satisfies_any(
    fs: Seq<FilterView>,
    metadata: Option<Seq<(Seq<char>, Json)>>,
) -> bool
    decreases fs,
{
    fs.len() > 0 && (satisfies_any(fs.drop_last(), metadata) || satisfies(fs.last(), metadata))
}

fn value_below(a: &JsonValue, b: &JsonValue) -> (r: bool)
    ensures
        r == json_below(a@, b@),
{
    match (a, b) {
        (JsonValue::Number(x), JsonValue::Number(y)) => x.as_double().lt(&y.as_double()),
        (JsonValue::Text(x), JsonValue::Text(y)) => text_before(x.as_str(), y.as_str()),
        _ => false,
    }
}

fn compare_ordered(value: &JsonValue, bound: &JsonValue, op: &str) -> (r: bool)
    ensures
        r == ordered(value@, bound@, op@),
{
    let can = match (value, bound) {
        (JsonValue::Number(_), JsonValue::Number(_)) => true,
        (JsonValue::Text(_), JsonValue::Text(_)) => true,
        _ => false,
    };
    if !can {
        return false;
    }
    if same_text(op, "gt") {
        value_below(bound, value)
    } else if same_text(op, "gte") {
        !value_below(value, bound)
    } else if same_text(op, "lt") {
        value_below(value, bound)
    } else if same_text(op, "lte") {
        !value_below(bound, value)
    } else {
        false
    }
}

fn values_equal(a: Option<&JsonValue>, b: &Option<JsonValue>) -> (r: bool)
    ensures
        r == or_null(
            match a {
                Some(v) => Some(v@),
                None => None,
            },
        ).equals(or_null(json::opt_json(*b))),
{
    match (a, b) {
        (Some(x), Some(y)) => x.same(y),
        (Some(x), None) => matches!(x, JsonValue::Null),
        (None, Some(y)) => matches!(y, JsonValue::Null),
        (None, None) => true,
    }
}

fn eval_comparison(
    key: &str,
    op: &str,
    bound: &Option<JsonValue>,
    metadata: &Option<Vec<(String, JsonValue)>>,
) -> (r: bool)
    ensures
        r == satisfies_comparison(
            match *metadata {
                Some(m) => json::member(json::members(m@), key@),
                None => None,
            },
            op@,
            json::opt_json(*bound),
        ),
{
    let value = match metadata {
        Some(m) => get_member(m, key),
        None => None,
    };
    if same_text(op, "eq") {
        return values_equal(value, bound);
    }
    if same_text(op, "neq") {
        return !values_equal(value, bound);
    }
    match (value, bound) {
        (Some(v), Some(b)) => compare_ordered(v, b, op),
        _ => false,
    }
}

/// The members of optional metadata.
pub open spec fn opt_members(metadata: Option<Vec<(String, JsonValue)>>) -> Option<
    Seq<(Seq<char>, Json)>,
> {
    match metadata {
        Some(m) => Some(json::members(m@)),
        None => None,
    }
}

proof fn lemma_satisfies_each(fs: Seq<FilterView>, metadata: Option<Seq<(Seq<char>, Json)>>)
    ensures
        satisfies_all(fs, metadata) <==> forall|i: int|
            0 <= i < fs.len() ==> satisfies(#[trigger] fs[i], metadata),
        satisfies_any(fs, metadata) <==> exists|i: int|
            0 <= i < fs.len() && satisfies(#[trigger] fs[i], metadata),
    decreases fs.len(),
{
    if fs.len() > 0 {
        let init = fs.drop_last();
        lemma_satisfies_each(init, metadata);
        assert(fs[fs.len() - 1] == fs.last());
        if satisfies_all(fs, metadata) {
            assert forall|i: int| 0 <= i < fs.len() implies satisfies(
                #[trigger] fs[i],
                metadata,
            ) by {
                if i < init.len() {
                    assert(init[i] == fs[i]);
                }
            }
        }
        if forall|i: int| 0 <= i < fs.len() ==> satisfies(#[trigger] fs[i], metadata) {
            assert forall|i: int| 0 <= i < init.len() implies satisfies(
                #[trigger] init[i],
                metadata,
            ) by {
                assert(init[i] == fs[i]);
            }
        }
        if satisfies_any(init, metadata) {
            let i = choose|i: int| 0 <= i < init.len() && satisfies(#[trigger] init[i], metadata);
            assert(satisfies(fs[i], metadata));
        }
        if exists|i: int| 0 <= i < fs.len() && satisfies(#[trigger] fs[i], metadata) {
            let i = choose|i: int| 0 <= i < fs.len() && satisfies(#[trigger] fs[i], metadata);
            if i < init.len() {
                assert(satisfies(init[i], metadata));
            }
        }
    }
}

fn eval_all(nodes: &Vec<MetadataFilter>, metadata: &Option<Vec<(String, JsonValue)>>) -> (r: bool)
    ensures
        r == satisfies_all(filters::filter_views(nodes@), opt_members(*metadata)),
    decreases nodes,
{
    let ghost views = filters::filter_views(nodes@);
    let mut i: usize = 0;
    proof {
        lemma_satisfies_each(views, opt_members(*metadata));
    }
    while i < nodes.len()
        invariant
            i <= nodes@.len(),
            views == filters::filter_views(nodes@),
            satisfies_all(views, opt_members(*metadata)) <==> forall|k: int|
                0 <= k < views.len() ==> satisfies(#[trigger] views[k], opt_members(*metadata)),
            forall|k: int|
                0 <= k < i ==> satisfies(#[trigger] views[k], opt_members(*metadata)),
        decreases nodes.len() - i,
    {
        assert(views[i as int] == nodes@[i as int]@);
        assert(decreases_to!(nodes => nodes@[i as int]));
        if !eval_filter_node(&nodes[i], metadata) {
            return false;
        }
        i += 1;
    }
    true
}

fn eval_any(nodes: &Vec<MetadataFilter>, metadata: &Option<Vec<(String, JsonValue)>>) -> (r: bool)
    ensures
        r == satisfies_any(filters::filter_views(nodes@), opt_members(*metadata)),
    decreases nodes,
{
    let ghost views = filters::filter_views(nodes@);
    let mut i: usize = 0;
    proof {
        lemma_satisfies_each(views, opt_members(*metadata));
    }
    while i < nodes.len()
        invariant
            i <= nodes@.len(),
            views == filters::filter_views(nodes@),
            satisfies_any(views, opt_members(*metadata)) <==> exists|k: int|
                0 <= k < views.len() && satisfies(#[trigger] views[k], opt_members(*metadata)),
            forall|k: int|
                0 <= k < i ==> !satisfies(#[trigger] views[k], opt_members(*metadata)),
        decreases nodes.len() - i,
    {
        assert(views[i as int] == nodes@[i as int]@);
        assert(decreases_to!(nodes => nodes@[i as int]));
        if eval_filter_node(&nodes[i], metadata) {
            return true;
        }
        i += 1;
    }
    false
}

fn eval_filter_node(node: &MetadataFilter, metadata: &Option<Vec<(String, JsonValue)>>) -> (r: bool)
    ensures
        r == satisfies(node@, opt_members(*metadata)),
    decreases node,
{
    proof {
        node.view_parts();
    }
    if let Some(key) = &node.key {
        let empty = String::new();
        assert(empty@ =~= Seq::<char>::empty());
        let op = match &node.op {
            Some(o) => o.as_str(),
            None => empty.as_str(),
        };
        return eval_comparison(key.as_str(), op, &node.value, metadata);
    }
    if let Some(n) = &node.not_ {
        return !eval_filter_node(n, metadata);
    }
    if let Some(nodes) = &node.and_ {
        return eval_all(nodes, metadata);
    }
    if let Some(nodes) = &node.or_ {
        return eval_any(nodes, metadata);
    }
    true
}

/// Whether a document satisfies a metadata filter.
pub fn document_matches_metadata_filter(document: &Document, metadata_filter: &MetadataFilter) -> (r:
    bool)
    ensures
        r == satisfies(metadata_filter@, opt_members(document.metadata)),
{
    eval_filter_node(metadata_filter, &document.metadata)
}

/// Whether a document satisfies a join's filter, if the join has one.
pub open spec fn satisfies_join(document: Document, filter: Option<MetadataFilter>) -> bool {
    match filter {
        Some(f) => satisfies(f@, opt_members(document.metadata)),
        None => true,
    }
}

/// The positions of the first documents that satisfy a join's filter.
pub open spec fn matching(
    documents: Seq<Document>,
    filter: Option<MetadataFilter>,
    n: int,
) -> Seq<int> {
    indices::picked(n, |i: int| satisfies_join(documents[i], filter))
}

/// The positions of the documents, of those fetched by their ids, that satisfy
/// a join's filter.
pub fn matching_children(documents: &Vec<Document>, filter: &Option<MetadataFilter>) -> (r: Vec<
    usize,
>)
    ensures
        indices::positions(r@) == matching(documents@, *filter, documents@.len() as int),
{
    let mut out: Vec<usize> = Vec::new();
    let mut i: usize = 0;
    assert(indices::positions(out@) =~= Seq::empty());
    while i < documents.len()
        invariant
            i <= documents@.len(),
            indices::positions(out@) == matching(documents@, *filter, i as int),
        decreases documents.len() - i,
    {
        let ghost before = indices::positions(out@);
        let keep = match filter {
            Some(f) => document_matches_metadata_filter(&documents[i], f),
            None => true,
        };
        if keep {
            out.push(i);
            assert(indices::positions(out@) =~= before.push(i as int));
        }
        i += 1;
    }
    out
}

/// A filter and its negation are never satisfied together, and one of them
/// always is; a filter that says nothing is always satisfied.
pub proof fn negation_is_the_opposite(f: FilterView, metadata: Option<Seq<(Seq<char>, Json)>>)
    ensures
        satisfies(FilterView::negation(f), metadata) == !satisfies(f, metadata),
        satisfies(FilterView::empty(), metadata),
{
}

/// Combining filters by and, or by or, means what it says, in any number.
pub proof fn combinations_mean_what_they_say(
    fs: Seq<FilterView>,
    metadata: Option<Seq<(Seq<char>, Json)>>,
)
    ensures
        satisfies(FilterView::all_of(fs), metadata) <==> forall|i: int|
            0 <= i < fs.len() ==> satisfies(#[trigger] fs[i], metadata),
        satisfies(FilterView::any_of(fs), metadata) <==> exists|i: int|
            0 <= i < fs.len() && satisfies(#[trigger] fs[i], metadata),
{
    lemma_satisfies_each(fs, metadata);
}

/// Being unequal is the opposite of being equal.
pub proof fn unequal_is_not_equal(
    key: Seq<char>,
    value: Json,
    metadata: Option<Seq<(Seq<char>, Json)>>,
)
    ensures
        satisfies(FilterView::comparison(key, "neq"@, value), metadata) == !satisfies(
            FilterView::comparison(key, "eq"@, value),
            metadata,
        ),
{
    reveal_strlit("eq");
    reveal_strlit("neq");
    assert("eq"@.len() == 2);
    assert("neq"@.len() == 3);
}

/// Of two comparable values, one is below the other or at least as large.
pub proof fn bounds_are_complementary(value: Json, bound: Json)
    requires
        comparable(value, bound),
    ensures
        ordered(value, bound, "gte"@) == !ordered(value, bound, "lt"@),
        ordered(value, bound, "lte"@) == !ordered(value, bound, "gt"@),
{
    reveal_strlit("gt");
    reveal_strlit("gte");
    reveal_strlit("lt");
    reveal_strlit("lte");
    assert("gt"@.len() == 2);
    assert("gte"@.len() == 3);
    assert("lt"@.len() == 2);
    assert("lte"@.len() == 3);
    assert("gt"@[0] == 'g');
    assert("lt"@[0] == 'l');
    assert("gte"@[0] == 'g');
    assert("lte"@[0] == 'l');
}

/// A child is assigned to a parent exactly if the two have the same value, and
/// never to a parent without one.
pub proof fn children_share_the_parents_value<P: JoinParent>(
    parent: P,
    children: Seq<Document>,
    parent_ref: JoinSideRef,
    child_ref: JoinSideRef,
    c: int,
)
    requires
        0 <= c < children.len(),
    ensures
        children_of(parent, children, parent_ref, child_ref, children.len() as int).contains(c)
            <==> belongs(join_value(parent, parent_ref), join_value(children[c], child_ref)),
        join_value(parent, parent_ref) is None ==> children_of(
            parent,
            children,
            parent_ref,
            child_ref,
            children.len() as int,
        ).len() == 0,
{
    let p = |c: int| belongs(join_value(parent, parent_ref), join_value(children[c], child_ref));
    indices::picked_is_exact(children.len() as int, p);
    assert(children_of(parent, children, parent_ref, child_ref, children.len() as int)
        == indices::picked(children.len() as int, p));
    if join_value(parent, parent_ref) is None {
        indices::none_picked(children.len() as int, p);
    }
}

proof fn lemma_operators_differ()
    ensures
        "eq"@ != "neq"@,
        "gt"@ != "gte"@,
        "gt"@ != "lt"@,
        "gt"@ != "lte"@,
        "gte"@ != "lt"@,
        "gte"@ != "lte"@,
        "lt"@ != "lte"@,
        "eq"@ != "gt"@,
        "eq"@ != "gte"@,
        "eq"@ != "lt"@,
        "eq"@ != "lte"@,
        "neq"@ != "gt"@,
        "neq"@ != "gte"@,
        "neq"@ != "lt"@,
        "neq"@ != "lte"@,
{
    reveal_strlit("eq");
    reveal_strlit("neq");
    reveal_strlit("gt");
    reveal_strlit("gte");
    reveal_strlit("lt");
    reveal_strlit("lte");
    assert("gt"@[0] != "lt"@[0]);
    assert("gte"@[0] != "lte"@[0]);
    assert("eq"@[0] != "gt"@[0]);
    assert("eq"@[0] != "lt"@[0]);
    assert("neq"@[0] != "gte"@[0]);
    assert("neq"@[0] != "lte"@[0]);
    assert("eq"@.len() == 2 && "neq"@.len() == 3 && "gt"@.len() == 2 && "gte"@.len() == 3
        && "lt"@.len() == 2 && "lte"@.len() == 3);
}

/// A comparison compares the value of its key, whatever stands beside it. The
/// value is equal where it is the same; numbers are in the order of their
/// doubles and texts in that of their characters; values of different kinds are
/// in no order.
pub proof fn comparisons_compare_the_keys_value(
    m: Seq<(Seq<char>, Json)>,
    key: Seq<char>,
    i: int,
    bound: Json,
)
    requires
        0 <= i < m.len(),
        m[i].0 == key,
        forall|k: int| 0 <= k < i ==> (#[trigger] m[k]).0 != key,
    ensures
        ({
            let v = m[i].1;
            let eq = FilterView::comparison(key, "eq"@, bound);
            let lt = FilterView::comparison(key, "lt"@, bound);
            let gt = FilterView::comparison(key, "gt"@, bound);
            let lte = FilterView::comparison(key, "lte"@, bound);
            let gte = FilterView::comparison(key, "gte"@, bound);
            &&& satisfies(eq, Some(m)) <==> v.equals(bound)
            &&& match (v, bound) {
                (Json::Number(a), Json::Number(b)) => {
                    &&& satisfies(lt, Some(m)) <==> a.nearest().below(b.nearest())
                    &&& satisfies(gt, Some(m)) <==> b.nearest().below(a.nearest())
                    &&& satisfies(lte, Some(m)) <==> !b.nearest().below(a.nearest())
                    &&& satisfies(gte, Some(m)) <==> !a.nearest().below(b.nearest())
                },
                (Json::Text(a), Json::Text(b)) => {
                    &&& satisfies(lt, Some(m)) <==> text::text_precedes(a, b)
                    &&& satisfies(gt, Some(m)) <==> text::text_precedes(b, a)
                    &&& satisfies(lte, Some(m)) <==> !text::text_precedes(b, a)
                    &&& satisfies(gte, Some(m)) <==> !text::text_precedes(a, b)
                },
                _ => !satisfies(lt, Some(m)) && !satisfies(gt, Some(m)) && !satisfies(lte, Some(m))
                    && !satisfies(gte, Some(m)),
            }
        }),
{
    lemma_operators_differ();
    json::the_first_member_counts(m, key, i);
}

/// A document without a value for the key is in no order with a bound, and it
/// is equal only to null.
pub proof fn missing_values_equal_null(
    metadata: Option<Seq<(Seq<char>, Json)>>,
    key: Seq<char>,
    bound: Json,
)
    requires
        metadata matches Some(m) ==> forall|k: int| 0 <= k < m.len() ==> (#[trigger] m[k]).0 != key,
    ensures
        satisfies(FilterView::comparison(key, "eq"@, bound), metadata) <==> bound is Null,
        !satisfies(FilterView::comparison(key, "lt"@, bound), metadata),
        !satisfies(FilterView::comparison(key, "gt"@, bound), metadata),
        !satisfies(FilterView::comparison(key, "lte"@, bound), metadata),
        !satisfies(FilterView::comparison(key, "gte"@, bound), metadata),
{
    lemma_operators_differ();
    match metadata {
        Some(m) => {
            json::the_first_member_counts(m, key, 0);
        },
        None => {},
    }
}

/// A child is kept exactly if the join has no filter or its metadata satisfies
/// the filter.
pub proof fn children_are_kept_by_their_metadata(
    documents: Seq<Document>,
    filter: Option<MetadataFilter>,
    i: int,
)
    requires
        0 <= i < documents.len(),
    ensures
        filter is None ==> matching(documents, filter, documents.len() as int).contains(i),
        filter matches Some(f) ==> (matching(documents, filter, documents.len() as int).contains(i)
            <==> satisfies(
            f@,
            match documents[i].metadata {
                Some(m) => Some(json::members(m@)),
                None => None,
            },
        )),
{
    indices::picked_is_exact(
        documents.len() as int,
        |i: int| satisfies_join(documents[i], filter),
    );
}

/// A document is joined by its id or by the value of the metadata key that the
/// side names; a result of a search is joined as its document.
pub proof fn documents_are_joined_by_id_or_key(
    document: Document,
    result: SearchResult,
    side: JoinSideRef,
)
    requires
        result.document == document,
    ensures
        join_value(result, side) == join_value(document, side),
        side.kind is Id ==> join_value(document, side) == Some(Json::Text(document.id@)),
        side.kind matches JoinRefKind::Meta(key) ==> match document.metadata {
            Some(m) => join_value(document, side) == json::member(json::members(m@), key@),
            None => join_value(document, side) is None,
        },
{
}

/// A child belongs to a parent exactly if both have a value other than null and
/// the two are the same as JSON texts.
pub proof fn children_belong_by_equal_texts(parent: Option<Json>, child: Option<Json>)
    ensures
        belongs(parent, child) <==> parent is Some && child is Some && !(parent->0 is Null) && !(
        child->0 is Null) && json_text::json_text(parent->0) == json_text::json_text(child->0),
{
}

/// Every value that some document is joined by is asked for, and none twice: what
/// is asked for has as many different texts as there are values.
pub proof fn every_join_value_is_asked_for<P: JoinParent>(
    documents: Seq<P>,
    side: JoinSideRef,
    n: int,
    i: int,
)
    requires
        0 <= i < n <= documents.len(),
        join_value(documents[i], side) is Some,
        !(join_value(documents[i], side)->0 is Null),
    ensures
        exists|k: int|
            0 <= k < wanted_values(documents, side, n).len() && json_text::json_text(
                #[trigger] wanted_values(documents, side, n)[k],
            ) == json_text::json_text(join_value(documents[i], side)->0),
    decreases n,
{
    let rest = wanted_values(documents, side, n - 1);
    let all = wanted_values(documents, side, n);
    let t = json_text::json_text(join_value(documents[i], side)->0);
    if i < n - 1 {
        every_join_value_is_asked_for(documents, side, n - 1, i);
        let k = choose|k: int| 0 <= k < rest.len() && json_text::json_text(#[trigger] rest[k]) == t;
        assert(all[k] == rest[k]);
    } else if key_repeats(documents, side, n - 1) {
        let k0 = choose|k: int|
            0 <= k < n - 1 && join_key(join_value(#[trigger] documents[k], side)) == join_key(
                join_value(documents[n - 1], side),
            );
        every_join_value_is_asked_for(documents, side, n - 1, k0);
        let k = choose|k: int| 0 <= k < rest.len() && json_text::json_text(#[trigger] rest[k]) == t;
        assert(all[k] == rest[k]);
    } else {
        assert(all[rest.len() as int] == join_value(documents[i], side)->0);
    }
}

/// What is asked for are values of the documents, other than null, and no two
/// with one text.
pub proof fn join_values_are_asked_for_once<P: JoinParent>(
    documents: Seq<P>,
    side: JoinSideRef,
    n: int,
)
    requires
        0 <= n <= documents.len(),
    ensures
        forall|k: int|
            0 <= k < wanted_values(documents, side, n).len() ==> exists|i: int|
                0 <= i < n && join_value(#[trigger] documents[i], side) == Some(
                    #[trigger] wanted_values(documents, side, n)[k],
                ),
        forall|k: int|
            0 <= k < wanted_values(documents, side, n).len() ==> !(#[trigger] wanted_values(
                documents,
                side,
                n,
            )[k] is Null),
        forall|j: int, k: int|
            #![trigger wanted_values(documents, side, n)[j], wanted_values(documents, side, n)[k]]
            0 <= j < k < wanted_values(documents, side, n).len() ==> json_text::json_text(
                wanted_values(documents, side, n)[j],
            ) != json_text::json_text(wanted_values(documents, side, n)[k]),
    decreases n,
{
    if n > 0 {
        join_values_are_asked_for_once(documents, side, n - 1);
        let rest = wanted_values(documents, side, n - 1);
        let all = wanted_values(documents, side, n);
        if all.len() > rest.len() {
            let own = join_value(documents[n - 1], side)->0;
            assert(all == rest.push(own));
            assert forall|j: int| 0 <= j < rest.len() implies json_text::json_text(
                #[trigger] rest[j],
            ) != json_text::json_text(own) by {
                let i = choose|i: int|
                    0 <= i < n - 1 && join_value(#[trigger] documents[i], side) == Some(rest[j]);
                assert(join_key(join_value(documents[i], side)) != join_key(
                    join_value(documents[n - 1], side),
                ));
            }
            assert forall|k: int| 0 <= k < all.len() implies exists|i: int|
                0 <= i < n && join_value(#[trigger] documents[i], side) == Some(
                    #[trigger] all[k],
                ) by {
                if k < rest.len() {
                    assert(all[k] == rest[k]);
                    let i = choose|i: int|
                        0 <= i < n - 1 && join_value(#[trigger] documents[i], side) == Some(
                            rest[k],
                        );
                    assert(join_value(documents[i], side) == Some(all[k]));
                } else {
                    assert(join_value(documents[n - 1], side) == Some(all[k]));
                }
            }
            assert forall|j: int, k: int|
                #![trigger all[j], all[k]]
                0 <= j < k < all.len() implies json_text::json_text(all[j])
                != json_text::json_text(all[k]) by {
                assert(all[j] == rest[j]);
                if k < rest.len() {
                    assert(all[k] == rest[k]);
                }
            }
        } else {
            assert(all == rest);
            assert forall|k: int| 0 <= k < all.len() implies exists|i: int|
                0 <= i < n && join_value(#[trigger] documents[i], side) == Some(
                    #[trigger] all[k],
                ) by {
                let i = choose|i: int|
                    0 <= i < n - 1 && join_value(#[trigger] documents[i], side) == Some(rest[k]);
                assert(join_value(documents[i], side) == Some(all[k]));
            }
        }
    }
}

/// Up to the limit of children is fetched for every document, as far as the
/// number can be written in thirty-two bits.
pub proof fn every_parent_has_room_for_its_children(limit: u32, documents: usize)
    requires
        documents <= 0xffff_ffff,
    ensures
        limit * documents <= 0xffff_ffff ==> most_children(limit, documents) == limit * documents,
        limit * documents > 0xffff_ffff ==> most_children(limit, documents) == 0xffff_ffff,
{
    assert((documents as u32) as int == documents as int);
}

/// An id is fetched as the text that it is, and any other value as its JSON text.
pub proof fn ids_are_fetched_as_texts(values: Seq<Json>, i: int)
    requires
        0 <= i < values.len(),
    ensures
        ids_of(values).len() == values.len(),
        values[i] matches Json::Text(s) ==> ids_of(values)[i] == s,
        !(values[i] is Text) ==> ids_of(values)[i] == json_text::json_text(values[i]),
{
}

/// A join by a metadata key is accepted only if the joined collection indexes
/// that key; a join by id needs no index. A filter is accepted exactly if the
/// joined collection accepts it.
pub proof fn joins_need_their_index(spec: JoinSpec, config: CollectionConfigInternal)
    ensures
        spec.child_ref.kind matches JoinRefKind::Meta(key) ==> (join_problem(spec, config) is None
            ==> search_group::is_indexed(
            search_filter::index_list(config.metadata_indexes),
            key@,
        )),
        spec.child_ref.kind is Id || (spec.child_ref.kind matches JoinRefKind::Meta(key)
            && search_filter::index_list(config.metadata_indexes).len() > 0
            && search_group::is_indexed(
            search_filter::index_list(config.metadata_indexes),
            key@,
        )) ==> (join_problem(spec, config) == match spec.metadata_filter {
            Some(f) => encoder::collection_filter_error(config, f),
            None => None,
        }),
{
}

/// The metadata of the parents is read only if some join goes by it.
pub proof fn parent_metadata_is_read_for_joins_by_it(specs: Seq<JoinSpec>)
    ensures
        (forall|i: int| 0 <= i < specs.len() ==> (#[trigger] specs[i]).parent_ref.kind is Id)
            <==> !reads_parent_metadata(specs),
{
    if !reads_parent_metadata(specs) {
        assert forall|i: int| 0 <= i < specs.len() implies (#[trigger] specs[i]).parent_ref.kind is Id by {
            assert(!(specs[i].parent_ref.kind is Meta));
        }
    }
}

} // verus!
