//! The database layer's decisions: errors, collection layout, filters and the
//! plan of a search.

use vstd::prelude::*;
use crate::common;
use crate::common::{
    string_to_uuid, uuid_text, DenseDistance, DocumentField, APP_PREFIX, MAX_DATABASE_WAIT_SECONDS,
};
use crate::indices;
use crate::json::{Double, ONE_BITS};
use crate::models::{MetadataIndex, VectorConfigInternal, VectorData, VectorSearchOption};
use crate::templates::field_slots;
use crate::text;
use crate::text::{has_prefix, joined, same_text, text2, text3, text5};

verus! {

/// A failure of the database layer.
#[derive(Debug, PartialEq, Eq)]
pub enum DbError {
    NotFound(String),
    /// The database client's own message.
    Qdrant(String),
    Config(String),
}

impl DbError {
    pub open spec fn message_text(self) -> Seq<char> {
        match self {
            DbError::NotFound(m) => "Not found: "@ + m@,
            DbError::Qdrant(m) => "Qdrant error: "@ + m@,
            DbError::Config(m) => "Config error: "@ + m@,
        }
    }

    /// The error in words.
    pub fn message(&self) -> (r: String)
        ensures
            r@ == self.message_text(),
    {
        match self {
            DbError::NotFound(m) => text2("Not found: ", m.as_str()),
            DbError::Qdrant(m) => text2("Qdrant error: ", m.as_str()),
            DbError::Config(m) => text2("Config error: ", m.as_str()),
        }
    }
}

/// The wait before the first retry of a connection, in seconds.
pub const FIRST_WAIT_SECONDS: u64 = 2;

/// The wait after a wait: two seconds more, up to the longest one.
pub open spec fn wait_after(wait_secs: int) -> int {
    if wait_secs + 2 < MAX_DATABASE_WAIT_SECONDS {
        wait_secs + 2
    } else {
        MAX_DATABASE_WAIT_SECONDS as int
    }
}

/// The seconds to wait before the next retry, after a wait of `wait_secs`.
pub fn next_wait(wait_secs: u64) -> (r: u64)
    requires
        wait_secs <= MAX_DATABASE_WAIT_SECONDS,
    ensures
        r == wait_after(wait_secs as int),
        r <= MAX_DATABASE_WAIT_SECONDS,
{
    if wait_secs + 2 < MAX_DATABASE_WAIT_SECONDS {
        wait_secs + 2
    } else {
        MAX_DATABASE_WAIT_SECONDS
    }
}

/// The wait before a retry, counted from zero.
pub open spec fn nth_wait(n: nat) -> int
    decreases n,
{
    if n == 0 {
        FIRST_WAIT_SECONDS as int
    } else {
        wait_after(nth_wait((n - 1) as nat))
    }
}

/// The waits grow by two seconds each until they stay at the longest one.
pub proof fn waits_grow_to_the_longest(n: nat)
    ensures
        nth_wait(n) == if 2 + 2 * (n as int) < MAX_DATABASE_WAIT_SECONDS {
            2 + 2 * (n as int)
        } else {
            MAX_DATABASE_WAIT_SECONDS as int
        },
    decreases n,
{
    if n > 0 {
        waits_grow_to_the_longest((n - 1) as nat);
    }
}

/// Whether a database collection is a user's: it carries the application's
/// prefix and is no system collection.
pub open spec fn is_user_collection(name: Seq<char>) -> bool {
    ("amgix"@ + "_"@).is_prefix_of(name) && !("amgix"@ + "_sys_"@).is_prefix_of(name)
}

/// The users' collections among all.
pub open spec fn user_names(names: Seq<Seq<char>>) -> Seq<Seq<char>>
    decreases names.len(),
{
    if names.len() == 0 {
        Seq::empty()
    } else {
        let rest = user_names(names.drop_last());
        if is_user_collection(names.last()) {
            rest.push(names.last())
        } else {
            rest
        }
    }
}

/// Keeps the users' collections among all that the database has.
pub fn user_collections(names: &Vec<String>) -> (r: Vec<String>)
    ensures
        text::views(r@) == user_names(text::views(names@)),
{
    let user_prefix = text2(APP_PREFIX, "_");
    let sys_prefix = text2(APP_PREFIX, "_sys_");
    let ghost all = text::views(names@);
    let mut out: Vec<String> = Vec::new();
    let mut i: usize = 0;
    assert(all.take(0) =~= Seq::empty());
    assert(text::views(out@) =~= Seq::empty());
    while i < names.len()
        invariant
            i <= names@.len(),
            all == text::views(names@),
            user_prefix@ == "amgix"@ + "_"@,
            sys_prefix@ == "amgix"@ + "_sys_"@,
            text::views(out@) == user_names(all.take(i as int)),
        decreases names.len() - i,
    {
        assert(all.take(i as int + 1).drop_last() =~= all.take(i as int));
        assert(all.take(i as int + 1).last() == names@[i as int]@);
        let name = names[i].as_str();
        if has_prefix(name, user_prefix.as_str()) && !has_prefix(name, sys_prefix.as_str()) {
            let ghost before = text::views(out@);
            out.push(name.to_owned());
            assert(text::views(out@) =~= before.push(name@));
        }
        i += 1;
    }
    assert(all.take(i as int) =~= all);
    out
}

/// System collections are never listed as users' collections.
pub proof fn system_collections_are_hidden(suffix: Seq<char>)
    ensures
        !is_user_collection("amgix"@ + "_sys_"@ + suffix),
{
    let p = "amgix"@ + "_sys_"@;
    assert((p + suffix).subrange(0, p.len() as int) =~= p);
    assert(p.is_prefix_of(p + suffix));
}

/// The name of the vector of a field in the database.
pub open spec fn slot_name(field: DocumentField, vector: Seq<char>) -> Seq<char> {
    field.spec_name() + "_"@ + vector
}

/// The name of the vector of a field in the database.
pub fn slot_name_text(field: DocumentField, vector: &str) -> (r: String)
    ensures
        r@ == slot_name(field, vector@),
{
    text3(field.name(), "_", vector)
}

/// The parameters of a dense vector in the database.
#[derive(Debug, Clone, Copy, PartialEq, Eq, Structural)]
pub struct DenseParams {
    pub size: u64,
    pub distance: DenseDistance,
}

/// The parameters of a sparse vector in the database.
#[derive(Debug, Clone, Copy, PartialEq, Eq, Structural)]
pub struct SparseParams {
    /// Whether scores are weighted by inverse document frequency.
    pub idf: bool,
    pub on_disk: bool,
}

/// Named parameters by name and value.
pub open spec fn named<P>(v: Seq<(String, P)>) -> Seq<(Seq<char>, P)> {
    Seq::new(v.len(), |i: int| (v[i].0@, v[i].1))
}

/// The position of the first entry with a name, or the number of entries.
pub open spec fn name_index<P>(v: Seq<(Seq<char>, P)>, name: Seq<char>) -> int
    decreases v.len(),
{
    if v.len() == 0 || v[0].0 == name {
        0
    } else {
        1 + name_index(v.drop_first(), name)
    }
}

/// Named parameters with those of a name set: in place, or as a new entry.
pub open spec fn with_params<P>(v: Seq<(Seq<char>, P)>, name: Seq<char>, params: P) -> Seq<
    (Seq<char>, P),
> {
    let i = name_index(v, name);
    if 0 <= i < v.len() {
        v.update(i, (name, params))
    } else {
        v.push((name, params))
    }
}

proof fn lemma_name_index<P>(v: Seq<(Seq<char>, P)>, name: Seq<char>, i: int)
    requires
        0 <= i <= v.len(),
        forall|k: int| 0 <= k < i ==> (#[trigger] v[k]).0 != name,
        i < v.len() ==> v[i].0 == name,
    ensures
        name_index(v, name) == i,
    decreases v.len(),
{
    if v.len() > 0 && i > 0 {
        assert(v[0].0 != name);
        assert forall|k: int| 0 <= k < i - 1 implies (#[trigger] v.drop_first()[k]).0 != name by {
            assert(v[k + 1].0 != name);
        }
        lemma_name_index(v.drop_first(), name, i - 1);
    }
}

pub(crate) fn set_params<P: Copy>(v: &mut Vec<(String, P)>, name: String, params: P)
    ensures
        named(final(v)@) == with_params(named(old(v)@), name@, params),
{
    let ghost before = named(v@);
    let mut i: usize = 0;
    while i < v.len()
        invariant
            i <= v@.len(),
            v@ == old(v)@,
            before == named(v@),
            forall|k: int| 0 <= k < i ==> (#[trigger] before[k]).0 != name@,
        decreases v.len() - i,
    {
        if same_text(v[i].0.as_str(), name.as_str()) {
            proof {
                lemma_name_index(before, name@, i as int);
            }
            let ghost wanted = name@;
            v.set(i, (name, params));
            assert(named(v@) =~= before.update(i as int, (wanted, params)));
            return ;
        }
        i += 1;
    }
    proof {
        lemma_name_index(before, name@, i as int);
    }
    let ghost wanted = name@;
    v.push((name, params));
    assert(named(v@) =~= before.push((wanted, params)));
}

/// Named parameters with those of a vector's fields set.
pub open spec fn with_field_params<P>(
    v: Seq<(Seq<char>, P)>,
    fields: Seq<DocumentField>,
    vector: Seq<char>,
    params: P,
) -> Seq<(Seq<char>, P)>
    decreases fields.len(),
{
    if fields.len() == 0 {
        v
    } else {
        with_params(
            with_field_params(v, fields.drop_last(), vector, params),
            slot_name(fields.last(), vector),
            params,
        )
    }
}

fn set_field_params<P: Copy>(
    v: &mut Vec<(String, P)>,
    fields: &Vec<DocumentField>,
    vector: &str,
    params: P,
)
    ensures
        named(final(v)@) == with_field_params(named(old(v)@), fields@, vector@, params),
{
    let ghost before = named(v@);
    let mut i: usize = 0;
    assert(fields@.take(0) =~= Seq::empty());
    while i < fields.len()
        invariant
            i <= fields@.len(),
            named(v@) == with_field_params(before, fields@.take(i as int), vector@, params),
        decreases fields.len() - i,
    {
        assert(fields@.take(i as int + 1).drop_last() =~= fields@.take(i as int));
        assert(fields@.take(i as int + 1).last() == fields@[i as int]);
        set_params(v, slot_name_text(fields[i], vector), params);
        i += 1;
    }
    assert(fields@.take(i as int) =~= fields@);
}

/// The name of the first dense vector without dimensions.
pub open spec fn undimensioned(configs: Seq<VectorConfigInternal>) -> Option<Seq<char>>
    decreases configs.len(),
{
    if configs.len() == 0 {
        None
    } else if configs[0].vector_type.spec_is_dense() && configs[0].dimensions is None {
        Some(configs[0].name@)
    } else {
        undimensioned(configs.drop_first())
    }
}

/// The dense vectors of a collection in the database.
pub open spec fn dense_slots(configs: Seq<VectorConfigInternal>) -> Seq<(Seq<char>, DenseParams)>
    decreases configs.len(),
{
    if configs.len() == 0 {
        Seq::empty()
    } else {
        let rest = dense_slots(configs.drop_last());
        let c = configs.last();
        if c.vector_type.spec_is_dense() {
            with_field_params(
                rest,
                c.slots(),
                c.name@,
                (DenseParams { size: c.dimensions->0 as u64, distance: c.dense_distance }),
            )
        } else {
            rest
        }
    }
}

/// The sparse vectors of a collection in the database: on disk, and weighted
/// by inverse document frequency where the tokens are made here.
pub open spec fn sparse_slots(configs: Seq<VectorConfigInternal>) -> Seq<(Seq<char>, SparseParams)>
    decreases configs.len(),
{
    if configs.len() == 0 {
        Seq::empty()
    } else {
        let rest = sparse_slots(configs.drop_last());
        let c = configs.last();
        if c.vector_type.spec_is_dense() {
            rest
        } else {
            with_field_params(
                rest,
                c.slots(),
                c.name@,
                (SparseParams { idf: c.vector_type.spec_is_custom_tokenization(), on_disk: true }),
            )
        }
    }
}

/// The vectors of a collection in the database.
#[derive(Debug, Clone, PartialEq, Eq)]
pub struct CollectionLayout {
    pub dense: Vec<(String, DenseParams)>,
    pub sparse: Vec<(String, SparseParams)>,
}

/// Lays out the vectors of a collection in the database.
pub fn collection_layout(configs: &Vec<VectorConfigInternal>) -> (r: Result<
    CollectionLayout,
    DbError,
>)
    ensures
        match r {
            Ok(l) => undimensioned(configs@) is None && named(l.dense@) == dense_slots(configs@)
                && named(l.sparse@) == sparse_slots(configs@),
            Err(e) => undimensioned(configs@) is Some && (e matches DbError::Config(m) && m@
                == "Dimensions required for dense vector '"@ + undimensioned(configs@)->0 + "'"@),
        },
{
    let mut dense: Vec<(String, DenseParams)> = Vec::new();
    let mut sparse: Vec<(String, SparseParams)> = Vec::new();
    let mut i: usize = 0;
    assert(configs@.take(0) =~= Seq::empty());
    assert(configs@.skip(0) =~= configs@);
    assert(named(dense@) =~= Seq::empty());
    assert(named(sparse@) =~= Seq::empty());
    while i < configs.len()
        invariant
            i <= configs@.len(),
            undimensioned(configs@) == undimensioned(configs@.skip(i as int)),
            named(dense@) == dense_slots(configs@.take(i as int)),
            named(sparse@) == sparse_slots(configs@.take(i as int)),
        decreases configs.len() - i,
    {
        let c = &configs[i];
        assert(configs@.skip(i as int)[0] == c);
        assert(configs@.skip(i as int).drop_first() =~= configs@.skip(i as int + 1));
        assert(configs@.take(i as int + 1).last() == c);
        assert(configs@.take(i as int + 1).drop_last() =~= configs@.take(i as int));
        let fields = field_slots(c);
        if c.vector_type.is_dense() {
            let dims: u32 = match c.dimensions {
                Some(dims) => dims,
                None => {
                    return Err(
                        DbError::Config(
                            text3("Dimensions required for dense vector '", c.name.as_str(), "'"),
                        ),
                    );
                },
            };
            set_field_params(
                &mut dense,
                &fields,
                c.name.as_str(),
                DenseParams { size: dims as u64, distance: c.dense_distance },
            );
        } else {
            set_field_params(
                &mut sparse,
                &fields,
                c.name.as_str(),
                SparseParams { idf: c.vector_type.is_custom_tokenization(), on_disk: true },
            );
        }
        i += 1;
    }
    assert(configs@.take(i as int) =~= configs@);
    Ok(CollectionLayout { dense, sparse })
}

/// A type of index in the database.
#[derive(Debug, Clone, Copy, PartialEq, Eq, Structural)]
pub enum FieldType {
    Keyword,
    Integer,
    Float,
    Bool,
    Datetime,
}

/// The type of index for values of a declared type.
pub open spec fn index_field_type(value_type: Seq<char>) -> Option<FieldType> {
    if value_type == "string"@ {
        Some(FieldType::Keyword)
    } else if value_type == "integer"@ {
        Some(FieldType::Integer)
    } else if value_type == "float"@ {
        Some(FieldType::Float)
    } else if value_type == "boolean"@ {
        Some(FieldType::Bool)
    } else if value_type == "datetime"@ {
        Some(FieldType::Datetime)
    } else {
        None
    }
}

fn metadata_field_type(value_type: &str) -> (r: Option<FieldType>)
    ensures
        r == index_field_type(value_type@),
{
    if same_text(value_type, "string") {
        Some(FieldType::Keyword)
    } else if same_text(value_type, "integer") {
        Some(FieldType::Integer)
    } else if same_text(value_type, "float") {
        Some(FieldType::Float)
    } else if same_text(value_type, "boolean") {
        Some(FieldType::Bool)
    } else if same_text(value_type, "datetime") {
        Some(FieldType::Datetime)
    } else {
        None
    }
}

/// The indexes on a collection's payload: on the tags, and on every declared
/// metadata key of a known type.
pub open spec fn payload_indexes(indexes: Seq<MetadataIndex>) -> Seq<(Seq<char>, FieldType)>
    decreases indexes.len(),
{
    if indexes.len() == 0 {
        seq![("tags"@, FieldType::Keyword)]
    } else {
        let rest = payload_indexes(indexes.drop_last());
        match index_field_type(indexes.last().value_type@) {
            Some(t) => rest.push(("metadata."@ + indexes.last().key@ + ".value"@, t)),
            None => rest,
        }
    }
}

/// Lists the indexes on a collection's payload.
pub fn list_payload_indexes(indexes: &Option<Vec<MetadataIndex>>) -> (r: Vec<(String, FieldType)>)
    ensures
        named(r@) == payload_indexes(
            match *indexes {
                Some(list) => list@,
                None => Seq::empty(),
            },
        ),
{
    let mut out: Vec<(String, FieldType)> = Vec::new();
    out.push(("tags".to_owned(), FieldType::Keyword));
    assert(named(out@) =~= seq![("tags"@, FieldType::Keyword)]);
    if let Some(list) = indexes {
        let mut i: usize = 0;
        assert(list@.take(0) =~= Seq::empty());
        while i < list.len()
            invariant
                i <= list@.len(),
                named(out@) == payload_indexes(list@.take(i as int)),
            decreases list.len() - i,
        {
            assert(list@.take(i as int + 1).last() == list@[i as int]);
            assert(list@.take(i as int + 1).drop_last() =~= list@.take(i as int));
            if let Some(t) = metadata_field_type(list[i].value_type.as_str()) {
                let path = text3("metadata.", list[i].key.as_str(), ".value");
                let ghost before = named(out@);
                let ghost view = path@;
                out.push((path, t));
                assert(named(out@) =~= before.push((view, t)));
            }
            i += 1;
        }
        assert(list@.take(i as int) =~= list@);
    }
    out
}

/// The database's id of a document or of an entry of the meta collection.
pub open spec fn point_id(name: Seq<char>) -> Seq<char> {
    common::hyphenated(
        common::uuid_v5_bits(common::doc_namespace_bits(), vstd::utf8::encode_utf8(name)),
    )
}

/// The database's id of a document or of an entry of the meta collection.
pub fn point_id_text(name: &str) -> (r: String)
    ensures
        r@ == point_id(name@),
{
    uuid_text(string_to_uuid(name))
}

/// The id of the entry that holds a collection's configuration.
pub fn config_point_id(collection_name: &str) -> (r: String)
    ensures
        r@ == point_id(collection_name@ + "_config"@),
{
    let name = text2(collection_name, "_config");
    point_id_text(name.as_str())
}

/// The id of the entry that holds a collection's statistics.
pub fn stats_point_id(collection_name: &str) -> (r: String)
    ensures
        r@ == point_id(collection_name@ + "_stats"@),
{
    let name = text2(collection_name, "_stats");
    point_id_text(name.as_str())
}

/// The error where a collection has no configuration.
pub fn missing_config_error(collection_name: &str) -> (r: DbError)
    ensures
        r matches DbError::NotFound(m) && m@ == "Configuration not found for '"@
            + collection_name@ + "'"@,
{
    DbError::NotFound(text3("Configuration not found for '", collection_name, "'"))
}

/// Decides whether a document can be deleted, by whether it was found.
pub fn check_document_found(found: bool, document_id: &str, collection_name: &str) -> (r: Result<
    (),
    DbError,
>)
    ensures
        match r {
            Ok(_) => found,
            Err(e) => !found && (e matches DbError::NotFound(m) && m@ == "Document '"@
                + document_id@ + "' not found in collection '"@ + collection_name@ + "'"@),
        },
{
    if found {
        Ok(())
    } else {
        Err(
            DbError::NotFound(
                text5(
                    "Document '",
                    document_id,
                    "' not found in collection '",
                    collection_name,
                    "'",
                ),
            ),
        )
    }
}

/// The last position of a text in a list.
pub open spec fn last_position(v: Seq<Seq<char>>, t: Seq<char>) -> Option<int>
    decreases v.len(),
{
    if v.len() == 0 {
        None
    } else if v.last() == t {
        Some(v.len() - 1)
    } else {
        last_position(v.drop_last(), t)
    }
}

/// Which of the points that were found is the document asked for at a
/// position. A document that is asked for twice is answered twice.
pub open spec fn answer(found: Seq<Seq<char>>, ids: Seq<Seq<char>>, k: int) -> Option<int> {
    last_position(found, point_id(ids[k]))
}

/// The ids among the first `n` that have no answer.
pub open spec fn unanswered(found: Seq<Seq<char>>, ids: Seq<Seq<char>>, n: int) -> Seq<Seq<char>>
    decreases n,
{
    if n <= 0 {
        Seq::empty()
    } else {
        let rest = unanswered(found, ids, n - 1);
        if answer(found, ids, n - 1) is None {
            rest.push(ids[n - 1])
        } else {
            rest
        }
    }
}

fn find_last(v: &Vec<String>, t: &str) -> (r: Option<usize>)
    ensures
        match r {
            Some(i) => last_position(text::views(v@), t@) == Some(i as int) && i < v@.len(),
            None => last_position(text::views(v@), t@) is None,
        },
{
    let ghost all = text::views(v@);
    let mut n: usize = v.len();
    assert(all.take(n as int) =~= all);
    while n > 0
        invariant
            n <= v@.len(),
            all == text::views(v@),
            last_position(all, t@) == last_position(all.take(n as int), t@),
        decreases n,
    {
        assert(all.take(n as int).last() == v@[n - 1]@);
        assert(all.take(n as int).drop_last() =~= all.take(n as int - 1));
        if same_text(v[n - 1].as_str(), t) {
            return Some(n - 1);
        }
        n -= 1;
    }
    None
}

/// Whether positions answer what was asked for, in order.
pub open spec fn answers_all(
    found: Seq<Seq<char>>,
    ids: Seq<Seq<char>>,
    r: Seq<Option<usize>>,
) -> bool {
    &&& r.len() == ids.len()
    &&& forall|k: int|
        0 <= k < r.len() ==> match #[trigger] r[k] {
            Some(i) => answer(found, ids, k) == Some(i as int) && i < found.len(),
            None => answer(found, ids, k) is None,
        }
}

/// Puts the points that were found in the order of the documents asked for:
/// for each of these the position of its point, if it was found. Unless
/// missing documents are suppressed, they are an error.
pub fn order_documents(
    found: &Vec<String>,
    document_ids: &Vec<String>,
    suppress_not_found: bool,
) -> (r: Result<Vec<Option<usize>>, DbError>)
    ensures
        ({
            let f = text::views(found@);
            let ids = text::views(document_ids@);
            let missing = unanswered(f, ids, ids.len() as int);
            match r {
                Ok(places) => (suppress_not_found || missing.len() == 0) && answers_all(
                    f,
                    ids,
                    places@,
                ),
                Err(e) => !suppress_not_found && missing.len() > 0 && (e matches DbError::NotFound(
                    m,
                ) && m@ == "Documents not found for document_ids: "@ + text::join(missing, ", "@)),
            }
        }),
{
    let ghost f = text::views(found@);
    let ghost ids = text::views(document_ids@);
    let mut out: Vec<Option<usize>> = Vec::new();
    let mut missing: Vec<String> = Vec::new();
    let mut k: usize = 0;
    assert(text::views(missing@) =~= Seq::empty());
    while k < document_ids.len()
        invariant
            k <= document_ids@.len(),
            f == text::views(found@),
            ids == text::views(document_ids@),
            out@.len() == k,
            text::views(missing@) == unanswered(f, ids, k as int),
            forall|j: int|
                0 <= j < k ==> match #[trigger] out@[j] {
                    Some(i) => answer(f, ids, j) == Some(i as int) && i < f.len(),
                    None => answer(f, ids, j) is None,
                },
        decreases document_ids.len() - k,
    {
        assert(ids[k as int] == document_ids@[k as int]@);
        let point = point_id_text(document_ids[k].as_str());
        let place = find_last(found, point.as_str());
        if place.is_none() {
            let ghost before = text::views(missing@);
            missing.push(document_ids[k].as_str().to_owned());
            assert(text::views(missing@) =~= before.push(ids[k as int]));
        }
        out.push(place);
        k += 1;
    }
    assert(text::views(missing@).len() == missing@.len());
    if !suppress_not_found && missing.len() > 0 {
        let list = joined(&missing, ", ");
        return Err(
            DbError::NotFound(text2("Documents not found for document_ids: ", list.as_str())),
        );
    }
    Ok(out)
}

/// Whether a weight is meant for a vector: it has its name and its field. The
/// field does not count for the vector of a template.
pub open spec fn weighs(o: VectorSearchOption, vd: VectorData) -> bool {
    o.vector_name@ == vd.vector_name@ && (vd.field is Template || o.field == Some(vd.field))
}

/// The weight of a vector in a search: the last one meant for it, or one.
pub open spec fn weight_of(options: Seq<VectorSearchOption>, vd: VectorData) -> Double
    decreases options.len(),
{
    if options.len() == 0 {
        Double::one()
    } else if weighs(options.last(), vd) {
        options.last().weight
    } else {
        weight_of(options.drop_last(), vd)
    }
}

fn find_weight(options: &Vec<VectorSearchOption>, vd: &VectorData) -> (r: Double)
    ensures
        r == weight_of(options@, *vd),
{
    let mut n: usize = options.len();
    assert(options@.take(n as int) =~= options@);
    while n > 0
        invariant
            n <= options@.len(),
            weight_of(options@, *vd) == weight_of(options@.take(n as int), *vd),
        decreases n,
    {
        assert(options@.take(n as int).last() == options@[n - 1]);
        assert(options@.take(n as int).drop_last() =~= options@.take(n as int - 1));
        let o = &options[n - 1];
        if same_text(o.vector_name.as_str(), vd.vector_name.as_str()) {
            let same_field = match vd.field {
                DocumentField::Template => true,
                _ => match o.field {
                    Some(f) => f == vd.field,
                    None => false,
                },
            };
            if same_field {
                return o.weight;
            }
        }
        n -= 1;
    }
    Double { bits: ONE_BITS }
}

/// One of the queries of a search: the position of its vector, the name of the
/// vector in the database and its weight.
#[derive(Debug, Clone, PartialEq, Eq)]
pub struct SearchArm {
    pub vector: usize,
    pub name: String,
    pub weight: Double,
}

/// Whether a vector takes part in a search: its weight is not zero.
pub open spec fn takes_part(options: Seq<VectorSearchOption>, vd: VectorData) -> bool {
    !weight_of(options, vd).equals(Double::zero())
}

/// The positions of the vectors that take part in a search.
pub open spec fn arm_positions(
    options: Seq<VectorSearchOption>,
    vectors: Seq<VectorData>,
    n: int,
) -> Seq<int> {
    indices::picked(n, |i: int| takes_part(options, vectors[i]))
}

/// Plans the queries of a search, one for every vector whose weight is not
/// zero, in order.
pub fn plan_arms(options: &Vec<VectorSearchOption>, vectors: &Vec<VectorData>) -> (r: Vec<
    SearchArm,
>)
    ensures
        r@.len() == arm_positions(options@, vectors@, vectors@.len() as int).len(),
        forall|k: int|
            0 <= k < r@.len() ==> {
                let a = #[trigger] r@[k];
                let vd = vectors@[a.vector as int];
                &&& a.vector == arm_positions(options@, vectors@, vectors@.len() as int)[k]
                &&& a.vector < vectors@.len()
                &&& a.name@ == slot_name(vd.field, vd.vector_name@)
                &&& a.weight == weight_of(options@, vd)
            },
{
    let mut out: Vec<SearchArm> = Vec::new();
    let mut i: usize = 0;
    while i < vectors.len()
        invariant
            i <= vectors@.len(),
            out@.len() == arm_positions(options@, vectors@, i as int).len(),
            forall|k: int|
                0 <= k < out@.len() ==> {
                    let a = #[trigger] out@[k];
                    let vd = vectors@[a.vector as int];
                    &&& a.vector == arm_positions(options@, vectors@, i as int)[k]
                    &&& a.vector < i
                    &&& a.name@ == slot_name(vd.field, vd.vector_name@)
                    &&& a.weight == weight_of(options@, vd)
                },
        decreases vectors.len() - i,
    {
        let weight = find_weight(options, &vectors[i]);
        let zero = Double { bits: 0 };
        if !weight.same(&zero) {
            out.push(
                SearchArm {
                    vector: i,
                    name: slot_name_text(vectors[i].field, vectors[i].vector_name.as_str()),
                    weight,
                },
            );
        }
        i += 1;
    }
    out
}

/// Vectors of the same slot have the same weight in a search.
pub proof fn weights_go_by_slot(
    options: Seq<VectorSearchOption>,
    a: VectorData,
    b: VectorData,
)
    requires
        a.vector_name@ == b.vector_name@,
        a.field == b.field,
    ensures
        weight_of(options, a) == weight_of(options, b),
    decreases options.len(),
{
    if options.len() > 0 {
        weights_go_by_slot(options.drop_last(), a, b);
    }
}

/// The parts of a document that a search fetches.
pub open spec fn search_payload() -> Seq<Seq<char>> {
    seq!["id"@, "timestamp"@, "name"@, "description"@, "metadata"@, "tags"@]
}

/// Lists the parts of a document that a search fetches.
pub fn search_payload_fields() -> (r: Vec<String>)
    ensures
        text::views(r@) == search_payload(),
{
    let r = vec![
        "id".to_owned(),
        "timestamp".to_owned(),
        "name".to_owned(),
        "description".to_owned(),
        "metadata".to_owned(),
        "tags".to_owned(),
    ];
    assert(text::views(r@) =~= search_payload());
    r
}

/// Whether an option names a slot: its vector and its field.
pub open spec fn names_slot(o: VectorSearchOption, name: Seq<char>, field: DocumentField) -> bool {
    o.vector_name@ == name && o.field == Some(field)
}

/// The weight of a slot is that of the last option that names it; options for
/// other fields of the vector, before or behind it, count for nothing.
pub proof fn the_last_option_weighs_its_slot(
    options: Seq<VectorSearchOption>,
    vd: VectorData,
    i: int,
)
    requires
        !(vd.field is Template),
        0 <= i < options.len(),
        options[i].vector_name@ == vd.vector_name@,
        options[i].field == Some(vd.field),
        forall|j: int|
            i < j < options.len() ==> !names_slot(#[trigger] options[j], vd.vector_name@, vd.field),
    ensures
        weight_of(options, vd) == options[i].weight,
    decreases options.len(),
{
    if i < options.len() - 1 {
        assert(!names_slot(options[options.len() - 1], vd.vector_name@, vd.field));
        assert forall|j: int| i < j < options.drop_last().len() implies !names_slot(
            #[trigger] options.drop_last()[j],
            vd.vector_name@,
            vd.field,
        ) by {
            assert(options.drop_last()[j] == options[j]);
        }
        the_last_option_weighs_its_slot(options.drop_last(), vd, i);
    }
}

/// The weight of a vector made by a template is that of the last option that
/// names the vector, whatever field it names.
pub proof fn the_last_option_weighs_a_template(
    options: Seq<VectorSearchOption>,
    vd: VectorData,
    i: int,
)
    requires
        vd.field is Template,
        0 <= i < options.len(),
        options[i].vector_name@ == vd.vector_name@,
        forall|j: int|
            i < j < options.len() ==> (#[trigger] options[j]).vector_name@ != vd.vector_name@,
    ensures
        weight_of(options, vd) == options[i].weight,
    decreases options.len(),
{
    if i < options.len() - 1 {
        assert(options[options.len() - 1].vector_name@ != vd.vector_name@);
        assert forall|j: int| i < j < options.drop_last().len() implies (
        #[trigger] options.drop_last()[j]).vector_name@ != vd.vector_name@ by {
            assert(options.drop_last()[j] == options[j]);
        }
        the_last_option_weighs_a_template(options.drop_last(), vd, i);
    }
}

/// A slot that no option names weighs one, and an option for another slot
/// changes nothing.
pub proof fn other_options_leave_a_slot_alone(
    options: Seq<VectorSearchOption>,
    o: VectorSearchOption,
    vd: VectorData,
)
    requires
        o.vector_name@ != vd.vector_name@ || (!(vd.field is Template) && o.field != Some(vd.field)),
    ensures
        weight_of(options.push(o), vd) == weight_of(options, vd),
        (forall|i: int|
            0 <= i < options.len() ==> (#[trigger] options[i]).vector_name@ != vd.vector_name@ || (
            !(vd.field is Template) && options[i].field != Some(vd.field))) ==> weight_of(
            options,
            vd,
        ).bits == 0x3ff0_0000_0000_0000u64,
    decreases options.len(),
{
    assert(options.push(o).drop_last() =~= options);
    if options.len() > 0 {
        let all = forall|i: int|
            0 <= i < options.len() ==> (#[trigger] options[i]).vector_name@ != vd.vector_name@ || (
            !(vd.field is Template) && options[i].field != Some(vd.field));
        let rest = options.drop_last();
        if all {
            assert forall|i: int| 0 <= i < rest.len() implies (#[trigger] rest[i]).vector_name@
                != vd.vector_name@ || (!(vd.field is Template) && rest[i].field != Some(
                vd.field,
            )) by {
                assert(rest[i] == options[i]);
            }
            assert(options[options.len() - 1] == options.last());
        }
        other_options_leave_a_slot_alone(rest, o, vd);
    }
}

/// A vector of the query is searched with exactly if its weight is no zero, in
/// the order in which the vectors stand.
pub proof fn weighted_vectors_are_searched_with(
    options: Seq<VectorSearchOption>,
    vectors: Seq<VectorData>,
    i: int,
)
    requires
        0 <= i < vectors.len(),
    ensures
        arm_positions(options, vectors, vectors.len() as int).contains(i) <==> (weight_of(
            options,
            vectors[i],
        ).bits != 0 && weight_of(options, vectors[i]).bits != 0x8000_0000_0000_0000u64),
        forall|a: int, b: int|
            #![trigger arm_positions(options, vectors, vectors.len() as int)[a],
                arm_positions(options, vectors, vectors.len() as int)[b]]
            0 <= a < b < arm_positions(options, vectors, vectors.len() as int).len()
                ==> arm_positions(options, vectors, vectors.len() as int)[a] < arm_positions(
                options,
                vectors,
                vectors.len() as int,
            )[b],
{
    let p = |i: int| takes_part(options, vectors[i]);
    indices::picked_is_exact(vectors.len() as int, p);
    assert(arm_positions(options, vectors, vectors.len() as int) == indices::picked(
        vectors.len() as int,
        p,
    ));
    assert(p(i) == takes_part(options, vectors[i]));
}

/// Different slots have different names in the database.
pub proof fn slots_have_names_of_their_own(
    f: DocumentField,
    v: Seq<char>,
    g: DocumentField,
    w: Seq<char>,
)
    requires
        slot_name(f, v) == slot_name(g, w),
    ensures
        f == g,
        v == w,
{
    reveal_strlit("name");
    reveal_strlit("description");
    reveal_strlit("content");
    reveal_strlit("template");
    reveal_strlit("_");
    let a = slot_name(f, v);
    let b = slot_name(g, w);
    assert(a[0] == b[0]);
    assert(a[0] == f.spec_name()[0]);
    assert(b[0] == g.spec_name()[0]);
    assert(f == g);
    let n = f.spec_name().len() as int;
    assert(a.skip(n + 1) =~= v);
    assert(b.skip(n + 1) =~= w);
}

/// Whether parameters are listed under a name.
pub open spec fn lists<P>(v: Seq<(Seq<char>, P)>, name: Seq<char>, params: P) -> bool {
    exists|k: int| 0 <= k < v.len() && #[trigger] v[k] == (name, params)
}

/// Parameters that are set under a name are listed there, and those under other
/// names stay.
pub proof fn params_are_listed<P>(
    v: Seq<(Seq<char>, P)>,
    name: Seq<char>,
    params: P,
    other: Seq<char>,
    others: P,
)
    ensures
        lists(with_params(v, name, params), name, params),
        other != name && lists(v, other, others) ==> lists(
            with_params(v, name, params),
            other,
            others,
        ),
    decreases v.len(),
{
    let i = name_index(v, name);
    lemma_name_index_bounds(v, name);
    let w = with_params(v, name, params);
    if i < v.len() {
        assert(w[i] == (name, params));
    } else {
        assert(w[v.len() as int] == (name, params));
    }
    if other != name && lists(v, other, others) {
        let k = choose|k: int| 0 <= k < v.len() && #[trigger] v[k] == (other, others);
        assert(w[k] == (other, others));
    }
}

proof fn lemma_name_index_bounds<P>(v: Seq<(Seq<char>, P)>, name: Seq<char>)
    ensures
        0 <= name_index(v, name) <= v.len(),
        name_index(v, name) < v.len() ==> v[name_index(v, name)].0 == name,
    decreases v.len(),
{
    if v.len() > 0 && v[0].0 != name {
        lemma_name_index_bounds(v.drop_first(), name);
    }
}

proof fn lemma_field_params<P>(
    v: Seq<(Seq<char>, P)>,
    fields: Seq<DocumentField>,
    vector: Seq<char>,
    params: P,
    f: DocumentField,
    other: Seq<char>,
    others: P,
)
    ensures
        fields.contains(f) ==> lists(
            with_field_params(v, fields, vector, params),
            slot_name(f, vector),
            params,
        ),
        (forall|g: DocumentField| other != #[trigger] slot_name(g, vector)) && lists(
            v,
            other,
            others,
        ) ==> lists(with_field_params(v, fields, vector, params), other, others),
    decreases fields.len(),
{
    if fields.len() > 0 {
        let init = fields.drop_last();
        let rest = with_field_params(v, init, vector, params);
        lemma_field_params(v, init, vector, params, f, other, others);
        let name = slot_name(fields.last(), vector);
        params_are_listed(rest, name, params, other, others);
        params_are_listed(rest, name, params, slot_name(f, vector), params);
        if fields.contains(f) && f != fields.last() {
            let k = choose|k: int| 0 <= k < fields.len() && fields[k] == f;
            assert(init[k] == f);
        }
    }
}

/// A collection has a slot for every field of every configured vector. That of a
/// dense vector has its dimensions and its distance; that of any other is kept
/// on disk and counts in how many documents a token is for vectors of tokens.
pub proof fn every_slot_is_laid_out(configs: Seq<VectorConfigInternal>, i: int, f: DocumentField)
    requires
        0 <= i < configs.len(),
        configs[i].slots().contains(f),
        forall|j: int| i < j < configs.len() ==> (#[trigger] configs[j]).name@ != configs[i].name@,
    ensures
        configs[i].vector_type.spec_is_dense() ==> lists(
            dense_slots(configs),
            f.spec_name() + "_"@ + configs[i].name@,
            DenseParams {
                size: configs[i].dimensions->0 as u64,
                distance: configs[i].dense_distance,
            },
        ),
        !configs[i].vector_type.spec_is_dense() ==> lists(
            sparse_slots(configs),
            f.spec_name() + "_"@ + configs[i].name@,
            SparseParams {
                idf: configs[i].vector_type.spec_is_custom_tokenization(),
                on_disk: true,
            },
        ),
    decreases configs.len(),
{
    let init = configs.drop_last();
    let c = configs.last();
    let name = slot_name(f, configs[i].name@);
    let dense = DenseParams {
        size: configs[i].dimensions->0 as u64,
        distance: configs[i].dense_distance,
    };
    let sparse = SparseParams {
        idf: configs[i].vector_type.spec_is_custom_tokenization(),
        on_disk: true,
    };
    let own_dense = DenseParams { size: c.dimensions->0 as u64, distance: c.dense_distance };
    let own_sparse = SparseParams {
        idf: c.vector_type.spec_is_custom_tokenization(),
        on_disk: true,
    };
    if i < init.len() {
        assert(init[i] == configs[i]);
        assert forall|j: int| i < j < init.len() implies (#[trigger] init[j]).name@
            != init[i].name@ by {
            assert(init[j] == configs[j]);
        }
        every_slot_is_laid_out(init, i, f);
        assert(configs[configs.len() - 1].name@ != configs[i].name@);
        assert forall|g: DocumentField| name != #[trigger] slot_name(g, c.name@) by {
            if name == slot_name(g, c.name@) {
                slots_have_names_of_their_own(f, configs[i].name@, g, c.name@);
            }
        }
    }
    lemma_field_params(dense_slots(init), c.slots(), c.name@, own_dense, f, name, dense);
    lemma_field_params(sparse_slots(init), c.slots(), c.name@, own_sparse, f, name, sparse);
}

/// A dense vector without dimensions is named, the first of them; with none such
/// the collection can be laid out.
pub proof fn dense_vectors_need_dimensions(configs: Seq<VectorConfigInternal>, i: int)
    ensures
        undimensioned(configs) is None <==> forall|k: int|
            0 <= k < configs.len() && (#[trigger] configs[k]).vector_type.spec_is_dense()
                ==> configs[k].dimensions is Some,
        0 <= i < configs.len() && configs[i].vector_type.spec_is_dense() && configs[i].dimensions
            is None && (forall|k: int|
            0 <= k < i && (#[trigger] configs[k]).vector_type.spec_is_dense()
                ==> configs[k].dimensions is Some) ==> undimensioned(configs) == Some(
            configs[i].name@,
        ),
    decreases configs.len(),
{
    if configs.len() > 0 {
        let rest = configs.drop_first();
        dense_vectors_need_dimensions(rest, i - 1);
        assert(forall|k: int| 0 <= k < rest.len() ==> #[trigger] rest[k] == configs[k + 1]);
        if undimensioned(configs) is None {
            assert forall|k: int|
                0 <= k < configs.len() && (
                #[trigger] configs[k]).vector_type.spec_is_dense() implies configs[k].dimensions is Some by {
                if k > 0 {
                    assert(rest[k - 1] == configs[k]);
                }
            }
        }
        if 0 < i < configs.len() {
            assert(rest[i - 1] == configs[i]);
        }
    }
}

/// Tags are indexed as keywords, and every declared metadata key is indexed at its
/// value as its type asks.
pub proof fn declared_keys_are_indexed(indexes: Seq<MetadataIndex>, i: int)
    ensures
        lists(payload_indexes(indexes), "tags"@, FieldType::Keyword),
        0 <= i < indexes.len() ==> {
            let path = "metadata."@ + indexes[i].key@ + ".value"@;
            let t = indexes[i].value_type@;
            &&& t == "string"@ ==> lists(payload_indexes(indexes), path, FieldType::Keyword)
            &&& t == "integer"@ ==> lists(payload_indexes(indexes), path, FieldType::Integer)
            &&& t == "float"@ ==> lists(payload_indexes(indexes), path, FieldType::Float)
            &&& t == "boolean"@ ==> lists(payload_indexes(indexes), path, FieldType::Bool)
            &&& t == "datetime"@ ==> lists(payload_indexes(indexes), path, FieldType::Datetime)
        },
    decreases indexes.len(),
{
    lemma_index_types();
    if indexes.len() == 0 {
        assert(payload_indexes(indexes)[0] == ("tags"@, FieldType::Keyword));
    } else {
        let init = indexes.drop_last();
        let rest = payload_indexes(init);
        let all = payload_indexes(indexes);
        declared_keys_are_indexed(init, i);
        assert(forall|k: int| 0 <= k < rest.len() ==> #[trigger] all[k] == rest[k]);
        let k = choose|k: int|
            0 <= k < rest.len() && #[trigger] rest[k] == ("tags"@, FieldType::Keyword);
        assert(all[k] == ("tags"@, FieldType::Keyword));
        if 0 <= i < init.len() {
            assert(init[i] == indexes[i]);
            let path = "metadata."@ + indexes[i].key@ + ".value"@;
            if let Some(t) = index_field_type(indexes[i].value_type@) {
                let k = choose|k: int| 0 <= k < rest.len() && #[trigger] rest[k] == (path, t);
                assert(all[k] == rest[k]);
            }
        } else if i == init.len() {
            let path = "metadata."@ + indexes[i].key@ + ".value"@;
            if let Some(t) = index_field_type(indexes[i].value_type@) {
                assert(all[rest.len() as int] == (path, t));
            }
        }
    }
}

proof fn lemma_index_types()
    ensures
        "string"@ != "integer"@,
        "string"@ != "float"@,
        "string"@ != "boolean"@,
        "string"@ != "datetime"@,
        "integer"@ != "float"@,
        "integer"@ != "boolean"@,
        "integer"@ != "datetime"@,
        "float"@ != "boolean"@,
        "float"@ != "datetime"@,
        "boolean"@ != "datetime"@,
{
    reveal_strlit("string");
    reveal_strlit("integer");
    reveal_strlit("float");
    reveal_strlit("boolean");
    reveal_strlit("datetime");
    assert("integer"@[0] != "boolean"@[0]);
    assert("string"@.len() == 6 && "integer"@.len() == 7 && "float"@.len() == 5 && "boolean"@.len()
        == 7 && "datetime"@.len() == 8);
}

/// An asked-for document is answered with the last point that has its id; what
/// no point has the id of is missing.
pub proof fn documents_are_answered_by_id(found: Seq<Seq<char>>, ids: Seq<Seq<char>>, k: int, i: int)
    requires
        0 <= k < ids.len(),
    ensures
        0 <= i < found.len() && found[i] == point_id(ids[k]) && (forall|j: int|
            i < j < found.len() ==> #[trigger] found[j] != found[i]) ==> answer(found, ids, k)
            == Some(i),
        (forall|j: int| 0 <= j < found.len() ==> #[trigger] found[j] != point_id(ids[k]))
            <==> answer(found, ids, k) is None,
        answer(found, ids, k) is None ==> unanswered(found, ids, ids.len() as int).contains(ids[k]),
{
    lemma_last_position(found, point_id(ids[k]), i);
    if answer(found, ids, k) is None {
        lemma_unanswered(found, ids, ids.len() as int, k);
    }
}

proof fn lemma_last_position(v: Seq<Seq<char>>, t: Seq<char>, i: int)
    ensures
        0 <= i < v.len() && v[i] == t && (forall|j: int| i < j < v.len() ==> #[trigger] v[j] != t)
            ==> last_position(v, t) == Some(i),
        (forall|j: int| 0 <= j < v.len() ==> #[trigger] v[j] != t) <==> last_position(v, t) is None,
    decreases v.len(),
{
    if v.len() > 0 {
        let init = v.drop_last();
        lemma_last_position(init, t, i);
        assert(v[v.len() - 1] == v.last());
        assert(forall|j: int| 0 <= j < init.len() ==> #[trigger] init[j] == v[j]);
        if last_position(v, t) is None {
            assert forall|j: int| 0 <= j < v.len() implies #[trigger] v[j] != t by {
                if j < init.len() {
                    assert(init[j] == v[j]);
                }
            }
        }
    }
}

proof fn lemma_unanswered(found: Seq<Seq<char>>, ids: Seq<Seq<char>>, n: int, k: int)
    requires
        0 <= k < n,
        answer(found, ids, k) is None,
    ensures
        unanswered(found, ids, n).contains(ids[k]),
    decreases n,
{
    let rest = unanswered(found, ids, n - 1);
    let all = unanswered(found, ids, n);
    if k == n - 1 {
        assert(all[rest.len() as int] == ids[k]);
    } else {
        lemma_unanswered(found, ids, n - 1, k);
        let x = choose|x: int| 0 <= x < rest.len() && rest[x] == ids[k];
        assert(all[x] == ids[k]);
    }
}

/// A collection of the users is listed exactly if it is there.
pub proof fn user_collections_are_listed(names: Seq<Seq<char>>, name: Seq<char>)
    ensures
        user_names(names).contains(name) <==> names.contains(name) && "amgix_"@.is_prefix_of(name)
            && !"amgix_sys_"@.is_prefix_of(name),
    decreases names.len(),
{
    reveal_strlit("amgix_");
    reveal_strlit("amgix_sys_");
    reveal_strlit("amgix");
    reveal_strlit("_");
    reveal_strlit("_sys_");
    assert("amgix"@ + "_"@ =~= "amgix_"@);
    assert("amgix"@ + "_sys_"@ =~= "amgix_sys_"@);
    if names.len() > 0 {
        let init = names.drop_last();
        let rest = user_names(init);
        let all = user_names(names);
        user_collections_are_listed(init, name);
        if all.contains(name) {
            let k = choose|k: int| 0 <= k < all.len() && all[k] == name;
            if k < rest.len() {
                assert(rest[k] == name);
                let x = choose|x: int| 0 <= x < init.len() && init[x] == name;
                assert(names[x] == name);
            } else {
                assert(names[names.len() - 1] == name);
            }
        }
        if names.contains(name) && is_user_collection(name) {
            let x = choose|x: int| 0 <= x < names.len() && names[x] == name;
            if x < init.len() {
                assert(init[x] == name);
                let k = choose|k: int| 0 <= k < rest.len() && rest[k] == name;
                assert(all[k] == name);
            } else {
                assert(all[rest.len() as int] == name);
            }
        }
    }
}

} // verus!
