//! The vectors that clients bring along, for documents and for queries.

use vstd::prelude::*;

use crate::common::DocumentField;
use crate::json::{Json, JsonValue};
use crate::models::{CustomDocumentVector, CustomVector, Document, VectorConfigInternal};
use crate::templates::field_slots;
use crate::text;
use crate::text::{decimal_text, same_text, text2, text3, text5};
use crate::vectors::custom_values;
use crate::vectors::custom_values::{read_dense, read_sparse};
use crate::vectors::embedded;
use crate::vectors::embedded::{Embedded, EmbeddedView};

verus! {

/// The word for a kind of vector.
pub open spec fn kind_word(sparse: bool) -> Seq<char> {
    if sparse {
        "sparse"@
    } else {
        "dense"@
    }
}

fn word_of(sparse: bool) -> (r: &'static str)
    ensures
        r@ == kind_word(sparse),
{
    if sparse {
        "sparse"
    } else {
        "dense"
    }
}

/// What a client's JSON stands for as a vector of a configuration: a dense
/// vector has as many numbers as the configuration has dimensions, a sparse one
/// at most as many entries as it keeps.
pub open spec fn custom_of(config: VectorConfigInternal, sparse: bool, v: Json) -> Result<
    EmbeddedView,
    Seq<char>,
> {
    if sparse {
        match custom_values::sparse_of(v) {
            Err(e) => Err("Failed to parse sparse vector: "@ + e),
            Ok(p) => if p.0.len() > config.top_k {
                Err(
                    "Custom sparse vector '"@ + config.name@ + "' has "@ + text::decimal(p.0.len())
                        + (" entries, max allowed: "@ + text::decimal(config.top_k as nat)),
                )
            } else {
                Ok(EmbeddedView::Sparse(p.0, p.1))
            },
        }
    } else {
        match custom_values::dense_of(v) {
            Err(e) => Err("Failed to parse dense vector: "@ + e),
            Ok(bits) => if config.dimensions is Some && bits.len() != config.dimensions->0 {
                Err(
                    "Custom dense vector '"@ + config.name@ + "' has "@ + text::decimal(bits.len())
                        + (" dimensions, expected "@ + text::decimal(
                        config.dimensions->0 as nat,
                    )),
                )
            } else {
                Ok(EmbeddedView::Dense(bits))
            },
        }
    }
}

/// The view of a reading.
pub open spec fn reading(r: Result<Embedded, String>) -> Result<EmbeddedView, Seq<char>> {
    match r {
        Ok(e) => Ok(e@),
        Err(e) => Err(e@),
    }
}

fn read_custom(config: &VectorConfigInternal, sparse: bool, v: &JsonValue) -> (r: Result<
    Embedded,
    String,
>)
    ensures
        reading(r) == custom_of(*config, sparse, v@),
{
    if sparse {
        match read_sparse(v) {
            Err(e) => Err(text2("Failed to parse sparse vector: ", e.as_str())),
            Ok((indices, values)) => {
                if indices.len() > config.top_k as usize {
                    let found = decimal_text(indices.len() as u64);
                    let most = decimal_text(config.top_k as u64);
                    let tail = text2(" entries, max allowed: ", most.as_str());
                    return Err(
                        text5(
                            "Custom sparse vector '",
                            config.name.as_str(),
                            "' has ",
                            found.as_str(),
                            tail.as_str(),
                        ),
                    );
                }
                Ok(Embedded::Sparse(indices, values))
            },
        }
    } else {
        match read_dense(v) {
            Err(e) => Err(text2("Failed to parse dense vector: ", e.as_str())),
            Ok(bits) => {
                if let Some(dims) = config.dimensions {
                    if bits.len() != dims as usize {
                        let found = decimal_text(bits.len() as u64);
                        let wanted = decimal_text(dims as u64);
                        let tail = text2(" dimensions, expected ", wanted.as_str());
                        return Err(
                            text5(
                                "Custom dense vector '",
                                config.name.as_str(),
                                "' has ",
                                found.as_str(),
                                tail.as_str(),
                            ),
                        );
                    }
                }
                Ok(Embedded::Dense(bits))
            },
        }
    }
}

/// The position of the first vector under a name for a field, or the number of
/// vectors.
pub open spec fn custom_index(
    v: Seq<CustomDocumentVector>,
    name: Seq<char>,
    field: DocumentField,
) -> int
    decreases v.len(),
{
    if v.len() == 0 || (v[0].vector_name@ == name && v[0].field == field) {
        0
    } else {
        1 + custom_index(v.drop_first(), name, field)
    }
}

fn find_custom(v: &Vec<CustomDocumentVector>, name: &str, field: DocumentField) -> (r: usize)
    ensures
        r == custom_index(v@, name@, field),
        r <= v@.len(),
{
    let mut i: usize = 0;
    assert(v@.skip(0) =~= v@);
    while i < v.len()
        invariant
            i <= v@.len(),
            custom_index(v@, name@, field) == i + custom_index(v@.skip(i as int), name@, field),
        decreases v.len() - i,
    {
        assert(v@.skip(i as int)[0] == v@[i as int]);
        assert(v@.skip(i as int).drop_first() =~= v@.skip(i as int + 1));
        if same_text(v[i].vector_name.as_str(), name) && v[i].field == field {
            return i;
        }
        i += 1;
    }
    i
}

/// What a document brings along for a field.
pub open spec fn field_reading(
    config: VectorConfigInternal,
    sparse: bool,
    customs: Seq<CustomDocumentVector>,
    field: DocumentField,
) -> Result<EmbeddedView, Seq<char>> {
    let i = custom_index(customs, config.name@, field);
    if i < customs.len() {
        custom_of(config, sparse, customs[i].vector@)
    } else {
        Err(
            "Custom "@ + kind_word(sparse) + " vector '"@ + config.name@ + ("' for field '"@
                + field.spec_name() + "' not provided"@),
        )
    }
}

fn read_field(
    config: &VectorConfigInternal,
    sparse: bool,
    customs: &Vec<CustomDocumentVector>,
    field: DocumentField,
) -> (r: Result<Embedded, String>)
    ensures
        reading(r) == field_reading(*config, sparse, customs@, field),
{
    let i = find_custom(customs, config.name.as_str(), field);
    if i < customs.len() {
        return read_custom(config, sparse, &customs[i].vector);
    }
    let tail = text3("' for field '", field.name(), "' not provided");
    Err(
        text5("Custom ", word_of(sparse), " vector '", config.name.as_str(), tail.as_str()),
    )
}

/// What a document brings along for fields, up to the first that fails.
pub open spec fn fields_reading(
    config: VectorConfigInternal,
    sparse: bool,
    customs: Seq<CustomDocumentVector>,
    fields: Seq<DocumentField>,
) -> Result<Seq<EmbeddedView>, Seq<char>>
    decreases fields.len(),
{
    if fields.len() == 0 {
        Ok(Seq::empty())
    } else {
        match fields_reading(config, sparse, customs, fields.drop_last()) {
            Err(e) => Err(e),
            Ok(rest) => match field_reading(config, sparse, customs, fields.last()) {
                Ok(e) => Ok(rest.push(e)),
                Err(e) => Err(e),
            },
        }
    }
}

proof fn lemma_fields_fail(
    config: VectorConfigInternal,
    sparse: bool,
    customs: Seq<CustomDocumentVector>,
    fields: Seq<DocumentField>,
    n: int,
)
    requires
        0 <= n <= fields.len(),
        fields_reading(config, sparse, customs, fields.take(n)) is Err,
    ensures
        fields_reading(config, sparse, customs, fields) == fields_reading(
            config,
            sparse,
            customs,
            fields.take(n),
        ),
    decreases fields.len(),
{
    if n < fields.len() {
        assert(fields.drop_last().take(n) =~= fields.take(n));
        lemma_fields_fail(config, sparse, customs, fields.drop_last(), n);
    } else {
        assert(fields.take(n) =~= fields);
    }
}

/// What a document brings along for the fields of a vector.
pub open spec fn document_reading(
    config: VectorConfigInternal,
    sparse: bool,
    document: Document,
) -> Result<Seq<EmbeddedView>, Seq<char>> {
    match document.custom_vectors {
        None => Err(
            "Custom "@ + kind_word(sparse) + " vector '"@ + config.name@
                + "' requires custom vectors but document has none"@,
        ),
        Some(customs) => fields_reading(
            config,
            sparse,
            customs@,
            config.slots(),
        ),
    }
}

/// The view of the readings of a document.
pub open spec fn readings(r: Result<Vec<Embedded>, String>) -> Result<
    Seq<EmbeddedView>,
    Seq<char>,
> {
    match r {
        Ok(v) => Ok(embedded::embedded_views(v@)),
        Err(e) => Err(e@),
    }
}

fn read_document(config: &VectorConfigInternal, sparse: bool, document: &Document) -> (r: Result<
    Vec<Embedded>,
    String,
>)
    ensures
        readings(r) == document_reading(*config, sparse, *document),
{
    let customs = match &document.custom_vectors {
        Some(customs) => customs,
        None => {
            return Err(
                text5(
                    "Custom ",
                    word_of(sparse),
                    " vector '",
                    config.name.as_str(),
                    "' requires custom vectors but document has none",
                ),
            );
        },
    };
    let mut out: Vec<Embedded> = Vec::new();
    assert(embedded::embedded_views(out@) =~= Seq::empty());
    let fields = field_slots(config);
    let mut i: usize = 0;
    assert(fields@.take(0) =~= Seq::empty());
    while i < fields.len()
        invariant
            i <= fields@.len(),
            document.custom_vectors == Some(*customs),
            fields@ == config.slots(),
            fields_reading(*config, sparse, customs@, fields@.take(i as int)) == Ok::<
                Seq<EmbeddedView>,
                Seq<char>,
            >(embedded::embedded_views(out@)),
        decreases fields.len() - i,
    {
        proof {
            let next = fields@.take(i as int + 1);
            assert(next.drop_last() =~= fields@.take(i as int));
            assert(next.last() == fields@[i as int]);
        }
        match read_field(config, sparse, customs, fields[i]) {
            Ok(e) => {
                let ghost before = embedded::embedded_views(out@);
                out.push(e);
                assert(embedded::embedded_views(out@) =~= before.push(e@));
            },
            Err(e) => {
                proof {
                    lemma_fields_fail(*config, sparse, customs@, fields@, i as int + 1);
                }
                return Err(e);
            },
        }
        i += 1;
    }
    assert(fields@.take(fields@.len() as int) =~= fields@);
    Ok(out)
}

/// What documents bring along, up to the first that fails.
pub open spec fn documents_reading(
    config: VectorConfigInternal,
    sparse: bool,
    documents: Seq<Document>,
) -> Result<Seq<Seq<EmbeddedView>>, Seq<char>>
    decreases documents.len(),
{
    if documents.len() == 0 {
        Ok(Seq::empty())
    } else {
        match documents_reading(config, sparse, documents.drop_last()) {
            Err(e) => Err(e),
            Ok(rest) => match document_reading(config, sparse, documents.last()) {
                Ok(e) => Ok(rest.push(e)),
                Err(e) => Err(e),
            },
        }
    }
}

proof fn lemma_documents_fail(
    config: VectorConfigInternal,
    sparse: bool,
    documents: Seq<Document>,
    n: int,
)
    requires
        0 <= n <= documents.len(),
        documents_reading(config, sparse, documents.take(n)) is Err,
    ensures
        documents_reading(config, sparse, documents) == documents_reading(
            config,
            sparse,
            documents.take(n),
        ),
    decreases documents.len(),
{
    if n < documents.len() {
        assert(documents.drop_last().take(n) =~= documents.take(n));
        lemma_documents_fail(config, sparse, documents.drop_last(), n);
    } else {
        assert(documents.take(n) =~= documents);
    }
}

/// What lists of vectors hold.
pub open spec fn batch_views(v: Seq<Vec<Embedded>>) -> Seq<Seq<EmbeddedView>> {
    Seq::new(v.len(), |i: int| embedded::embedded_views(v[i]@))
}

/// The view of the readings of documents.
pub open spec fn batch_reading(r: Result<Vec<Vec<Embedded>>, String>) -> Result<
    Seq<Seq<EmbeddedView>>,
    Seq<char>,
> {
    match r {
        Ok(v) => Ok(batch_views(v@)),
        Err(e) => Err(e@),
    }
}

fn read_documents(config: &VectorConfigInternal, sparse: bool, documents: &Vec<Document>) -> (r:
    Result<Vec<Vec<Embedded>>, String>)
    ensures
        batch_reading(r) == documents_reading(*config, sparse, documents@),
{
    let mut out: Vec<Vec<Embedded>> = Vec::new();
    let mut i: usize = 0;
    assert(batch_views(out@) =~= Seq::empty());
    assert(documents@.take(0) =~= Seq::empty());
    while i < documents.len()
        invariant
            i <= documents@.len(),
            documents_reading(*config, sparse, documents@.take(i as int)) == Ok::<
                Seq<Seq<EmbeddedView>>,
                Seq<char>,
            >(batch_views(out@)),
        decreases documents.len() - i,
    {
        proof {
            let next = documents@.take(i as int + 1);
            assert(next.drop_last() =~= documents@.take(i as int));
            assert(next.last() == documents@[i as int]);
        }
        match read_document(config, sparse, &documents[i]) {
            Ok(v) => {
                let ghost before = batch_views(out@);
                out.push(v);
                assert(batch_views(out@) =~= before.push(embedded::embedded_views(v@)));
            },
            Err(e) => {
                proof {
                    lemma_documents_fail(*config, sparse, documents@, i as int + 1);
                }
                return Err(e);
            },
        }
        i += 1;
    }
    assert(documents@.take(documents@.len() as int) =~= documents@);
    Ok(out)
}

/// The position of the first of a query's vectors under a name, or the number
/// of vectors.
pub open spec fn query_custom_index(v: Seq<CustomVector>, name: Seq<char>) -> int
    decreases v.len(),
{
    if v.len() == 0 || v[0].vector_name@ == name {
        0
    } else {
        1 + query_custom_index(v.drop_first(), name)
    }
}

/// What a query brings along.
pub open spec fn query_reading(
    config: VectorConfigInternal,
    sparse: bool,
    customs: Seq<CustomVector>,
) -> Result<EmbeddedView, Seq<char>> {
    let i = query_custom_index(customs, config.name@);
    if i < customs.len() {
        custom_of(config, sparse, customs[i].vector@)
    } else {
        Err(
            "Custom "@ + kind_word(sparse) + " vector '"@ + config.name@
                + "' not provided in query"@,
        )
    }
}

fn read_query(config: &VectorConfigInternal, sparse: bool, customs: &Vec<CustomVector>) -> (r:
    Result<Embedded, String>)
    ensures
        reading(r) == query_reading(*config, sparse, customs@),
{
    let mut i: usize = 0;
    assert(customs@.skip(0) =~= customs@);
    while i < customs.len()
        invariant
            i <= customs@.len(),
            query_custom_index(customs@, config.name@) == i + query_custom_index(
                customs@.skip(i as int),
                config.name@,
            ),
        decreases customs.len() - i,
    {
        assert(customs@.skip(i as int)[0] == customs@[i as int]);
        assert(customs@.skip(i as int).drop_first() =~= customs@.skip(i as int + 1));
        if same_text(customs[i].vector_name.as_str(), config.name.as_str()) {
            return read_custom(config, sparse, &customs[i].vector);
        }
        i += 1;
    }
    Err(
        text5(
            "Custom ",
            word_of(sparse),
            " vector '",
            config.name.as_str(),
            "' not provided in query",
        ),
    )
}

/// Dense vectors that clients bring along.
pub struct CustomDenseVector;

impl CustomDenseVector {
    /// Reads the vectors of documents: for each document, one for each of the
    /// configuration's fields.
    pub fn extract_for_documents(config: &VectorConfigInternal, documents: &Vec<Document>) -> (r:
        Result<Vec<Vec<Embedded>>, String>)
        ensures
            batch_reading(r) == documents_reading(*config, false, documents@),
    {
        read_documents(config, false, documents)
    }

    /// Reads the vector of a query.
    pub fn extract_for_query(config: &VectorConfigInternal, customs: &Vec<CustomVector>) -> (r:
        Result<Embedded, String>)
        ensures
            reading(r) == query_reading(*config, false, customs@),
    {
        read_query(config, false, customs)
    }
}

/// Sparse vectors that clients bring along.
pub struct CustomSparseVector;

impl CustomSparseVector {
    /// Reads the vectors of documents: for each document, one for each of the
    /// configuration's fields.
    pub fn extract_for_documents(config: &VectorConfigInternal, documents: &Vec<Document>) -> (r:
        Result<Vec<Vec<Embedded>>, String>)
        ensures
            batch_reading(r) == documents_reading(*config, true, documents@),
    {
        read_documents(config, true, documents)
    }

    /// Reads the vector of a query.
    pub fn extract_for_query(config: &VectorConfigInternal, customs: &Vec<CustomVector>) -> (r:
        Result<Embedded, String>)
        ensures
            reading(r) == query_reading(*config, true, customs@),
    {
        read_query(config, true, customs)
    }
}

/// Whether a vector fits its configuration: a dense one has as many numbers as
/// there are dimensions, a sparse one at most as many entries as are kept.
pub open spec fn fits(config: VectorConfigInternal, e: EmbeddedView) -> bool {
    match e {
        EmbeddedView::Dense(v) => config.dimensions is Some ==> v.len() == config.dimensions->0,
        EmbeddedView::Sparse(i, v) => i.len() == v.len() && i.len() <= config.top_k,
    }
}

proof fn lemma_pairs_match(v: Seq<Json>)
    ensures
        custom_values::pairs_of(v) matches Ok(p) ==> p.0.len() == p.1.len() == v.len(),
    decreases v.len(),
{
    if v.len() > 0 {
        lemma_pairs_match(v.drop_last());
    }
}

/// What is read of a client's vector fits the configuration.
pub proof fn accepted_custom_vectors_fit(config: VectorConfigInternal, sparse: bool, v: Json)
    ensures
        custom_of(config, sparse, v) matches Ok(e) ==> fits(config, e) && (sparse
            <==> e is Sparse),
{
    if let Json::Array(a) = v {
        lemma_pairs_match(a);
    }
}

/// A custom vector is taken as it is given exactly if it can be read and fits: a
/// dense one has the dimensions that are set, a sparse one no more entries than
/// are kept.
pub proof fn fitting_custom_vectors_are_taken(config: VectorConfigInternal, v: Json)
    ensures
        custom_values::dense_of(v) matches Ok(bits) ==> (if config.dimensions matches Some(n)
            && bits.len() != n {
            custom_of(config, false, v) is Err
        } else {
            custom_of(config, false, v) == Ok::<EmbeddedView, Seq<char>>(EmbeddedView::Dense(bits))
        }),
        custom_values::dense_of(v) is Err ==> custom_of(config, false, v) is Err,
        custom_values::sparse_of(v) matches Ok(p) ==> (if p.0.len() > config.top_k {
            custom_of(config, true, v) is Err
        } else {
            custom_of(config, true, v) == Ok::<EmbeddedView, Seq<char>>(
                EmbeddedView::Sparse(p.0, p.1),
            )
        }),
        custom_values::sparse_of(v) is Err ==> custom_of(config, true, v) is Err,
{
}

/// The custom vector of a field is the first of the name and the field; without
/// one the document is refused.
pub proof fn custom_vectors_are_found_by_name_and_field(
    config: VectorConfigInternal,
    sparse: bool,
    customs: Seq<CustomDocumentVector>,
    field: DocumentField,
    i: int,
)
    ensures
        0 <= i < customs.len() && customs[i].vector_name@ == config.name@ && customs[i].field
            == field && (forall|k: int|
            0 <= k < i ==> (#[trigger] customs[k]).vector_name@ != config.name@ || customs[k].field
                != field) ==> field_reading(config, sparse, customs, field) == custom_of(
            config,
            sparse,
            customs[i].vector@,
        ),
        (forall|k: int|
            0 <= k < customs.len() ==> (#[trigger] customs[k]).vector_name@ != config.name@
                || customs[k].field != field) ==> field_reading(config, sparse, customs, field)
            is Err,
{
    lemma_custom_index(customs, config.name@, field, i);
}

proof fn lemma_custom_index(
    v: Seq<CustomDocumentVector>,
    name: Seq<char>,
    field: DocumentField,
    i: int,
)
    ensures
        0 <= i < v.len() && v[i].vector_name@ == name && v[i].field == field && (forall|k: int|
            0 <= k < i ==> (#[trigger] v[k]).vector_name@ != name || v[k].field != field)
            ==> custom_index(v, name, field) == i,
        (forall|k: int|
            0 <= k < v.len() ==> (#[trigger] v[k]).vector_name@ != name || v[k].field != field)
            ==> custom_index(v, name, field) == v.len(),
    decreases v.len(),
{
    if v.len() > 0 && !(v[0].vector_name@ == name && v[0].field == field) {
        let rest = v.drop_first();
        assert(forall|k: int| 0 <= k < rest.len() ==> #[trigger] rest[k] == v[k + 1]);
        lemma_custom_index(rest, name, field, i - 1);
        if 0 < i < v.len() {
            assert(rest[i - 1] == v[i]);
        }
    }
}

/// The custom vectors of a document are read field by field, all of them or none;
/// a document without custom vectors is refused.
pub proof fn custom_vectors_are_read_field_by_field(
    config: VectorConfigInternal,
    sparse: bool,
    document: Document,
    fields: Seq<DocumentField>,
    one: DocumentField,
)
    ensures
        document.custom_vectors is None ==> document_reading(config, sparse, document) is Err,
        document.custom_vectors matches Some(customs) ==> document_reading(config, sparse, document)
            == fields_reading(config, sparse, customs@, config.slots()),
        document.custom_vectors matches Some(customs) ==> (match (
            fields_reading(config, sparse, customs@, fields),
            field_reading(config, sparse, customs@, one),
        ) {
            (Ok(rest), Ok(e)) => fields_reading(config, sparse, customs@, fields.push(one)) == Ok::<
                Seq<EmbeddedView>,
                Seq<char>,
            >(rest.push(e)),
            _ => fields_reading(config, sparse, customs@, fields.push(one)) is Err,
        }),
{
    assert(fields.push(one).drop_last() =~= fields);
}

/// Documents are read one by one, all of them or none.
pub proof fn custom_documents_are_read_one_by_one(
    config: VectorConfigInternal,
    sparse: bool,
    documents: Seq<Document>,
    one: Document,
)
    ensures
        match (
            documents_reading(config, sparse, documents),
            document_reading(config, sparse, one),
        ) {
            (Ok(rest), Ok(e)) => documents_reading(config, sparse, documents.push(one)) == Ok::<
                Seq<Seq<EmbeddedView>>,
                Seq<char>,
            >(rest.push(e)),
            _ => documents_reading(config, sparse, documents.push(one)) is Err,
        },
{
    assert(documents.push(one).drop_last() =~= documents);
}

/// The custom vector of a query is the first of the name; without one the query is
/// refused.
pub proof fn custom_query_vectors_are_found_by_name(
    config: VectorConfigInternal,
    sparse: bool,
    customs: Seq<CustomVector>,
    i: int,
)
    ensures
        0 <= i < customs.len() && customs[i].vector_name@ == config.name@ && (forall|k: int|
            0 <= k < i ==> (#[trigger] customs[k]).vector_name@ != config.name@) ==> query_reading(
            config,
            sparse,
            customs,
        ) == custom_of(config, sparse, customs[i].vector@),
        (forall|k: int|
            0 <= k < customs.len() ==> (#[trigger] customs[k]).vector_name@ != config.name@)
            ==> query_reading(config, sparse, customs) is Err,
{
    lemma_query_custom_index(customs, config.name@, i);
}

proof fn lemma_query_custom_index(v: Seq<CustomVector>, name: Seq<char>, i: int)
    ensures
        0 <= i < v.len() && v[i].vector_name@ == name && (forall|k: int|
            0 <= k < i ==> (#[trigger] v[k]).vector_name@ != name) ==> query_custom_index(v, name)
            == i,
        (forall|k: int| 0 <= k < v.len() ==> (#[trigger] v[k]).vector_name@ != name)
            ==> query_custom_index(v, name) == v.len(),
    decreases v.len(),
{
    if v.len() > 0 && v[0].vector_name@ != name {
        let rest = v.drop_first();
        assert(forall|k: int| 0 <= k < rest.len() ==> #[trigger] rest[k] == v[k + 1]);
        lemma_query_custom_index(rest, name, i - 1);
        if 0 < i < v.len() {
            assert(rest[i - 1] == v[i]);
        }
    }
}

} // verus!
