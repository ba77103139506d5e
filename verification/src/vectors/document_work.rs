//! Making the vectors of documents: what is to be embedded, and what becomes of
//! the embeddings.

use vstd::prelude::*;

use crate::common::{DocumentField, VectorType};
use crate::encoder;
use crate::json::Double;
use crate::models::{Document, VectorConfigInternal, VectorData};
use crate::qdrant;
use crate::qdrant::{set_params, slot_name_text};
use crate::templates;
use crate::templates::{field_slots, render_doc_template};
use crate::text;
use crate::text::{debug_format, decimal_text, joined, same_text, text2, text3, text5};
use crate::vectors::custom;
use crate::vectors::custom::{CustomDenseVector, CustomSparseVector};
use crate::vectors::embedded;
use crate::vectors::embedded::{vector_data, Embedded, EmbeddedView};

verus! {

/// What embedding gives back: vectors of one kind, in the order of the texts.
#[derive(Debug, PartialEq, Eq)]
pub enum RoutedEmbed {
    Dense(Vec<Vec<u32>>),
    Sparse(Vec<(Vec<u32>, Vec<u32>)>),
}

/// The vectors that embedding gives back.
pub open spec fn routed_views(r: RoutedEmbed) -> Seq<EmbeddedView> {
    match r {
        RoutedEmbed::Dense(v) => Seq::new(v@.len(), |i: int| EmbeddedView::Dense(v@[i]@)),
        RoutedEmbed::Sparse(v) => Seq::new(
            v@.len(),
            |i: int| EmbeddedView::Sparse(v@[i].0@, v@[i].1@),
        ),
    }
}

/// Takes the vectors out of what embedding gives back.
pub fn routed_vectors(r: RoutedEmbed) -> (out: Vec<Embedded>)
    ensures
        embedded::embedded_views(out@) == routed_views(r),
{
    let ghost all = routed_views(r);
    let mut out: Vec<Embedded> = Vec::new();
    match r {
        RoutedEmbed::Dense(v) => {
            for d in it: v
                invariant
                    it.seq() == v@,
                    r == RoutedEmbed::Dense(v),
                    all == routed_views(r),
                    embedded::embedded_views(out@) == all.take(it.index() as int),
            {
                let ghost before = embedded::embedded_views(out@);
                out.push(Embedded::Dense(d));
                proof {
                    assert(embedded::embedded_views(out@) =~= before.push(EmbeddedView::Dense(d@)));
                    assert(all.take(it.index() as int + 1) =~= all.take(it.index() as int).push(
                        all[it.index() as int],
                    ));
                }
            }
        },
        RoutedEmbed::Sparse(v) => {
            for p in it: v
                invariant
                    it.seq() == v@,
                    r == RoutedEmbed::Sparse(v),
                    all == routed_views(r),
                    embedded::embedded_views(out@) == all.take(it.index() as int),
            {
                let ghost before = embedded::embedded_views(out@);
                let (i, w) = p;
                out.push(Embedded::Sparse(i, w));
                proof {
                    assert(embedded::embedded_views(out@) =~= before.push(
                        EmbeddedView::Sparse(i@, w@),
                    ));
                    assert(all.take(it.index() as int + 1) =~= all.take(it.index() as int).push(
                        all[it.index() as int],
                    ));
                }
            }
        },
    }
    assert(all.take(all.len() as int) =~= all);
    out
}

/// The text of a document's field, empty where it has none.
pub open spec fn field_value(d: Document, field: DocumentField) -> Seq<char> {
    match encoder::field_text(d, field) {
        Some(t) => t,
        None => Seq::empty(),
    }
}

/// Gives the text of a document's field.
pub fn get_field_text(d: &Document, field: DocumentField) -> (r: String)
    ensures
        r@ == field_value(*d, field),
{
    let t = match field {
        DocumentField::Name => &d.name,
        DocumentField::Description => &d.description,
        DocumentField::Content => &d.content,
        DocumentField::Template => &None,
    };
    match t {
        Some(t) => t.as_str().to_owned(),
        None => {
            let empty = String::new();
            assert(empty@ =~= Seq::empty());
            empty
        },
    }
}

/// The texts of documents in the fields, document by document.
pub open spec fn texts_of(documents: Seq<Document>, fields: Seq<DocumentField>) -> Seq<Seq<char>>
    decreases documents.len(),
{
    if documents.len() == 0 {
        Seq::empty()
    } else {
        texts_of(documents.drop_last(), fields) + Seq::new(
            fields.len(),
            |k: int| field_value(documents.last(), fields[k]),
        )
    }
}

fn gather_texts(documents: &Vec<Document>, fields: &Vec<DocumentField>) -> (r: Vec<String>)
    ensures
        text::views(r@) == texts_of(documents@, fields@),
{
    let mut out: Vec<String> = Vec::new();
    let mut i: usize = 0;
    assert(documents@.take(0) =~= Seq::empty());
    assert(text::views(out@) =~= Seq::empty());
    while i < documents.len()
        invariant
            i <= documents@.len(),
            text::views(out@) == texts_of(documents@.take(i as int), fields@),
        decreases documents.len() - i,
    {
        let ghost start = text::views(out@);
        let ghost row = Seq::new(
            fields@.len(),
            |k: int| field_value(documents@[i as int], fields@[k]),
        );
        let mut k: usize = 0;
        assert(start + row.take(0) =~= start);
        while k < fields.len()
            invariant
                k <= fields@.len(),
                i < documents@.len(),
                row == Seq::new(
                    fields@.len(),
                    |k: int| field_value(documents@[i as int], fields@[k]),
                ),
                text::views(out@) == start + row.take(k as int),
            decreases fields.len() - k,
        {
            let ghost before = text::views(out@);
            let t = get_field_text(&documents[i], fields[k]);
            out.push(t);
            proof {
                assert(text::views(out@) =~= before.push(t@));
                assert(row.take(k as int + 1) =~= row.take(k as int).push(row[k as int]));
                assert(text::views(out@) =~= start + row.take(k as int + 1));
            }
            k += 1;
        }
        proof {
            let next = documents@.take(i as int + 1);
            assert(next.drop_last() =~= documents@.take(i as int));
            assert(next.last() == documents@[i as int]);
            assert(row.take(row.len() as int) =~= row);
        }
        i += 1;
    }
    assert(documents@.take(documents@.len() as int) =~= documents@);
    out
}

/// The texts of documents by a template, up to the first that has none.
pub open spec fn rendered_texts(template: Seq<char>, documents: Seq<Document>) -> Result<
    Seq<Seq<char>>,
    Seq<char>,
>
    decreases documents.len(),
{
    if documents.len() == 0 {
        Ok(Seq::empty())
    } else {
        match rendered_texts(template, documents.drop_last()) {
            Err(e) => Err(e),
            Ok(rest) => match templates::doc_text(template, documents.last()) {
                Ok(t) => Ok(rest.push(t)),
                Err(e) => Err(e),
            },
        }
    }
}

/// The texts that a vector is made of, document by document: those of its
/// fields, or one by its template.
pub open spec fn slot_texts(config: VectorConfigInternal, documents: Seq<Document>) -> Result<
    Seq<Seq<char>>,
    Seq<char>,
> {
    match config.doc_template {
        Some(t) => rendered_texts(t@, documents),
        None => Ok(texts_of(documents, config.slots())),
    }
}

proof fn lemma_rendering_fails(template: Seq<char>, documents: Seq<Document>, n: int)
    requires
        0 <= n <= documents.len(),
        rendered_texts(template, documents.take(n)) is Err,
    ensures
        rendered_texts(template, documents) == rendered_texts(template, documents.take(n)),
    decreases documents.len(),
{
    if n < documents.len() {
        assert(documents.drop_last().take(n) =~= documents.take(n));
        lemma_rendering_fails(template, documents.drop_last(), n);
    } else {
        assert(documents.take(n) =~= documents);
    }
}

fn render_texts(template: &str, documents: &Vec<Document>) -> (r: Result<Vec<String>, String>)
    ensures
        match r {
            Ok(v) => rendered_texts(template@, documents@) == Ok::<Seq<Seq<char>>, Seq<char>>(
                text::views(v@),
            ),
            Err(e) => rendered_texts(template@, documents@) == Err::<Seq<Seq<char>>, Seq<char>>(e@),
        },
{
    let mut out: Vec<String> = Vec::new();
    let mut i: usize = 0;
    assert(text::views(out@) =~= Seq::empty());
    assert(documents@.take(0) =~= Seq::empty());
    while i < documents.len()
        invariant
            i <= documents@.len(),
            rendered_texts(template@, documents@.take(i as int)) == Ok::<
                Seq<Seq<char>>,
                Seq<char>,
            >(text::views(out@)),
        decreases documents.len() - i,
    {
        proof {
            let next = documents@.take(i as int + 1);
            assert(next.drop_last() =~= documents@.take(i as int));
            assert(next.last() == documents@[i as int]);
        }
        match render_doc_template(template, &documents[i]) {
            Ok(t) => {
                let ghost before = text::views(out@);
                out.push(t);
                assert(text::views(out@) =~= before.push(t@));
            },
            Err(e) => {
                proof {
                    lemma_rendering_fails(template@, documents@, i as int + 1);
                }
                return Err(e);
            },
        }
        i += 1;
    }
    assert(documents@.take(i as int) =~= documents@);
    Ok(out)
}

fn gather_slot_texts(
    config: &VectorConfigInternal,
    documents: &Vec<Document>,
    fields: &Vec<DocumentField>,
) -> (r: Result<Vec<String>, String>)
    requires
        fields@ == config.slots(),
    ensures
        match r {
            Ok(v) => slot_texts(*config, documents@) == Ok::<Seq<Seq<char>>, Seq<char>>(
                text::views(v@),
            ),
            Err(e) => slot_texts(*config, documents@) == Err::<Seq<Seq<char>>, Seq<char>>(e@),
        },
{
    match &config.doc_template {
        Some(t) => render_texts(t.as_str(), documents),
        None => Ok(gather_texts(documents, fields)),
    }
}

/// The name of a type of vector in the program.
pub open spec fn type_word(t: VectorType) -> Seq<char> {
    match t {
        VectorType::DenseModel => "DenseModel"@,
        VectorType::SparseModel => "SparseModel"@,
        VectorType::FullText => "FullText"@,
        VectorType::Trigrams => "Trigrams"@,
        VectorType::Whitespace => "Whitespace"@,
        VectorType::Wmtr => "Wmtr"@,
        VectorType::Keyword => "Keyword"@,
        VectorType::DenseCustom => "DenseCustom"@,
        VectorType::SparseCustom => "SparseCustom"@,
        VectorType::Noop => "Noop"@,
    }
}

/// Gives the name of a type of vector in the program.
pub fn type_word_text(t: VectorType) -> (r: &'static str)
    ensures
        r@ == type_word(t),
{
    match t {
        VectorType::DenseModel => "DenseModel",
        VectorType::SparseModel => "SparseModel",
        VectorType::FullText => "FullText",
        VectorType::Trigrams => "Trigrams",
        VectorType::Whitespace => "Whitespace",
        VectorType::Wmtr => "Wmtr",
        VectorType::Keyword => "Keyword",
        VectorType::DenseCustom => "DenseCustom",
        VectorType::SparseCustom => "SparseCustom",
        VectorType::Noop => "Noop",
    }
}

/// The average lengths that the statistics have, slot by slot.
pub open spec fn average_table(t: Option<Vec<(String, Double)>>) -> Option<
    Seq<(Seq<char>, Double)>,
> {
    match t {
        Some(v) => Some(qdrant::named(v@)),
        None => None,
    }
}

/// The average length for a field.
pub open spec fn field_average(
    config: VectorConfigInternal,
    table: Option<Seq<(Seq<char>, Double)>>,
    field: DocumentField,
) -> Result<Double, Seq<char>> {
    let slot = qdrant::slot_name(field, config.name@);
    match table {
        None => Err(
            "avgdl_dict required for '"@ + config.name@ + "' ("@ + type_word(config.vector_type)
                + ")"@,
        ),
        Some(t) => {
            let i = qdrant::name_index(t, slot);
            if i < t.len() {
                Ok(t[i].1)
            } else {
                Err(
                    "Missing avgdl_dict entry '"@ + slot + "' for vector '"@ + config.name@ + "'"@,
                )
            }
        },
    }
}

fn find_average(
    config: &VectorConfigInternal,
    table: &Option<Vec<(String, Double)>>,
    field: DocumentField,
) -> (r: Result<Double, String>)
    ensures
        match r {
            Ok(d) => field_average(*config, average_table(*table), field) == Ok::<
                Double,
                Seq<char>,
            >(d),
            Err(e) => field_average(*config, average_table(*table), field) == Err::<
                Double,
                Seq<char>,
            >(e@),
        },
{
    let t = match table {
        Some(t) => t,
        None => {
            return Err(
                text5(
                    "avgdl_dict required for '",
                    config.name.as_str(),
                    "' (",
                    type_word_text(config.vector_type),
                    ")",
                ),
            );
        },
    };
    let slot = slot_name_text(field, config.name.as_str());
    let ghost all = qdrant::named(t@);
    let mut i: usize = 0;
    assert(all.skip(0) =~= all);
    while i < t.len()
        invariant
            i <= t@.len(),
            all == qdrant::named(t@),
            *table == Some(*t),
            slot@ == qdrant::slot_name(field, config.name@),
            qdrant::name_index(all, slot@) == i + qdrant::name_index(all.skip(i as int), slot@),
        decreases t.len() - i,
    {
        assert(all.skip(i as int)[0] == (t@[i as int].0@, t@[i as int].1));
        assert(all.skip(i as int).drop_first() =~= all.skip(i as int + 1));
        if same_text(t[i].0.as_str(), slot.as_str()) {
            return Ok(t[i].1);
        }
        i += 1;
    }
    Err(
        text5(
            "Missing avgdl_dict entry '",
            slot.as_str(),
            "' for vector '",
            config.name.as_str(),
            "'",
        ),
    )
}

/// The average lengths for fields, up to the first that has none.
pub open spec fn field_averages(
    config: VectorConfigInternal,
    table: Option<Seq<(Seq<char>, Double)>>,
    fields: Seq<DocumentField>,
) -> Result<Seq<Double>, Seq<char>>
    decreases fields.len(),
{
    if fields.len() == 0 {
        Ok(Seq::empty())
    } else {
        match field_averages(config, table, fields.drop_last()) {
            Err(e) => Err(e),
            Ok(rest) => match field_average(config, table, fields.last()) {
                Ok(d) => Ok(rest.push(d)),
                Err(e) => Err(e),
            },
        }
    }
}

proof fn lemma_averages_fail(
    config: VectorConfigInternal,
    table: Option<Seq<(Seq<char>, Double)>>,
    fields: Seq<DocumentField>,
    n: int,
)
    requires
        0 <= n <= fields.len(),
        field_averages(config, table, fields.take(n)) is Err,
    ensures
        field_averages(config, table, fields) == field_averages(config, table, fields.take(n)),
    decreases fields.len(),
{
    if n < fields.len() {
        assert(fields.drop_last().take(n) =~= fields.take(n));
        lemma_averages_fail(config, table, fields.drop_last(), n);
    } else {
        assert(fields.take(n) =~= fields);
    }
}

/// A list as often as there are documents.
pub open spec fn repeated(list: Seq<Double>, n: nat) -> Seq<Double>
    decreases n,
{
    if n == 0 {
        Seq::empty()
    } else {
        repeated(list, (n - 1) as nat) + list
    }
}

/// The average lengths for the fields of each document.
pub open spec fn averages_of(
    config: VectorConfigInternal,
    table: Option<Seq<(Seq<char>, Double)>>,
    n: nat,
) -> Result<Seq<Double>, Seq<char>> {
    if n == 0 {
        Ok(Seq::empty())
    } else {
        match field_averages(config, table, config.slots()) {
            Ok(list) => Ok(repeated(list, n)),
            Err(e) => Err(e),
        }
    }
}

fn gather_averages(
    config: &VectorConfigInternal,
    table: &Option<Vec<(String, Double)>>,
    fields: &Vec<DocumentField>,
    n: usize,
) -> (r: Result<Vec<Double>, String>)
    requires
        fields@ == config.slots(),
    ensures
        match r {
            Ok(v) => averages_of(*config, average_table(*table), n as nat) == Ok::<
                Seq<Double>,
                Seq<char>,
            >(v@),
            Err(e) => averages_of(*config, average_table(*table), n as nat) == Err::<
                Seq<Double>,
                Seq<char>,
            >(e@),
        },
{
    let mut out: Vec<Double> = Vec::new();
    assert(out@ =~= Seq::empty());
    if n == 0 {
        return Ok(out);
    }
    let mut list: Vec<Double> = Vec::new();
    let mut k: usize = 0;
    assert(fields@.take(0) =~= Seq::empty());
    assert(list@ =~= Seq::empty());
    while k < fields.len()
        invariant
            k <= fields@.len(),
            n > 0,
            fields@ == config.slots(),
            field_averages(*config, average_table(*table), fields@.take(k as int)) == Ok::<
                Seq<Double>,
                Seq<char>,
            >(list@),
        decreases fields.len() - k,
    {
        proof {
            let next = fields@.take(k as int + 1);
            assert(next.drop_last() =~= fields@.take(k as int));
            assert(next.last() == fields@[k as int]);
        }
        match find_average(config, table, fields[k]) {
            Ok(d) => {
                list.push(d);
            },
            Err(e) => {
                proof {
                    lemma_averages_fail(
                        *config,
                        average_table(*table),
                        fields@,
                        k as int + 1,
                    );
                }
                return Err(e);
            },
        }
        k += 1;
    }
    assert(fields@.take(fields@.len() as int) =~= fields@);
    let mut i: usize = 0;
    while i < n
        invariant
            i <= n,
            out@ == repeated(list@, i as nat),
        decreases n - i,
    {
        let ghost before = out@;
        let mut k: usize = 0;
        assert(before + list@.take(0) =~= before);
        while k < list.len()
            invariant
                k <= list@.len(),
                out@ == before + list@.take(k as int),
            decreases list.len() - k,
        {
            out.push(list[k]);
            k += 1;
            assert(out@ =~= before + list@.take(k as int));
        }
        assert(list@.take(list@.len() as int) =~= list@);
        i += 1;
    }
    Ok(out)
}

/// A vector's documents, document by document: one vector for each field.
pub open spec fn rows_of(flat: Seq<EmbeddedView>, n: int, width: int) -> Seq<Seq<EmbeddedView>> {
    Seq::new(n as nat, |i: int| Seq::new(width as nat, |k: int| flat[i * width + k]))
}

fn split_rows(flat: &Vec<Embedded>, n: usize, width: usize) -> (r: Vec<Vec<Embedded>>)
    requires
        n * width <= flat@.len(),
    ensures
        custom::batch_views(r@) == rows_of(
            embedded::embedded_views(flat@),
            n as int,
            width as int,
        ),
        forall|i: int| 0 <= i < r@.len() ==> (#[trigger] r@[i])@.len() == width,
{
    let ghost all = embedded::embedded_views(flat@);
    let ghost rows = rows_of(all, n as int, width as int);
    let total = flat.len();
    let mut out: Vec<Vec<Embedded>> = Vec::new();
    let mut at: usize = 0;
    let mut i: usize = 0;
    while i < n
        invariant
            i <= n,
            at == i * width,
            n * width <= total,
            total == flat@.len(),
            all == embedded::embedded_views(flat@),
            rows == rows_of(all, n as int, width as int),
            custom::batch_views(out@) == rows.take(i as int),
            forall|j: int| 0 <= j < out@.len() ==> (#[trigger] out@[j])@.len() == width,
        decreases n - i,
    {
        assert((i + 1) * width == i * width + width && (i + 1) * width <= n * width)
            by (nonlinear_arith)
            requires
                i + 1 <= n,
        ;
        let mut row: Vec<Embedded> = Vec::new();
        let mut k: usize = 0;
        while k < width
            invariant
                k <= width,
                i < n,
                at == i * width + k,
                i * width + width <= total,
                total == flat@.len(),
                all == embedded::embedded_views(flat@),
                rows == rows_of(all, n as int, width as int),
                embedded::embedded_views(row@) == rows[i as int].take(k as int),
            decreases width - k,
        {
            let ghost before = embedded::embedded_views(row@);
            row.push(flat[at].duplicate());
            proof {
                assert(rows[i as int][k as int] == all[i * width + k]);
                assert(embedded::embedded_views(row@) =~= before.push(all[at as int]));
                assert(rows[i as int].take(k as int + 1) =~= rows[i as int].take(k as int).push(
                    rows[i as int][k as int],
                ));
            }
            at += 1;
            k += 1;
        }
        let ghost before = custom::batch_views(out@);
        proof {
            assert(rows[i as int].take(width as int) =~= rows[i as int]);
            assert(embedded::embedded_views(row@).len() == row@.len());
        }
        out.push(row);
        proof {
            assert(custom::batch_views(out@) =~= before.push(rows[i as int]));
            assert(rows.take(i as int + 1) =~= rows.take(i as int).push(rows[i as int]));
        }
        i += 1;
    }
    assert(rows.take(n as int) =~= rows);
    out
}

/// The number of tokens of a vector.
pub open spec fn token_length(e: EmbeddedView) -> usize {
    match e {
        EmbeddedView::Dense(v) => v.len() as usize,
        EmbeddedView::Sparse(i, _) => i.len() as usize,
    }
}

/// The numbers of tokens of a document's vectors, slot by slot.
pub open spec fn row_lengths(
    config: VectorConfigInternal,
    fields: Seq<DocumentField>,
    row: Seq<EmbeddedView>,
) -> Seq<(Seq<char>, usize)>
    decreases fields.len(),
{
    if fields.len() == 0 {
        Seq::empty()
    } else {
        qdrant::with_params(
            row_lengths(config, fields.drop_last(), row.drop_last()),
            qdrant::slot_name(fields.last(), config.name@),
            token_length(row.last()),
        )
    }
}

/// Vectors of documents, and how many tokens they have slot by slot.
#[derive(Debug, PartialEq, Eq)]
pub struct Vectorized {
    pub vectors: Vec<Vec<VectorData>>,
    pub token_lengths: Vec<Vec<(String, usize)>>,
}

/// Whether one document has the vectors of a row, and the lengths of those
/// whose tokens count.
pub open spec fn row_placed(
    config: VectorConfigInternal,
    row: Seq<EmbeddedView>,
    vectors: Seq<VectorData>,
    lengths: Seq<(Seq<char>, usize)>,
) -> bool {
    let fields = config.slots();
    &&& vectors.len() == fields.len()
    &&& forall|k: int|
        0 <= k < fields.len() ==> embedded::holds(#[trigger] vectors[k], config, fields[k], row[k])
    &&& lengths == (if config.vector_type.spec_is_dense() {
        Seq::empty()
    } else {
        row_lengths(config, fields, row)
    })
}

/// Whether the documents have the vectors of the rows.
pub open spec fn placed(
    config: VectorConfigInternal,
    rows: Seq<Seq<EmbeddedView>>,
    r: Vectorized,
) -> bool {
    &&& r.vectors@.len() == rows.len()
    &&& r.token_lengths@.len() == rows.len()
    &&& forall|i: int|
        0 <= i < rows.len() ==> row_placed(
            config,
            #[trigger] rows[i],
            r.vectors@[i]@,
            qdrant::named(r.token_lengths@[i]@),
        )
}

fn place_row(config: &VectorConfigInternal, fields: &Vec<DocumentField>, row: Vec<Embedded>) -> (r:
    (Vec<VectorData>, Vec<(String, usize)>))
    requires
        fields@ == config.slots(),
        row@.len() == fields@.len(),
    ensures
        row_placed(*config, embedded::embedded_views(row@), r.0@, qdrant::named(r.1@)),
{
    let ghost all = row@;
    let ghost shown = embedded::embedded_views(row@);
    let counted = config.vector_type.sparse_types_contains();
    let mut vectors: Vec<VectorData> = Vec::new();
    let mut lengths: Vec<(String, usize)> = Vec::new();
    assert(qdrant::named(lengths@) =~= Seq::empty());
    for e in it: row
        invariant
            it.seq() == all,
            shown == embedded::embedded_views(all),
            all.len() == fields@.len(),
            fields@ == config.slots(),
            counted == !config.vector_type.spec_is_dense(),
            vectors@.len() == it.index(),
            forall|k: int|
                0 <= k < it.index() ==> embedded::holds(
                    #[trigger] vectors@[k],
                    *config,
                    fields@[k],
                    shown[k],
                ),
            qdrant::named(lengths@) == (if counted {
                row_lengths(
                    *config,
                    fields@.take(it.index() as int),
                    shown.take(it.index() as int),
                )
            } else {
                Seq::empty()
            }),
    {
        proof {
            let i = it.index() as int;
            assert(shown[i] == e@);
            let fields_now = fields@.take(i + 1);
            let row_now = shown.take(i + 1);
            assert(fields_now.drop_last() =~= fields@.take(i));
            assert(fields_now.last() == fields@[i]);
            assert(row_now.drop_last() =~= shown.take(i));
            assert(row_now.last() == e@);
        }
        let field = fields[vectors.len()];
        if counted {
            let length = match &e {
                Embedded::Dense(v) => v.len(),
                Embedded::Sparse(i, _) => i.len(),
            };
            set_params(&mut lengths, slot_name_text(field, config.name.as_str()), length);
        }
        vectors.push(vector_data(config, field, e));
    }
    proof {
        assert(fields@.take(fields@.len() as int) =~= fields@);
        assert(shown.take(shown.len() as int) =~= shown);
    }
    (vectors, lengths)
}

fn place_rows(config: &VectorConfigInternal, fields: &Vec<DocumentField>, rows: Vec<Vec<Embedded>>)
 -> (r: Vectorized)
    requires
        fields@ == config.slots(),
        forall|i: int| 0 <= i < rows@.len() ==> (#[trigger] rows@[i])@.len() == fields@.len(),
    ensures
        placed(*config, custom::batch_views(rows@), r),
{
    let ghost all = rows@;
    let ghost shown = custom::batch_views(rows@);
    let mut vectors: Vec<Vec<VectorData>> = Vec::new();
    let mut token_lengths: Vec<Vec<(String, usize)>> = Vec::new();
    for row in it: rows
        invariant
            it.seq() == all,
            shown == custom::batch_views(all),
            fields@ == config.slots(),
            forall|i: int| 0 <= i < all.len() ==> (#[trigger] all[i])@.len() == fields@.len(),
            vectors@.len() == it.index(),
            token_lengths@.len() == it.index(),
            forall|i: int|
                0 <= i < it.index() ==> row_placed(
                    *config,
                    #[trigger] shown[i],
                    vectors@[i]@,
                    qdrant::named(token_lengths@[i]@),
                ),
    {
        assert(row@.len() == fields@.len()) by {
            assert(all[it.index() as int] == row);
        }
        assert(shown[it.index() as int] == embedded::embedded_views(row@));
        let (v, l) = place_row(config, fields, row);
        vectors.push(v);
        token_lengths.push(l);
    }
    Vectorized { vectors, token_lengths }
}

/// The first vector of a row from a field on that has not as many numbers as
/// the configuration says.
pub open spec fn row_problem(
    config: VectorConfigInternal,
    fields: Seq<DocumentField>,
    row: Seq<EmbeddedView>,
    k: int,
) -> Option<Seq<char>>
    decreases fields.len() - k,
{
    if k < 0 || k >= fields.len() || config.dimensions is None {
        None
    } else if token_length(row[k]) != config.dimensions->0 {
        Some(
            "Specified dimensions "@ + text::decimal(config.dimensions->0 as nat)
                + " don't match generated dimensions "@ + text::decimal(token_length(row[k]) as nat)
                + (" for vector '"@ + config.name@ + "' field '"@ + fields[k].spec_name() + "'"@),
        )
    } else {
        row_problem(config, fields, row, k + 1)
    }
}

/// The first problem of rows from a document on.
pub open spec fn rows_problem(
    config: VectorConfigInternal,
    fields: Seq<DocumentField>,
    rows: Seq<Seq<EmbeddedView>>,
    i: int,
) -> Option<Seq<char>>
    decreases rows.len() - i,
{
    if i < 0 || i >= rows.len() {
        None
    } else {
        match row_problem(config, fields, rows[i], 0) {
            Some(e) => Some(e),
            None => rows_problem(config, fields, rows, i + 1),
        }
    }
}

fn check_row(config: &VectorConfigInternal, fields: &Vec<DocumentField>, row: &Vec<Embedded>) -> (r:
    Option<String>)
    requires
        row@.len() == fields@.len(),
    ensures
        text::opt_view(r) == row_problem(*config, fields@, embedded::embedded_views(row@), 0),
{
    let dims = match config.dimensions {
        Some(dims) => dims,
        None => {
            return None;
        },
    };
    let ghost shown = embedded::embedded_views(row@);
    let mut k: usize = 0;
    while k < fields.len()
        invariant
            k <= fields@.len(),
            row@.len() == fields@.len(),
            shown == embedded::embedded_views(row@),
            config.dimensions == Some(dims),
            row_problem(*config, fields@, shown, 0) == row_problem(
                *config,
                fields@,
                shown,
                k as int,
            ),
        decreases fields.len() - k,
    {
        assert(shown[k as int] == row@[k as int]@);
        let length = match &row[k] {
            Embedded::Dense(v) => v.len(),
            Embedded::Sparse(i, _) => i.len(),
        };
        if length != dims as usize {
            let wanted = decimal_text(dims as u64);
            let found = decimal_text(length as u64);
            let tail = text5(
                " for vector '",
                config.name.as_str(),
                "' field '",
                fields[k].name(),
                "'",
            );
            return Some(
                text5(
                    "Specified dimensions ",
                    wanted.as_str(),
                    " don't match generated dimensions ",
                    found.as_str(),
                    tail.as_str(),
                ),
            );
        }
        k += 1;
    }
    None
}

fn check_rows(config: &VectorConfigInternal, fields: &Vec<DocumentField>, rows: &Vec<
    Vec<Embedded>,
>) -> (r: Option<String>)
    requires
        forall|i: int| 0 <= i < rows@.len() ==> (#[trigger] rows@[i])@.len() == fields@.len(),
    ensures
        text::opt_view(r) == rows_problem(*config, fields@, custom::batch_views(rows@), 0),
{
    let ghost shown = custom::batch_views(rows@);
    let mut i: usize = 0;
    while i < rows.len()
        invariant
            i <= rows@.len(),
            shown == custom::batch_views(rows@),
            forall|i: int| 0 <= i < rows@.len() ==> (#[trigger] rows@[i])@.len() == fields@.len(),
            rows_problem(*config, fields@, shown, 0) == rows_problem(
                *config,
                fields@,
                shown,
                i as int,
            ),
        decreases rows.len() - i,
    {
        assert(shown[i as int] == embedded::embedded_views(rows@[i as int]@));
        let r = check_row(config, fields, &rows[i]);
        if r.is_some() {
            return r;
        }
        i += 1;
    }
    None
}

/// The names of fields.
pub open spec fn field_names(fields: Seq<DocumentField>) -> Seq<Seq<char>> {
    Seq::new(fields.len(), |k: int| fields[k].spec_name())
}

/// What is said of a vector that could not be made.
pub open spec fn vector_failure(config: VectorConfigInternal, e: Seq<char>) -> Seq<char> {
    "Failed to generate vector '"@ + config.name@ + "' for fields "@ + text::debug_text(
        text::join(field_names(config.slots()), ","@),
    ) + (": "@ + e)
}

fn explain_failure(config: &VectorConfigInternal, fields: &Vec<DocumentField>, e: &str) -> (r:
    String)
    requires
        fields@ == config.slots(),
    ensures
        r@ == vector_failure(*config, e@),
{
    let mut names: Vec<String> = Vec::new();
    let mut k: usize = 0;
    while k < fields.len()
        invariant
            k <= fields@.len(),
            text::views(names@) == field_names(fields@).take(k as int),
        decreases fields.len() - k,
    {
        let ghost before = text::views(names@);
        names.push(fields[k].name().to_owned());
        proof {
            let all = field_names(fields@);
            assert(text::views(names@) =~= before.push(fields@[k as int].spec_name()));
            assert(all.take(k as int + 1) =~= all.take(k as int).push(all[k as int]));
        }
        k += 1;
    }
    assert(field_names(fields@).take(fields@.len() as int) =~= field_names(fields@));
    let list = joined(&names, ",");
    let shown = debug_format(list.as_str());
    let tail = text2(": ", e);
    text5(
        "Failed to generate vector '",
        config.name.as_str(),
        "' for fields ",
        shown.as_str(),
        tail.as_str(),
    )
}

/// What there is to do for the vectors of documents.
#[derive(Debug, PartialEq, Eq)]
pub enum DocumentWork {
    /// To embed texts, with the average length for each where words count.
    Embed { texts: Vec<String>, averages: Option<Vec<Double>> },
    /// Nothing: the documents brought their vectors along.
    Ready(Vectorized),
}

proof fn lemma_fields_width(
    config: VectorConfigInternal,
    sparse: bool,
    customs: Seq<crate::models::CustomDocumentVector>,
    fields: Seq<DocumentField>,
)
    ensures
        custom::fields_reading(config, sparse, customs, fields) matches Ok(row) ==> row.len()
            == fields.len(),
    decreases fields.len(),
{
    if fields.len() > 0 {
        lemma_fields_width(config, sparse, customs, fields.drop_last());
    }
}

proof fn lemma_rows_width(config: VectorConfigInternal, sparse: bool, documents: Seq<Document>)
    ensures
        custom::documents_reading(config, sparse, documents) matches Ok(rows) ==> rows.len()
            == documents.len() && forall|i: int|
            0 <= i < rows.len() ==> (#[trigger] rows[i]).len() == config.slots().len(),
    decreases documents.len(),
{
    if documents.len() > 0 {
        lemma_rows_width(config, sparse, documents.drop_last());
        if let Some(customs) = documents.last().custom_vectors {
            lemma_fields_width(
                config,
                sparse,
                customs@,
                config.slots(),
            );
        }
    }
}

/// Whether something is what there is to do for the vectors of documents.
pub open spec fn is_work(
    config: VectorConfigInternal,
    documents: Seq<Document>,
    table: Option<Seq<(Seq<char>, Double)>>,
    r: Result<DocumentWork, String>,
) -> bool {
    if config.vector_type.spec_is_custom_vectors() {
        match custom::documents_reading(
            config,
            config.vector_type is SparseCustom,
            documents,
        ) {
            Ok(rows) => r matches Ok(DocumentWork::Ready(v)) && placed(config, rows, v),
            Err(e) => r matches Err(f) && f@ == e,
        }
    } else {
        match slot_texts(config, documents) {
            Err(e) => r matches Err(f) && f@ == vector_failure(config, e),
            Ok(all) => if config.vector_type.spec_is_custom_tokenization() {
                match averages_of(config, table, documents.len()) {
                    Ok(list) => r matches Ok(DocumentWork::Embed { texts, averages }) && text::views(
                        texts@,
                    ) == all && (averages matches Some(a) && a@ == list),
                    Err(e) => r matches Err(f) && f@ == vector_failure(config, e),
                }
            } else {
                r matches Ok(DocumentWork::Embed { texts, averages }) && text::views(texts@) == all
                    && averages is None
            },
        }
    }
}

/// Finds what there is to do for the vectors of documents.
pub fn plan_documents(
    config: &VectorConfigInternal,
    documents: &Vec<Document>,
    table: &Option<Vec<(String, Double)>>,
) -> (r: Result<DocumentWork, String>)
    ensures
        is_work(*config, documents@, average_table(*table), r),
{
    let fields = field_slots(config);
    if config.vector_type.is_custom_vectors() {
        let sparse = matches!(config.vector_type, VectorType::SparseCustom);
        let rows = if sparse {
            CustomSparseVector::extract_for_documents(config, documents)
        } else {
            CustomDenseVector::extract_for_documents(config, documents)
        };
        return match rows {
            Ok(rows) => {
                proof {
                    lemma_rows_width(*config, sparse, documents@);
                    let shown = custom::batch_views(rows@);
                    assert forall|i: int| 0 <= i < rows@.len() implies (#[trigger] rows@[i])@.len()
                        == fields@.len() by {
                        assert(shown[i].len() == rows@[i]@.len());
                    }
                }
                Ok(DocumentWork::Ready(place_rows(config, &fields, rows)))
            },
            Err(e) => Err(e),
        };
    }
    let texts = match gather_slot_texts(config, documents, &fields) {
        Ok(texts) => texts,
        Err(e) => {
            return Err(explain_failure(config, &fields, e.as_str()));
        },
    };
    if config.vector_type.is_custom_tokenization() {
        return match gather_averages(config, table, &fields, documents.len()) {
            Ok(list) => Ok(DocumentWork::Embed { texts, averages: Some(list) }),
            Err(e) => Err(explain_failure(config, &fields, e.as_str())),
        };
    }
    Ok(DocumentWork::Embed { texts, averages: None })
}

/// Whether something is what becomes of the embeddings of the documents' texts.
pub open spec fn is_outcome(
    config: VectorConfigInternal,
    n: int,
    routed: Result<RoutedEmbed, String>,
    r: Result<Vectorized, String>,
) -> bool {
    let fields = config.slots();
    match routed {
        Err(e) => r matches Err(f) && f@ == vector_failure(config, e@),
        Ok(v) => {
            let rows = rows_of(routed_views(v), n, fields.len() as int);
            if config.vector_type is DenseModel {
                if v is Sparse {
                    r matches Err(f) && f@ == vector_failure(
                        config,
                        "dense_model vector '"@ + config.name@
                            + "' routed to non-dense embedding"@,
                    )
                } else {
                    match rows_problem(config, fields, rows, 0) {
                        Some(e) => r matches Err(f) && f@ == vector_failure(config, e),
                        None => r matches Ok(out) && placed(config, rows, out),
                    }
                }
            } else if v is Dense {
                r matches Err(f) && f@ == vector_failure(
                    config,
                    "sparse vector '"@ + config.name@ + "' routed to dense embedding"@,
                )
            } else {
                r matches Ok(out) && placed(config, rows, out)
            }
        },
    }
}

/// Puts the embeddings of the documents' texts where they belong.
pub fn finish_documents(
    config: &VectorConfigInternal,
    n: usize,
    routed: Result<RoutedEmbed, String>,
) -> (r: Result<Vectorized, String>)
    requires
        !config.vector_type.spec_is_custom_vectors(),
        routed matches Ok(v) ==> (v is Dense == config.vector_type is DenseModel) ==> n
            * config.slots().len() <= routed_views(v).len(),
    ensures
        is_outcome(*config, n as int, routed, r),
{
    let fields = field_slots(config);
    let v = match routed {
        Ok(v) => v,
        Err(e) => {
            return Err(explain_failure(config, &fields, e.as_str()));
        },
    };
    let dense_model = matches!(config.vector_type, VectorType::DenseModel);
    let dense = matches!(v, RoutedEmbed::Dense(_));
    if dense_model && !dense {
        let e = text3(
            "dense_model vector '",
            config.name.as_str(),
            "' routed to non-dense embedding",
        );
        return Err(explain_failure(config, &fields, e.as_str()));
    }
    if !dense_model && dense {
        let e = text3("sparse vector '", config.name.as_str(), "' routed to dense embedding");
        return Err(explain_failure(config, &fields, e.as_str()));
    }
    let flat = routed_vectors(v);
    assert(embedded::embedded_views(flat@).len() == flat@.len());
    let rows = split_rows(&flat, n, fields.len());
    if dense_model {
        if let Some(e) = check_rows(config, &fields, &rows) {
            return Err(explain_failure(config, &fields, e.as_str()));
        }
    }
    Ok(place_rows(config, &fields, rows))
}

/// The text of a field of a document is what the document has there, and no text
/// where it has none.
pub proof fn fields_have_the_documents_texts(d: Document)
    ensures
        field_value(d, DocumentField::Name) == (match d.name {
            Some(t) => t@,
            None => Seq::empty(),
        }),
        field_value(d, DocumentField::Description) == (match d.description {
            Some(t) => t@,
            None => Seq::empty(),
        }),
        field_value(d, DocumentField::Content) == (match d.content {
            Some(t) => t@,
            None => Seq::empty(),
        }),
{
}

/// The texts of documents stand document by document, and within a document field
/// by field.
pub proof fn texts_stand_document_by_document(
    documents: Seq<Document>,
    fields: Seq<DocumentField>,
    i: int,
    k: int,
)
    requires
        0 <= i < documents.len(),
        0 <= k < fields.len(),
    ensures
        texts_of(documents, fields).len() == documents.len() * fields.len(),
        0 <= i * fields.len() + k < documents.len() * fields.len(),
        texts_of(documents, fields)[i * fields.len() + k] == field_value(documents[i], fields[k]),
    decreases documents.len(),
{
    let n = documents.len() as int;
    let w = fields.len() as int;
    let init = documents.drop_last();
    lemma_text_count(documents, fields);
    lemma_text_count(init, fields);
    assert(0 <= i * w + k < n * w && i * w <= (n - 1) * w) by (nonlinear_arith)
        requires
            0 <= i < n,
            0 <= k < w,
    ;
    if i < n - 1 {
        assert(i * w + k < (n - 1) * w) by (nonlinear_arith)
            requires
                0 <= i < n - 1,
                0 <= k < w,
        ;
        texts_stand_document_by_document(init, fields, i, k);
        assert(init[i] == documents[i]);
    } else {
        assert(documents[i] == documents.last());
        assert(i * w == (n - 1) * w);
    }
}

proof fn lemma_text_count(documents: Seq<Document>, fields: Seq<DocumentField>)
    ensures
        texts_of(documents, fields).len() == documents.len() * fields.len(),
    decreases documents.len(),
{
    let w = fields.len() as int;
    let n = documents.len() as int;
    if n > 0 {
        lemma_text_count(documents.drop_last(), fields);
        assert((n - 1) * w + w == n * w) by (nonlinear_arith);
    } else {
        assert(n * w == 0) by (nonlinear_arith)
            requires
                n == 0,
        ;
    }
}

/// Documents are rendered one by one, and all of them or none.
pub proof fn documents_are_rendered_one_by_one(
    template: Seq<char>,
    documents: Seq<Document>,
    one: Document,
)
    ensures
        rendered_texts(template, Seq::empty()) == Ok::<Seq<Seq<char>>, Seq<char>>(Seq::empty()),
        rendered_texts(template, documents) matches Ok(rest) ==> (match templates::doc_text(
            template,
            one,
        ) {
            Ok(t) => rendered_texts(template, documents.push(one)) == Ok::<
                Seq<Seq<char>>,
                Seq<char>,
            >(rest.push(t)),
            Err(e) => rendered_texts(template, documents.push(one)) is Err,
        }),
        rendered_texts(template, documents) is Err ==> rendered_texts(template, documents.push(one))
            is Err,
{
    assert(documents.push(one).drop_last() =~= documents);
}

/// The average length for a field is the first under the name of its slot; without
/// one there is no vector.
pub proof fn averages_go_by_slot(
    config: VectorConfigInternal,
    table: Seq<(Seq<char>, Double)>,
    field: DocumentField,
    i: int,
)
    ensures
        ({
            let slot = field.spec_name() + "_"@ + config.name@;
            &&& 0 <= i < table.len() && table[i].0 == slot && (forall|k: int|
                0 <= k < i ==> (#[trigger] table[k]).0 != slot) ==> field_average(
                config,
                Some(table),
                field,
            ) == Ok::<Double, Seq<char>>(table[i].1)
            &&& (forall|k: int| 0 <= k < table.len() ==> (#[trigger] table[k]).0 != slot)
                ==> field_average(config, Some(table), field) is Err
            &&& field_average(config, None, field) is Err
        }),
{
    let slot = qdrant::slot_name(field, config.name@);
    lemma_first_name(table, slot, i);
}

proof fn lemma_first_name(t: Seq<(Seq<char>, Double)>, name: Seq<char>, i: int)
    ensures
        0 <= i < t.len() && t[i].0 == name && (forall|k: int| 0 <= k < i ==> (#[trigger] t[k]).0
            != name) ==> qdrant::name_index(t, name) == i,
        (forall|k: int| 0 <= k < t.len() ==> (#[trigger] t[k]).0 != name) ==> qdrant::name_index(
            t,
            name,
        ) == t.len(),
    decreases t.len(),
{
    if t.len() > 0 && t[0].0 != name {
        let rest = t.drop_first();
        assert(forall|k: int| 0 <= k < rest.len() ==> #[trigger] rest[k] == t[k + 1]);
        lemma_first_name(rest, name, i - 1);
    }
}

/// The averages stand document by document, alike for each.
pub proof fn averages_repeat_for_each_document(list: Seq<Double>, n: nat, i: int, k: int)
    requires
        0 <= i < n,
        0 <= k < list.len(),
    ensures
        repeated(list, n).len() == n * list.len(),
        0 <= i * list.len() + k < n * list.len(),
        repeated(list, n)[i * list.len() + k] == list[k],
    decreases n,
{
    let w = list.len() as int;
    let m = n as int;
    lemma_repeated_count(list, n);
    lemma_repeated_count(list, (n - 1) as nat);
    assert(0 <= i * w + k < m * w && i * w <= (m - 1) * w) by (nonlinear_arith)
        requires
            0 <= i < m,
            0 <= k < w,
    ;
    if i < m - 1 {
        assert(i * w + k < (m - 1) * w) by (nonlinear_arith)
            requires
                0 <= i < m - 1,
                0 <= k < w,
        ;
        averages_repeat_for_each_document(list, (n - 1) as nat, i, k);
    }
}

proof fn lemma_repeated_count(list: Seq<Double>, n: nat)
    ensures
        repeated(list, n).len() == n * list.len(),
    decreases n,
{
    let w = list.len() as int;
    let m = n as int;
    if n > 0 {
        lemma_repeated_count(list, (n - 1) as nat);
        assert((m - 1) * w + w == m * w) by (nonlinear_arith);
    } else {
        assert(m * w == 0) by (nonlinear_arith)
            requires
                m == 0,
        ;
    }
}

/// The vectors of a document are those of its texts, in the order of the fields,
/// each of its field. Only vectors that are not dense have token lengths.
pub proof fn vectors_return_to_their_documents(
    config: VectorConfigInternal,
    flat: Seq<EmbeddedView>,
    n: int,
    r: Vectorized,
    i: int,
    k: int,
)
    requires
        placed(config, rows_of(flat, n, config.slots().len() as int), r),
        0 <= i < n,
        0 <= k < config.slots().len(),
    ensures
        r.vectors@.len() == n && r.token_lengths@.len() == n,
        r.vectors@[i]@.len() == config.slots().len(),
        embedded::holds(
            r.vectors@[i]@[k],
            config,
            config.slots()[k],
            flat[i * config.slots().len() + k],
        ),
        config.vector_type is DenseModel || config.vector_type is DenseCustom
            ==> r.token_lengths@[i]@.len() == 0,
{
    let rows = rows_of(flat, n, config.slots().len() as int);
    assert(row_placed(
        config,
        rows[i],
        r.vectors@[i]@,
        qdrant::named(r.token_lengths@[i]@),
    ));
    assert(rows[i][k] == flat[i * config.slots().len() + k]);
    assert(qdrant::named(r.token_lengths@[i]@).len() == r.token_lengths@[i]@.len());
}

/// The token length of a field is the number of its tokens, under the name of its
/// slot.
pub proof fn token_lengths_count_the_tokens(
    config: VectorConfigInternal,
    fields: Seq<DocumentField>,
    row: Seq<EmbeddedView>,
    k: int,
)
    requires
        row.len() == fields.len(),
        0 <= k < fields.len(),
        forall|j: int| k < j < fields.len() ==> #[trigger] fields[j] != fields[k],
    ensures
        qdrant::lists(
            row_lengths(config, fields, row),
            fields[k].spec_name() + "_"@ + config.name@,
            match row[k] {
                EmbeddedView::Dense(v) => v.len() as usize,
                EmbeddedView::Sparse(i, _) => i.len() as usize,
            },
        ),
    decreases fields.len(),
{
    let init = fields.drop_last();
    let name = qdrant::slot_name(fields[k], config.name@);
    let last = fields.len() - 1;
    let own = qdrant::slot_name(fields.last(), config.name@);
    let rest = row_lengths(config, init, row.drop_last());
    qdrant::params_are_listed(
        rest,
        own,
        token_length(row.last()),
        name,
        token_length(row[k]),
    );
    if k < last {
        assert(fields[last] != fields[k]);
        assert forall|j: int| k < j < init.len() implies #[trigger] init[j] != init[k] by {
            assert(init[j] == fields[j]);
        }
        token_lengths_count_the_tokens(config, init, row.drop_last(), k);
        if name == own {
            qdrant::slots_have_names_of_their_own(
                fields[k],
                config.name@,
                fields.last(),
                config.name@,
            );
        }
    }
}

/// A dense vector of a model is refused exactly if its dimensions are set and some
/// text has another number of them.
pub proof fn generated_dimensions_are_checked(
    config: VectorConfigInternal,
    fields: Seq<DocumentField>,
    rows: Seq<Seq<EmbeddedView>>,
)
    ensures
        rows_problem(config, fields, rows, 0) is None <==> (config.dimensions matches Some(n)
            ==> forall|i: int, k: int|
            #![trigger rows[i][k]]
            0 <= i < rows.len() && 0 <= k < fields.len() ==> token_length(rows[i][k]) == n),
{
    lemma_rows_problem(config, fields, rows, 0);
    if rows_problem(config, fields, rows, 0) is None && config.dimensions is Some {
        assert forall|i: int, k: int|
            #![trigger rows[i][k]]
            0 <= i < rows.len() && 0 <= k < fields.len() implies token_length(rows[i][k])
            == config.dimensions->0 by {
            assert(row_problem(config, fields, rows[i], 0) is None);
            lemma_row_problem(config, fields, rows[i], 0);
        }
    }
    if config.dimensions is None || forall|i: int, k: int|
        #![trigger rows[i][k]]
        0 <= i < rows.len() && 0 <= k < fields.len() ==> token_length(rows[i][k])
            == config.dimensions->0 {
        assert forall|i: int| 0 <= i < rows.len() implies row_problem(
            config,
            fields,
            #[trigger] rows[i],
            0,
        ) is None by {
            lemma_row_problem(config, fields, rows[i], 0);
        }
    }
}

proof fn lemma_row_problem(
    config: VectorConfigInternal,
    fields: Seq<DocumentField>,
    row: Seq<EmbeddedView>,
    k: int,
)
    requires
        0 <= k <= fields.len(),
    ensures
        row_problem(config, fields, row, k) is None <==> (config.dimensions matches Some(n)
            ==> forall|j: int| k <= j < fields.len() ==> token_length(#[trigger] row[j]) == n),
    decreases fields.len() - k,
{
    if k < fields.len() && config.dimensions is Some {
        lemma_row_problem(config, fields, row, k + 1);
        if row_problem(config, fields, row, k) is None {
            assert forall|j: int| k <= j < fields.len() implies token_length(#[trigger] row[j])
                == config.dimensions->0 by {
                if j > k {
                }
            }
        }
    }
}

proof fn lemma_rows_problem(
    config: VectorConfigInternal,
    fields: Seq<DocumentField>,
    rows: Seq<Seq<EmbeddedView>>,
    i: int,
)
    requires
        0 <= i <= rows.len(),
    ensures
        rows_problem(config, fields, rows, i) is None <==> forall|j: int|
            i <= j < rows.len() ==> row_problem(config, fields, #[trigger] rows[j], 0) is None,
    decreases rows.len() - i,
{
    if i < rows.len() {
        lemma_rows_problem(config, fields, rows, i + 1);
        if rows_problem(config, fields, rows, i) is None {
            assert forall|j: int| i <= j < rows.len() implies row_problem(
                config,
                fields,
                #[trigger] rows[j],
                0,
            ) is None by {
                if j > i {
                }
            }
        }
    }
}

/// Vectorizing goes on exactly if the model answered, with vectors of the kind that
/// was asked for and, for dense ones, of the dimensions that are set.
pub proof fn vectorizing_succeeds_with_fitting_answers(
    config: VectorConfigInternal,
    n: int,
    routed: Result<RoutedEmbed, String>,
    r: Result<Vectorized, String>,
)
    requires
        is_outcome(config, n, routed, r),
    ensures
        routed is Err ==> r is Err,
        routed matches Ok(v) ==> (r is Ok <==> if config.vector_type is DenseModel {
            v is Dense && rows_problem(
                config,
                config.slots(),
                rows_of(routed_views(v), n, config.slots().len() as int),
                0,
            ) is None
        } else {
            v is Sparse
        }),
        routed matches Ok(v) ==> (r matches Ok(out) ==> placed(
            config,
            rows_of(routed_views(v), n, config.slots().len() as int),
            out,
        )),
{
}

/// Embedded vectors stand for the numbers that the model gave.
pub proof fn answers_say_their_numbers(
    dense: Vec<Vec<u32>>,
    sparse: Vec<(Vec<u32>, Vec<u32>)>,
    i: int,
)
    ensures
        routed_views(RoutedEmbed::Dense(dense)).len() == dense@.len(),
        routed_views(RoutedEmbed::Sparse(sparse)).len() == sparse@.len(),
        0 <= i < dense@.len() ==> routed_views(RoutedEmbed::Dense(dense))[i]
            == EmbeddedView::Dense(dense@[i]@),
        0 <= i < sparse@.len() ==> routed_views(RoutedEmbed::Sparse(sparse))[i]
            == EmbeddedView::Sparse(sparse@[i].0@, sparse@[i].1@),
{
}

} // verus!
