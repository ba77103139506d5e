//! Bringing together the vectors of all configurations, and the choice of what
//! embeds the texts of one.

use vstd::prelude::*;

use crate::common::VectorType;
use crate::metrics::keys;
use crate::models::{Document, VectorConfigInternal, VectorData};
use crate::qdrant;
use crate::qdrant::set_params;
use crate::text;
use crate::text::text5;
use crate::vectors::document_work;
use crate::vectors::document_work::{type_word_text, Vectorized};

verus! {

/// What embeds the texts of a vector.
#[derive(Debug, Clone, Copy, PartialEq, Eq, Structural)]
pub enum Embedder {
    DenseModel,
    SparseModel,
    FullText,
    Trigrams,
    Whitespace,
    Wmtr,
    Noop,
}

/// What embeds the texts of a type of vector; none where clients bring the
/// vectors along.
pub open spec fn embedder_of(t: VectorType) -> Option<Embedder> {
    match t {
        VectorType::DenseModel => Some(Embedder::DenseModel),
        VectorType::SparseModel => Some(Embedder::SparseModel),
        VectorType::FullText => Some(Embedder::FullText),
        VectorType::Trigrams => Some(Embedder::Trigrams),
        VectorType::Whitespace => Some(Embedder::Whitespace),
        VectorType::Wmtr => Some(Embedder::Wmtr),
        VectorType::Keyword => Some(Embedder::Wmtr),
        VectorType::Noop => Some(Embedder::Noop),
        VectorType::DenseCustom => None,
        VectorType::SparseCustom => None,
    }
}

/// Chooses what embeds the texts of a vector. Where words count, the average
/// lengths have to be given.
pub fn route_embed_dispatch(config: &VectorConfigInternal, averages_given: bool) -> (r: Result<
    Embedder,
    String,
>)
    ensures
        match embedder_of(config.vector_type) {
            None => r matches Err(e) && e@
                == "route_embed_dispatch must not be called for dense_custom/sparse_custom"@,
            Some(embedder) => if config.vector_type.spec_is_custom_tokenization()
                && !averages_given {
                r matches Err(e) && e@ == "avgdl entries required for custom tokenization vector '"@
                    + config.name@ + "' ("@ + document_work::type_word(config.vector_type) + ")"@
            } else {
                r == Ok::<Embedder, String>(embedder)
            },
        },
{
    let embedder = match config.vector_type {
        VectorType::DenseModel => Embedder::DenseModel,
        VectorType::SparseModel => Embedder::SparseModel,
        VectorType::FullText => Embedder::FullText,
        VectorType::Trigrams => Embedder::Trigrams,
        VectorType::Whitespace => Embedder::Whitespace,
        VectorType::Wmtr | VectorType::Keyword => Embedder::Wmtr,
        VectorType::Noop => Embedder::Noop,
        VectorType::DenseCustom | VectorType::SparseCustom => {
            return Err(
                "route_embed_dispatch must not be called for dense_custom/sparse_custom".to_owned(),
            );
        },
    };
    if config.vector_type.is_custom_tokenization() && !averages_given {
        return Err(
            text5(
                "avgdl entries required for custom tokenization vector '",
                config.name.as_str(),
                "' (",
                type_word_text(config.vector_type),
                ")",
            ),
        );
    }
    Ok(embedder)
}

/// What is recorded of an embedding.
#[derive(Debug, Clone, Copy, PartialEq, Eq, Structural)]
pub enum EmbedValue {
    /// One more.
    One,
    /// As many more as there were texts.
    Passages,
    /// The time that it took.
    Time,
    /// The number of servers that it went through, which is none.
    Hops,
}

/// One event to record of an embedding.
#[derive(Debug, Clone, Copy, PartialEq, Eq)]
pub struct EmbedEvent {
    pub key: &'static str,
    pub value: EmbedValue,
}

/// What events record.
pub open spec fn event_views(v: Seq<EmbedEvent>) -> Seq<(Seq<char>, EmbedValue)> {
    Seq::new(v.len(), |i: int| (v[i].key@, v[i].value))
}

/// What is recorded of an embedding that succeeds or fails.
pub open spec fn recorded(ok: bool) -> Seq<(Seq<char>, EmbedValue)> {
    if ok {
        seq![
            (keys::EMBED_BATCHES@, EmbedValue::One),
            (keys::EMBED_BATCHES_ORIGIN@, EmbedValue::One),
            (keys::EMBED_PASSAGES@, EmbedValue::Passages),
            (keys::EMBED_PASSAGES_ORIGIN@, EmbedValue::Passages),
            (keys::EMBED_INFERENCE_MS@, EmbedValue::Time),
            (keys::EMBED_INFERENCE_ORIGIN_MS@, EmbedValue::Time),
            (keys::EMBED_HOPS@, EmbedValue::Hops),
        ]
    } else {
        seq![(keys::EMBED_INFERENCE_ORIGIN_ERRORS@, EmbedValue::One)]
    }
}

/// Lists what to record of an embedding.
pub fn embed_events(ok: bool) -> (r: Vec<EmbedEvent>)
    ensures
        event_views(r@) == recorded(ok),
{
    let r = if ok {
        vec![
            EmbedEvent { key: keys::EMBED_BATCHES, value: EmbedValue::One },
            EmbedEvent { key: keys::EMBED_BATCHES_ORIGIN, value: EmbedValue::One },
            EmbedEvent { key: keys::EMBED_PASSAGES, value: EmbedValue::Passages },
            EmbedEvent { key: keys::EMBED_PASSAGES_ORIGIN, value: EmbedValue::Passages },
            EmbedEvent { key: keys::EMBED_INFERENCE_MS, value: EmbedValue::Time },
            EmbedEvent { key: keys::EMBED_INFERENCE_ORIGIN_MS, value: EmbedValue::Time },
            EmbedEvent { key: keys::EMBED_HOPS, value: EmbedValue::Hops },
        ]
    } else {
        vec![EmbedEvent { key: keys::EMBED_INFERENCE_ORIGIN_ERRORS, value: EmbedValue::One }]
    };
    assert(event_views(r@) =~= recorded(ok));
    r
}

/// A text, or the empty one.
pub open spec fn text_or_empty(t: Option<String>) -> Seq<char> {
    match t {
        Some(s) => s@,
        None => ""@,
    }
}

/// What an embedding is recorded under: the type of the vector, the model and
/// its revision.
pub fn embed_dims(config: &VectorConfigInternal) -> (r: Vec<String>)
    ensures
        text::views(r@) == seq![
            config.vector_type.spec_name(),
            text_or_empty(config.model),
            text_or_empty(config.revision),
        ],
{
    let model = match &config.model {
        Some(m) => m.as_str().to_owned(),
        None => "".to_owned(),
    };
    let revision = match &config.revision {
        Some(v) => v.as_str().to_owned(),
        None => "".to_owned(),
    };
    let r = vec![config.vector_type.name().to_owned(), model, revision];
    assert(text::views(r@) =~= seq![
        config.vector_type.spec_name(),
        text_or_empty(config.model),
        text_or_empty(config.revision),
    ]);
    r
}

/// How many configurations one thread works on, so that no more threads are
/// used than there are.
pub fn chunk_size(configs: usize, threads: usize) -> (r: usize)
    requires
        configs >= 1,
        threads >= 1,
        configs + threads <= usize::MAX,
    ensures
        r == (configs + used_threads(configs as int, threads as int) - 1) / used_threads(
            configs as int,
            threads as int,
        ),
        r >= 1,
{
    let used = if threads < configs {
        threads
    } else {
        configs
    };
    let r = (configs + used - 1) / used;
    assert(r >= 1) by (nonlinear_arith)
        requires
            used >= 1,
            configs >= 1,
            r == (configs + used - 1) as int / used as int,
    ;
    r
}

/// The threads that configurations are divided among.
pub open spec fn used_threads(configs: int, threads: int) -> int {
    if threads < configs {
        threads
    } else {
        configs
    }
}

/// Chunks of that size cover the configurations with no more threads than there
/// are.
pub proof fn chunks_cover_all(configs: int, threads: int, size: int)
    requires
        configs >= 1,
        threads >= 1,
        size == (configs + used_threads(configs, threads) - 1) / used_threads(configs, threads),
    ensures
        size * threads >= configs,
{
    let used = used_threads(configs, threads);
    assert(size * used >= configs) by (nonlinear_arith)
        requires
            used >= 1,
            configs >= 1,
            size == (configs + used - 1) / used,
    ;
    assert(size * threads >= size * used) by (nonlinear_arith)
        requires
            size >= 0,
            threads >= used,
    ;
}

/// The first of the failures of configurations.
pub open spec fn first_failure(results: Seq<Result<Vectorized, String>>) -> Option<Seq<char>>
    decreases results.len(),
{
    if results.len() == 0 {
        None
    } else {
        match results[0] {
            Err(e) => Some(e@),
            Ok(_) => first_failure(results.drop_first()),
        }
    }
}

/// The vectors of a document from all configurations.
pub open spec fn merged_vectors(results: Seq<Result<Vectorized, String>>, i: int) -> Seq<VectorData>
    decreases results.len(),
{
    if results.len() == 0 {
        Seq::empty()
    } else {
        merged_vectors(results.drop_last(), i) + results.last()->Ok_0.vectors@[i]@
    }
}

/// Named lengths with others set.
pub open spec fn with_lengths(a: Seq<(Seq<char>, usize)>, b: Seq<(Seq<char>, usize)>) -> Seq<
    (Seq<char>, usize),
>
    decreases b.len(),
{
    if b.len() == 0 {
        a
    } else {
        qdrant::with_params(with_lengths(a, b.drop_last()), b.last().0, b.last().1)
    }
}

/// The lengths of a document's vectors from all configurations.
pub open spec fn merged_lengths(results: Seq<Result<Vectorized, String>>, i: int) -> Seq<
    (Seq<char>, usize),
>
    decreases results.len(),
{
    if results.len() == 0 {
        Seq::empty()
    } else {
        with_lengths(
            merged_lengths(results.drop_last(), i),
            qdrant::named(results.last()->Ok_0.token_lengths@[i]@),
        )
    }
}

/// Whether results are those of `n` documents.
pub open spec fn of_documents(results: Seq<Result<Vectorized, String>>, n: int) -> bool {
    forall|c: int|
        0 <= c < results.len() ==> ((#[trigger] results[c]) matches Ok(v) ==> v.vectors@.len() == n
            && v.token_lengths@.len() == n)
}

/// Whether the first documents have what the results give them.
pub open spec fn are_merged(
    results: Seq<Result<Vectorized, String>>,
    vectors: Seq<Vec<VectorData>>,
    lengths: Seq<Vec<(String, usize)>>,
) -> bool {
    &&& vectors.len() == lengths.len()
    &&& forall|i: int|
        0 <= i < vectors.len() ==> (#[trigger] vectors[i])@ == merged_vectors(results, i)
    &&& forall|i: int|
        0 <= i < lengths.len() ==> qdrant::named((#[trigger] lengths[i])@) == merged_lengths(
            results,
            i,
        )
}

fn add_lengths(to: &mut Vec<(String, usize)>, from: Vec<(String, usize)>)
    ensures
        qdrant::named(final(to)@) == with_lengths(
            qdrant::named(old(to)@),
            qdrant::named(from@),
        ),
{
    let ghost all = from@;
    let ghost shown = qdrant::named(from@);
    let ghost start = qdrant::named(to@);
    assert(shown.take(0) =~= Seq::empty());
    for p in it: from
        invariant
            it.seq() == all,
            shown == qdrant::named(all),
            start == qdrant::named(old(to)@),
            qdrant::named(to@) == with_lengths(start, shown.take(it.index() as int)),
    {
        proof {
            let next = shown.take(it.index() as int + 1);
            assert(next.drop_last() =~= shown.take(it.index() as int));
            assert(next.last() == (p.0@, p.1));
        }
        let (name, length) = p;
        set_params(to, name, length);
    }
    assert(shown.take(shown.len() as int) =~= shown);
}

fn add_result(
    vectors: &mut Vec<Vec<VectorData>>,
    lengths: &mut Vec<Vec<(String, usize)>>,
    result: Vectorized,
)
    requires
        old(vectors)@.len() == result.vectors@.len(),
        old(lengths)@.len() == result.token_lengths@.len(),
        old(vectors)@.len() == old(lengths)@.len(),
    ensures
        final(vectors)@.len() == old(vectors)@.len(),
        final(lengths)@.len() == old(lengths)@.len(),
        forall|i: int|
            0 <= i < old(vectors)@.len() ==> (#[trigger] final(vectors)@[i])@ == old(vectors)@[i]@
                + result.vectors@[i]@,
        forall|i: int|
            0 <= i < old(lengths)@.len() ==> qdrant::named((#[trigger] final(lengths)@[i])@)
                == with_lengths(
                qdrant::named(old(lengths)@[i]@),
                qdrant::named(result.token_lengths@[i]@),
            ),
{
    let Vectorized { vectors: new_vectors, token_lengths: new_lengths } = result;
    let ghost v0 = vectors@;
    let ghost l0 = lengths@;
    let n = vectors.len();
    let mut i: usize = 0;
    for list in it: new_vectors
        invariant
            it.seq() == new_vectors@,
            i == it.index(),
            n == v0.len(),
            vectors@.len() == v0.len() == new_vectors@.len(),
            forall|k: int|
                0 <= k < i ==> (#[trigger] vectors@[k])@ == v0[k]@ + new_vectors@[k]@,
            forall|k: int| i <= k < v0.len() ==> #[trigger] vectors@[k] == v0[k],
    {
        let mut list = list;
        let ghost added = list@;
        let mut mine: Vec<VectorData> = Vec::new();
        std::mem::swap(&mut mine, &mut vectors[i]);
        mine.append(&mut list);
        assert(mine@ =~= v0[i as int]@ + added);
        vectors.set(i, mine);
        i += 1;
    }
    let mut i: usize = 0;
    for list in it: new_lengths
        invariant
            it.seq() == new_lengths@,
            i == it.index(),
            n == l0.len(),
            lengths@.len() == l0.len() == new_lengths@.len(),
            forall|k: int|
                0 <= k < i ==> qdrant::named((#[trigger] lengths@[k])@) == with_lengths(
                    qdrant::named(l0[k]@),
                    qdrant::named(new_lengths@[k]@),
                ),
            forall|k: int| i <= k < l0.len() ==> #[trigger] lengths@[k] == l0[k],
    {
        let mut mine: Vec<(String, usize)> = Vec::new();
        std::mem::swap(&mut mine, &mut lengths[i]);
        add_lengths(&mut mine, list);
        lengths.set(i, mine);
        i += 1;
    }
}

/// Brings together the vectors of `n` documents from all configurations.
pub fn merge_results(n: usize, results: Vec<Result<Vectorized, String>>) -> (r: Result<
    Vectorized,
    String,
>)
    requires
        of_documents(results@, n as int),
    ensures
        match first_failure(results@) {
            Some(e) => r matches Err(f) && f@ == e,
            None => r matches Ok(out) && out.vectors@.len() == n && are_merged(
                results@,
                out.vectors@,
                out.token_lengths@,
            ),
        },
{
    let ghost all = results@;
    let mut vectors: Vec<Vec<VectorData>> = Vec::new();
    let mut lengths: Vec<Vec<(String, usize)>> = Vec::new();
    let mut i: usize = 0;
    while i < n
        invariant
            i <= n,
            vectors@.len() == i,
            lengths@.len() == i,
            forall|k: int| 0 <= k < i ==> (#[trigger] vectors@[k])@ =~= Seq::empty(),
            forall|k: int| 0 <= k < i ==> qdrant::named((#[trigger] lengths@[k])@) =~= Seq::empty(),
        decreases n - i,
    {
        vectors.push(Vec::new());
        lengths.push(Vec::new());
        i += 1;
    }
    assert(all.take(0) =~= Seq::empty());
    assert(all.skip(0) =~= all);
    for result in it: results
        invariant
            it.seq() == all,
            all == results@,
            of_documents(all, n as int),
            vectors@.len() == n,
            first_failure(all) == first_failure(all.skip(it.index() as int)),
            are_merged(all.take(it.index() as int), vectors@, lengths@),
    {
        let ghost c = it.index() as int;
        proof {
            assert(all.skip(c)[0] == result);
            assert(all.skip(c).drop_first() =~= all.skip(c + 1));
            let next = all.take(c + 1);
            assert(next.drop_last() =~= all.take(c));
            assert(next.last() == result);
            assert(all[c] == result);
        }
        match result {
            Ok(v) => {
                let ghost v0 = vectors@;
                let ghost l0 = lengths@;
                add_result(&mut vectors, &mut lengths, v);
                proof {
                    assert forall|k: int| 0 <= k < vectors@.len() implies (#[trigger] vectors@[k])@
                        == merged_vectors(all.take(c + 1), k) by {
                        assert(v0[k]@ == merged_vectors(all.take(c), k));
                    }
                    assert forall|k: int| 0 <= k < lengths@.len() implies qdrant::named(
                        (#[trigger] lengths@[k])@,
                    ) == merged_lengths(all.take(c + 1), k) by {
                        assert(qdrant::named(l0[k]@) == merged_lengths(all.take(c), k));
                    }
                }
            },
            Err(e) => {
                return Err(e);
            },
        }
    }
    assert(all.take(all.len() as int) =~= all);
    assert(all.skip(all.len() as int) =~= Seq::empty());
    Ok(Vectorized { vectors, token_lengths: lengths })
}

/// Gives the documents their vectors.
pub fn attach_vectors(documents: Vec<Document>, v: Vectorized) -> (r: Vec<Document>)
    requires
        v.vectors@.len() == documents@.len(),
        v.token_lengths@.len() == documents@.len(),
    ensures
        r@.len() == documents@.len(),
        forall|i: int|
            0 <= i < documents@.len() ==> #[trigger] r@[i] == (Document {
                vectors: Some(v.vectors@[i]),
                token_lengths: v.token_lengths@[i],
                ..documents@[i]
            }),
{
    let ghost all = documents@;
    let Vectorized { vectors, token_lengths } = v;
    let ghost all_vectors = vectors@;
    let ghost all_lengths = token_lengths@;
    let mut vectors = vectors;
    let mut token_lengths = token_lengths;
    let mut out: Vec<Document> = Vec::new();
    for d in it: documents
        invariant
            it.seq() == all,
            all_vectors.len() == all.len(),
            all_lengths.len() == all.len(),
            vectors@ == all_vectors.skip(it.index() as int),
            token_lengths@ == all_lengths.skip(it.index() as int),
            out@.len() == it.index(),
            forall|i: int|
                0 <= i < it.index() ==> #[trigger] out@[i] == (Document {
                    vectors: Some(all_vectors[i]),
                    token_lengths: all_lengths[i],
                    ..all[i]
                }),
    {
        let mut d = d;
        let mine = vectors.remove(0);
        let lengths = token_lengths.remove(0);
        proof {
            let i = it.index() as int;
            assert(vectors@ =~= all_vectors.skip(i + 1));
            assert(token_lengths@ =~= all_lengths.skip(i + 1));
        }
        d.vectors = Some(mine);
        d.token_lengths = lengths;
        out.push(d);
    }
    out
}

/// Every vector that is not a custom one has its embedder; the two names of the
/// weighted type have one.
pub proof fn vectors_have_their_embedder(t: VectorType)
    ensures
        embedder_of(t) is None <==> t is DenseCustom || t is SparseCustom,
        t is DenseModel <==> embedder_of(t) == Some(Embedder::DenseModel),
        t is SparseModel <==> embedder_of(t) == Some(Embedder::SparseModel),
        t is FullText <==> embedder_of(t) == Some(Embedder::FullText),
        t is Trigrams <==> embedder_of(t) == Some(Embedder::Trigrams),
        t is Whitespace <==> embedder_of(t) == Some(Embedder::Whitespace),
        t is Wmtr || t is Keyword <==> embedder_of(t) == Some(Embedder::Wmtr),
        t is Noop <==> embedder_of(t) == Some(Embedder::Noop),
{
}

/// The first vector that fails is the one that is told of.
pub proof fn the_first_failed_vector_is_told_of(results: Seq<Result<Vectorized, String>>, i: int)
    ensures
        first_failure(results) is None <==> forall|k: int|
            0 <= k < results.len() ==> (#[trigger] results[k]) is Ok,
        0 <= i < results.len() && results[i] is Err && (forall|k: int|
            0 <= k < i ==> (#[trigger] results[k]) is Ok) ==> first_failure(results) == Some(
            results[i]->Err_0@,
        ),
    decreases results.len(),
{
    if results.len() > 0 {
        let rest = results.drop_first();
        the_first_failed_vector_is_told_of(rest, i - 1);
        assert(forall|k: int| 0 <= k < rest.len() ==> #[trigger] rest[k] == results[k + 1]);
        if first_failure(results) is None {
            assert forall|k: int| 0 <= k < results.len() implies (#[trigger] results[k]) is Ok by {
                if k > 0 {
                    assert(rest[k - 1] == results[k]);
                }
            }
        }
        if 0 < i < results.len() {
            assert(rest[i - 1] == results[i]);
        }
    }
}

/// A document has the vectors of every configured vector, in order.
pub proof fn documents_have_the_vectors_of_every_config(
    results: Seq<Result<Vectorized, String>>,
    one: Vectorized,
    i: int,
)
    ensures
        merged_vectors(results.push(Ok(one)), i) == merged_vectors(results, i) + one.vectors@[i]@,
        merged_vectors(Seq::empty(), i) == Seq::<VectorData>::empty(),
{
    assert(results.push(Ok(one)).drop_last() =~= results);
}

/// A document has the token lengths of every configured vector: the last under a
/// name counts, and those under other names stay.
pub proof fn token_lengths_are_put_together(
    a: Seq<(Seq<char>, usize)>,
    b: Seq<(Seq<char>, usize)>,
    one: (Seq<char>, usize),
    name: Seq<char>,
    length: usize,
)
    ensures
        qdrant::lists(with_lengths(a, b.push(one)), one.0, one.1),
        name != one.0 && qdrant::lists(with_lengths(a, b), name, length) ==> qdrant::lists(
            with_lengths(a, b.push(one)),
            name,
            length,
        ),
        with_lengths(a, Seq::empty()) == a,
{
    assert(b.push(one).drop_last() =~= b);
    qdrant::params_are_listed(with_lengths(a, b), one.0, one.1, name, length);
}

} // verus!
