//! Validation of vector configurations by computing the vectors of a query
//! made up for the purpose.

use vstd::prelude::*;
use crate::common::{DocumentField, VectorType, DEFAULT_SEARCH_LIMIT};
use crate::json::{Double, ONE_BITS};
use crate::models::{
    ModelValidationResponse, ModelValidationResult, SearchQuery, SearchQuerySettings,
    VectorConfigInternal, VectorData, VectorSearchOption, DEFAULT_WMTR_TRIGRAM_WEIGHT_BITS,
};
use crate::templates::field_slots;
use crate::text::same_text;

verus! {

/// A field of a vector, by the vector's name.
pub open spec fn option_for(name: Seq<char>, field: DocumentField, o: VectorSearchOption) -> bool {
    &&& o.vector_name@ == name
    &&& o.weight.bits == ONE_BITS
    &&& o.field == Some(field)
    &&& o.wmtr_trigram_weight.bits == DEFAULT_WMTR_TRIGRAM_WEIGHT_BITS
}

/// The fields of all vectors, in order.
pub open spec fn all_fields(configs: Seq<VectorConfigInternal>) -> Seq<(Seq<char>, DocumentField)>
    decreases configs.len(),
{
    if configs.len() == 0 {
        Seq::empty()
    } else {
        let c = configs.last();
        let fields = c.slots();
        all_fields(configs.drop_last()) + Seq::new(fields.len(), |i: int| (c.name@, fields[i]))
    }
}

/// Whether options weigh each of the fields alike.
pub open spec fn options_for(
    fields: Seq<(Seq<char>, DocumentField)>,
    options: Seq<VectorSearchOption>,
) -> bool {
    &&& options.len() == fields.len()
    &&& forall|i: int|
        0 <= i < options.len() ==> option_for(fields[i].0, fields[i].1, #[trigger] options[i])
}

fn collect_options(configs: &Vec<VectorConfigInternal>) -> (r: Vec<VectorSearchOption>)
    ensures
        options_for(all_fields(configs@), r@),
{
    let mut out: Vec<VectorSearchOption> = Vec::new();
    let mut i: usize = 0;
    assert(configs@.take(0) =~= Seq::empty());
    while i < configs.len()
        invariant
            i <= configs@.len(),
            options_for(all_fields(configs@.take(i as int)), out@),
        decreases configs.len() - i,
    {
        let c = &configs[i];
        let ghost before = all_fields(configs@.take(i as int));
        let ghost fields = c.slots();
        assert(configs@.take(i as int + 1).last() == c);
        assert(configs@.take(i as int + 1).drop_last() =~= configs@.take(i as int));
        let ghost after = all_fields(configs@.take(i as int + 1));
        assert(after =~= before + Seq::new(fields.len(), |k: int| (c.name@, fields[k])));
        let list = field_slots(c);
        let mut j: usize = 0;
        while j < list.len()
            invariant
                j <= list@.len(),
                list@ == fields,
                after == before + Seq::new(fields.len(), |k: int| (c.name@, fields[k])),
                out@.len() == before.len() + j,
                forall|k: int|
                    0 <= k < out@.len() ==> option_for(
                        after[k].0,
                        after[k].1,
                        #[trigger] out@[k],
                    ),
            decreases list.len() - j,
        {
            out.push(
                VectorSearchOption {
                    vector_name: c.name.as_str().to_owned(),
                    weight: Double { bits: ONE_BITS },
                    field: Some(list[j]),
                    wmtr_trigram_weight: Double { bits: DEFAULT_WMTR_TRIGRAM_WEIGHT_BITS },
                },
            );
            j += 1;
        }
        i += 1;
    }
    assert(configs@.take(i as int) =~= configs@);
    out
}

/// The query whose vectors show whether the configurations work: the text `x`
/// on every field of every vector.
pub fn probe_query(vector_configs: &Vec<VectorConfigInternal>) -> (r: SearchQuery)
    ensures
        r.query@ == "x"@,
        options_for(all_fields(vector_configs@), r.settings.vector_options@),
        r.settings.custom_vectors is None,
        r.settings.limit == DEFAULT_SEARCH_LIMIT,
        r.settings.score_threshold is None,
        r.settings.document_tags is None,
        !r.settings.document_tags_match_all,
        r.settings.metadata_filter is None,
        !r.settings.raw_scores,
        r.settings.fusion_mode@ == "rrf"@,
        r.settings.join is None,
        r.settings.exclude is None,
        r.settings.group_field is None,
        r.settings.group_max == 3,
        r.settings.group_max_fetches == 2,
        !r.settings.facets,
        r.settings.facet_options is None,
{
    SearchQuery {
        query: "x".to_owned(),
        settings: SearchQuerySettings {
            vector_options: collect_options(vector_configs),
            custom_vectors: None,
            limit: DEFAULT_SEARCH_LIMIT,
            score_threshold: None,
            document_tags: None,
            document_tags_match_all: false,
            metadata_filter: None,
            raw_scores: false,
            fusion_mode: "rrf".to_owned(),
            join: None,
            exclude: None,
            group_field: None,
            group_max: 3,
            group_max_fetches: 2,
            facets: false,
            facet_options: None,
        },
    }
}

/// The length of the first dense vector with a name.
pub open spec fn dense_length(vectors: Seq<VectorData>, name: Seq<char>) -> Option<nat>
    decreases vectors.len(),
{
    if vectors.len() == 0 {
        None
    } else if vectors[0].vector_name@ == name && vectors[0].dense_vector is Some {
        Some(vectors[0].dense_vector->0@.len())
    } else {
        dense_length(vectors.drop_first(), name)
    }
}

/// What the vectors say of a configuration: a dense model must have given a
/// dense vector, whose length is the dimension; other types are fine.
pub open spec fn is_result(
    c: VectorConfigInternal,
    vectors: Seq<VectorData>,
    r: ModelValidationResult,
) -> bool {
    if c.vector_type is DenseModel {
        match dense_length(vectors, c.name@) {
            Some(n) => r.valid && r.error is None && (if n <= u32::MAX {
                r.dimension == Some(n as u32)
            } else {
                r.dimension is None
            }),
            None => !r.valid && r.dimension is None && (r.error matches Some(e) && e@
                == "No dense vector generated"@),
        }
    } else {
        r.valid && r.dimension is None && r.error is None
    }
}

fn find_dense(vectors: &Vec<VectorData>, name: &str) -> (r: Option<usize>)
    ensures
        match r {
            Some(n) => dense_length(vectors@, name@) == Some(n as nat),
            None => dense_length(vectors@, name@) is None,
        },
{
    let mut i: usize = 0;
    assert(vectors@.skip(0) =~= vectors@);
    while i < vectors.len()
        invariant
            i <= vectors@.len(),
            dense_length(vectors@, name@) == dense_length(vectors@.skip(i as int), name@),
        decreases vectors.len() - i,
    {
        assert(vectors@.skip(i as int)[0] == vectors@[i as int]);
        assert(vectors@.skip(i as int).drop_first() =~= vectors@.skip(i as int + 1));
        if same_text(vectors[i].vector_name.as_str(), name) {
            if let Some(d) = &vectors[i].dense_vector {
                return Some(d.len());
            }
        }
        i += 1;
    }
    None
}

fn summarize_one(c: &VectorConfigInternal, vectors: &Vec<VectorData>) -> (r: ModelValidationResult)
    ensures
        is_result(*c, vectors@, r),
{
    if matches!(c.vector_type, VectorType::DenseModel) {
        return match find_dense(vectors, c.name.as_str()) {
            Some(n) => {
                let dimension: Option<u32> = if n as u64 <= u32::MAX as u64 {
                    Some(n as u32)
                } else {
                    None
                };
                ModelValidationResult { valid: true, dimension, error: None }
            },
            None => ModelValidationResult {
                valid: false,
                dimension: None,
                error: Some("No dense vector generated".to_owned()),
            },
        };
    }
    ModelValidationResult { valid: true, dimension: None, error: None }
}

/// The last configuration with a name.
pub open spec fn last_named(configs: Seq<VectorConfigInternal>, name: Seq<char>) -> Option<
    VectorConfigInternal,
>
    decreases configs.len(),
{
    if configs.len() == 0 {
        None
    } else if configs.last().name@ == name {
        Some(configs.last())
    } else {
        last_named(configs.drop_last(), name)
    }
}

/// Whether results are those of the configurations: one for each name, of the
/// last configuration with that name.
pub open spec fn results_for(
    configs: Seq<VectorConfigInternal>,
    vectors: Seq<VectorData>,
    results: Seq<(String, ModelValidationResult)>,
) -> bool {
    &&& forall|i: int|
        0 <= i < results.len() ==> (last_named(configs, (#[trigger] results[i]).0@) matches Some(
            c,
        ) && is_result(c, vectors, results[i].1))
    &&& forall|i: int, j: int|
        #![trigger results[i], results[j]]
        0 <= i < j < results.len() ==> results[i].0@ != results[j].0@
    &&& forall|k: int| 0 <= k < configs.len() ==> has_result(results, (#[trigger] configs[k]).name@)
}

/// Whether one of the results has the name.
pub open spec fn has_result(
    results: Seq<(String, ModelValidationResult)>,
    name: Seq<char>,
) -> bool {
    exists|i: int| 0 <= i < results.len() && (#[trigger] results[i]).0@ == name
}

fn find_result(results: &Vec<(String, ModelValidationResult)>, name: &str) -> (r: usize)
    ensures
        r <= results@.len(),
        r < results@.len() ==> results@[r as int].0@ == name@,
        r == results@.len() ==> !has_result(results@, name@),
{
    let mut i: usize = 0;
    while i < results.len()
        invariant
            i <= results@.len(),
            forall|k: int| 0 <= k < i ==> (#[trigger] results@[k]).0@ != name@,
        decreases results.len() - i,
    {
        if same_text(results[i].0.as_str(), name) {
            return i;
        }
        i += 1;
    }
    i
}

/// Summarizes what the vectors of the probe query say of each configuration,
/// or why they could not be computed.
pub fn summarize_models(
    vector_configs: &Vec<VectorConfigInternal>,
    outcome: Result<Vec<VectorData>, String>,
) -> (r: ModelValidationResponse)
    ensures
        match outcome {
            Ok(vectors) => r.error is None && (r.results matches Some(results) && results_for(
                vector_configs@,
                vectors@,
                results@,
            )),
            Err(e) => r.results is None && r.error == Some(e),
        },
{
    let vectors = match outcome {
        Ok(vectors) => vectors,
        Err(e) => {
            return ModelValidationResponse { results: None, error: Some(e) };
        },
    };
    let mut results: Vec<(String, ModelValidationResult)> = Vec::new();
    let mut i: usize = 0;
    assert(vector_configs@.take(0) =~= Seq::empty());
    while i < vector_configs.len()
        invariant
            i <= vector_configs@.len(),
            results_for(vector_configs@.take(i as int), vectors@, results@),
        decreases vector_configs.len() - i,
    {
        let c = &vector_configs[i];
        let ghost earlier = vector_configs@.take(i as int);
        let ghost now = vector_configs@.take(i as int + 1);
        assert(now.last() == c);
        assert(now.drop_last() =~= earlier);
        let result = summarize_one(c, &vectors);
        let ghost before = results@;
        let at = find_result(&results, c.name.as_str());
        if at < results.len() {
            results.set(at, (c.name.as_str().to_owned(), result));
        } else {
            results.push((c.name.as_str().to_owned(), result));
        }
        proof {
            let after = results@;
            assert(after[at as int].0@ == c.name@);
            assert forall|k: int| 0 <= k < after.len() implies (last_named(
                now,
                (#[trigger] after[k]).0@,
            ) matches Some(d) && is_result(d, vectors@, after[k].1)) by {
                if k != at {
                    assert(after[k] == before[k]);
                    assert(after[k].0@ != c.name@) by {
                        if at < before.len() {
                            if k < at {
                                assert(before[k].0@ != before[at as int].0@);
                            } else {
                                assert(before[at as int].0@ != before[k].0@);
                            }
                        } else {
                            assert(!has_result(before, c.name@));
                        }
                    }
                }
            }
            assert forall|a: int, b: int|
                #![trigger after[a], after[b]]
                0 <= a < b < after.len() implies after[a].0@ != after[b].0@ by {
                if at < before.len() {
                    assert(before[a].0@ != before[b].0@);
                } else if b == at {
                    assert(after[a] == before[a]);
                    assert(!has_result(before, c.name@));
                } else {
                    assert(before[a].0@ != before[b].0@);
                }
            }
            assert forall|k: int| 0 <= k < now.len() implies has_result(
                after,
                (#[trigger] now[k]).name@,
            ) by {
                if k < i {
                    assert(now[k] == earlier[k]);
                    assert(has_result(before, earlier[k].name@));
                    let x = choose|x: int|
                        0 <= x < before.len() && (#[trigger] before[x]).0@ == earlier[k].name@;
                    assert(after[x].0@ == before[x].0@);
                } else {
                    assert(after[at as int].0@ == now[k].name@);
                }
            }
        }
        i += 1;
    }
    assert(vector_configs@.take(i as int) =~= vector_configs@);
    ModelValidationResponse { results: Some(results), error: None }
}

/// A vector of a dense model is valid exactly if a dense vector of its name was
/// made, and then has the dimensions of the first of them. Any other vector is
/// valid and has none.
pub proof fn dense_models_are_valid_with_a_vector(
    c: VectorConfigInternal,
    vectors: Seq<VectorData>,
    r: ModelValidationResult,
    i: int,
)
    requires
        is_result(c, vectors, r),
    ensures
        !(c.vector_type is DenseModel) ==> r.valid && r.dimension is None && r.error is None,
        c.vector_type is DenseModel && (forall|k: int|
            0 <= k < vectors.len() ==> (#[trigger] vectors[k]).vector_name@ != c.name@
                || vectors[k].dense_vector is None) ==> !r.valid && r.dimension is None
            && r.error is Some,
        c.vector_type is DenseModel && 0 <= i < vectors.len() && vectors[i].vector_name@ == c.name@
            && vectors[i].dense_vector is Some && vectors[i].dense_vector->0@.len() <= u32::MAX && (
        forall|k: int|
            0 <= k < i ==> (#[trigger] vectors[k]).vector_name@ != c.name@
                || vectors[k].dense_vector is None) ==> r.valid && r.error is None && r.dimension
            == Some(vectors[i].dense_vector->0@.len() as u32),
{
    lemma_dense_length(vectors, c.name@, i);
}

proof fn lemma_dense_length(vectors: Seq<VectorData>, name: Seq<char>, i: int)
    ensures
        (forall|k: int|
            0 <= k < vectors.len() ==> (#[trigger] vectors[k]).vector_name@ != name
                || vectors[k].dense_vector is None) ==> dense_length(vectors, name) is None,
        0 <= i < vectors.len() && vectors[i].vector_name@ == name && vectors[i].dense_vector is Some
            && (forall|k: int|
            0 <= k < i ==> (#[trigger] vectors[k]).vector_name@ != name || vectors[k].dense_vector
                is None) ==> dense_length(vectors, name) == Some(vectors[i].dense_vector->0@.len()),
    decreases vectors.len(),
{
    if vectors.len() > 0 {
        let rest = vectors.drop_first();
        assert(forall|k: int| 0 <= k < rest.len() ==> #[trigger] rest[k] == vectors[k + 1]);
        lemma_dense_length(rest, name, i - 1);
        if 0 < i < vectors.len() {
            assert(rest[i - 1] == vectors[i]);
        }
    }
}

/// The fields of the vectors are the slots of each, vector by vector.
pub proof fn every_slot_is_probed(configs: Seq<VectorConfigInternal>, i: int, k: int)
    requires
        0 <= i < configs.len(),
        0 <= k < configs[i].slots().len(),
    ensures
        all_fields(configs).contains((configs[i].name@, configs[i].slots()[k])),
    decreases configs.len(),
{
    let init = configs.drop_last();
    let c = configs.last();
    let own = Seq::new(c.slots().len(), |i: int| (c.name@, c.slots()[i]));
    let rest = all_fields(init);
    let all = all_fields(configs);
    assert(all == rest + own);
    if i < init.len() {
        assert(init[i] == configs[i]);
        every_slot_is_probed(init, i, k);
        let x = choose|x: int|
            0 <= x < rest.len() && rest[x] == (configs[i].name@, configs[i].slots()[k]);
        assert(all[x] == rest[x]);
    } else {
        assert(all[rest.len() + k] == own[k]);
    }
}

/// Every vector has a result, and each result is that of the last vector of its
/// name.
pub proof fn every_vector_has_a_result(
    configs: Seq<VectorConfigInternal>,
    vectors: Seq<VectorData>,
    results: Seq<(String, ModelValidationResult)>,
    k: int,
)
    requires
        results_for(configs, vectors, results),
        0 <= k < configs.len(),
        forall|j: int| k < j < configs.len() ==> (#[trigger] configs[j]).name@ != configs[k].name@,
    ensures
        exists|i: int|
            0 <= i < results.len() && (#[trigger] results[i]).0@ == configs[k].name@ && is_result(
                configs[k],
                vectors,
                results[i].1,
            ),
{
    assert(has_result(results, configs[k].name@));
    let i = choose|i: int| 0 <= i < results.len() && (#[trigger] results[i]).0@ == configs[k].name@;
    lemma_last_named(configs, k);
    assert(is_result(configs[k], vectors, results[i].1));
}

proof fn lemma_last_named(configs: Seq<VectorConfigInternal>, k: int)
    requires
        0 <= k < configs.len(),
        forall|j: int| k < j < configs.len() ==> (#[trigger] configs[j]).name@ != configs[k].name@,
    ensures
        last_named(configs, configs[k].name@) == Some(configs[k]),
    decreases configs.len(),
{
    let init = configs.drop_last();
    if k < init.len() {
        assert(configs[configs.len() - 1].name@ != configs[k].name@);
        assert forall|j: int| k < j < init.len() implies (#[trigger] init[j]).name@
            != init[k].name@ by {
            assert(init[j] == configs[j]);
        }
        lemma_last_named(init, k);
    }
}

} // verus!
