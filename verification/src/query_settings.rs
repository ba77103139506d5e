//! Search settings as a whole: when two queries can be answered together.

use vstd::prelude::*;
use crate::filters::same_filter;
use crate::join_parser::JoinField;
use crate::json::Double;
use crate::models::{
    CustomVector, MetadataFilter, SearchQuery, SearchQuerySettings, VectorSearchOption,
};
use crate::text;
use crate::text::{same_opt_text, same_text};

verus! {

/// Whether two weighted vectors are the same; weights are compared bit by bit.
pub open spec fn same_option(a: VectorSearchOption, b: VectorSearchOption) -> bool {
    &&& a.vector_name@ == b.vector_name@
    &&& a.field == b.field
    &&& a.weight == b.weight
    &&& a.wmtr_trigram_weight == b.wmtr_trigram_weight
}

/// Whether two custom vectors are the same.
pub open spec fn same_custom(a: CustomVector, b: CustomVector) -> bool {
    a.vector_name@ == b.vector_name@ && a.vector@.equals(b.vector@)
}

/// Whether two lists of weighted vectors are the same.
pub open spec fn same_options(a: Seq<VectorSearchOption>, b: Seq<VectorSearchOption>) -> bool {
    a.len() == b.len() && forall|i: int| 0 <= i < a.len() ==> same_option(#[trigger] a[i], b[i])
}

/// Whether two lists of custom vectors are the same.
pub open spec fn same_customs(a: Option<Vec<CustomVector>>, b: Option<Vec<CustomVector>>) -> bool {
    match (a, b) {
        (None, None) => true,
        (Some(x), Some(y)) => x@.len() == y@.len() && forall|i: int|
            0 <= i < x@.len() ==> same_custom(#[trigger] x@[i], y@[i]),
        _ => false,
    }
}

/// Whether two lists of texts are the same.
pub open spec fn same_text_lists(a: Option<Vec<String>>, b: Option<Vec<String>>) -> bool {
    match (a, b) {
        (None, None) => true,
        (Some(x), Some(y)) => text::views(x@) == text::views(y@),
        _ => false,
    }
}

/// Whether two filters are the same.
pub open spec fn same_filters(a: Option<MetadataFilter>, b: Option<MetadataFilter>) -> bool {
    match (a, b) {
        (None, None) => true,
        (Some(x), Some(y)) => x@.equals(y@),
        _ => false,
    }
}

/// Whether two joins are written the same.
pub open spec fn same_joins(a: Option<JoinField>, b: Option<JoinField>) -> bool {
    match (a, b) {
        (None, None) => true,
        (Some(JoinField::Single(x)), Some(JoinField::Single(y))) => x@ == y@,
        (Some(JoinField::Multiple(x)), Some(JoinField::Multiple(y))) => text::views(x@)
            == text::views(y@),
        _ => false,
    }
}

/// Whether two queries ask the same of the database, but for their texts.
pub open spec fn settings_equal(a: SearchQuerySettings, b: SearchQuerySettings) -> bool {
    &&& same_options(a.vector_options@, b.vector_options@)
    &&& same_customs(a.custom_vectors, b.custom_vectors)
    &&& a.limit == b.limit
    &&& a.score_threshold == b.score_threshold
    &&& same_text_lists(a.document_tags, b.document_tags)
    &&& a.document_tags_match_all == b.document_tags_match_all
    &&& same_filters(a.metadata_filter, b.metadata_filter)
    &&& a.raw_scores == b.raw_scores
    &&& a.fusion_mode@ == b.fusion_mode@
    &&& same_joins(a.join, b.join)
    &&& match (a.exclude, b.exclude) {
        (None, None) => true,
        (Some(x), Some(y)) => x@ == y@,
        _ => false,
    }
    &&& text::opt_view(a.group_field) == text::opt_view(b.group_field)
    &&& a.group_max == b.group_max
    &&& a.group_max_fetches == b.group_max_fetches
    &&& a.facets == b.facets
    &&& a.facet_options == b.facet_options
}

fn options_match(a: &Vec<VectorSearchOption>, b: &Vec<VectorSearchOption>) -> (r: bool)
    ensures
        r == same_options(a@, b@),
{
    if a.len() != b.len() {
        return false;
    }
    let mut i: usize = 0;
    while i < a.len()
        invariant
            i <= a@.len(),
            a@.len() == b@.len(),
            forall|k: int| 0 <= k < i ==> same_option(#[trigger] a@[k], b@[k]),
        decreases a.len() - i,
    {
        let x = &a[i];
        let y = &b[i];
        if !(same_text(x.vector_name.as_str(), y.vector_name.as_str()) && x.field == y.field
            && x.weight == y.weight && x.wmtr_trigram_weight == y.wmtr_trigram_weight) {
            assert(!same_option(a@[i as int], b@[i as int]));
            return false;
        }
        i += 1;
    }
    true
}

fn customs_match(a: &Option<Vec<CustomVector>>, b: &Option<Vec<CustomVector>>) -> (r: bool)
    ensures
        r == same_customs(*a, *b),
{
    match (a, b) {
        (None, None) => true,
        (Some(x), Some(y)) => {
            if x.len() != y.len() {
                return false;
            }
            let mut i: usize = 0;
            while i < x.len()
                invariant
                    i <= x@.len(),
                    x@.len() == y@.len(),
                    *a == Some(*x),
                    *b == Some(*y),
                    forall|k: int| 0 <= k < i ==> same_custom(#[trigger] x@[k], y@[k]),
                decreases x.len() - i,
            {
                if !(same_text(x[i].vector_name.as_str(), y[i].vector_name.as_str())
                    && x[i].vector.same(&y[i].vector)) {
                    assert(!same_custom(x@[i as int], y@[i as int]));
                    return false;
                }
                i += 1;
            }
            true
        },
        _ => false,
    }
}

fn texts_match(x: &Vec<String>, y: &Vec<String>) -> (r: bool)
    ensures
        r == (text::views(x@) == text::views(y@)),
{
    assert(text::views(x@).len() == x@.len());
    assert(text::views(y@).len() == y@.len());
    if x.len() != y.len() {
        return false;
    }
    let mut i: usize = 0;
    while i < x.len()
        invariant
            i <= x@.len(),
            x@.len() == y@.len(),
            forall|k: int| 0 <= k < i ==> (#[trigger] x@[k])@ == y@[k]@,
        decreases x.len() - i,
    {
        if !same_text(x[i].as_str(), y[i].as_str()) {
            assert(text::views(x@)[i as int] != text::views(y@)[i as int]);
            return false;
        }
        i += 1;
    }
    assert(text::views(x@) =~= text::views(y@));
    true
}

fn text_lists_match(a: &Option<Vec<String>>, b: &Option<Vec<String>>) -> (r: bool)
    ensures
        r == same_text_lists(*a, *b),
{
    match (a, b) {
        (None, None) => true,
        (Some(x), Some(y)) => texts_match(x, y),
        _ => false,
    }
}

fn filters_match(a: &Option<MetadataFilter>, b: &Option<MetadataFilter>) -> (r: bool)
    ensures
        r == same_filters(*a, *b),
{
    match (a, b) {
        (None, None) => true,
        (Some(x), Some(y)) => same_filter(x, y),
        _ => false,
    }
}

fn joins_match(a: &Option<JoinField>, b: &Option<JoinField>) -> (r: bool)
    ensures
        r == same_joins(*a, *b),
{
    match (a, b) {
        (None, None) => true,
        (Some(JoinField::Single(x)), Some(JoinField::Single(y))) => same_text(
            x.as_str(),
            y.as_str(),
        ),
        (Some(JoinField::Multiple(x)), Some(JoinField::Multiple(y))) => texts_match(x, y),
        _ => false,
    }
}

fn exclusions_match(a: &SearchQuerySettings, b: &SearchQuerySettings) -> (r: bool)
    ensures
        r == (match (a.exclude, b.exclude) {
            (None, None) => true,
            (Some(x), Some(y)) => x@ == y@,
            _ => false,
        }),
{
    match (&a.exclude, &b.exclude) {
        (None, None) => true,
        (Some(x), Some(y)) => {
            if x.len() != y.len() {
                return false;
            }
            let mut i: usize = 0;
            while i < x.len()
                invariant
                    i <= x@.len(),
                    x@.len() == y@.len(),
                    a.exclude == Some(*x),
                    b.exclude == Some(*y),
                    forall|k: int| 0 <= k < i ==> x@[k] == y@[k],
                decreases x.len() - i,
            {
                if x[i] != y[i] {
                    return false;
                }
                i += 1;
            }
            assert(x@ =~= y@);
            true
        },
        _ => false,
    }
}

fn same_threshold(a: Option<Double>, b: Option<Double>) -> (r: bool)
    ensures
        r == (a == b),
{
    match (a, b) {
        (None, None) => true,
        (Some(x), Some(y)) => x == y,
        _ => false,
    }
}

fn same_facet_options(a: &SearchQuerySettings, b: &SearchQuerySettings) -> (r: bool)
    ensures
        r == (a.facet_options == b.facet_options),
{
    match (a.facet_options, b.facet_options) {
        (None, None) => true,
        (Some(x), Some(y)) => x == y,
        _ => false,
    }
}

/// Whether two queries ask the same of the database, but for their texts.
pub fn same_settings(a: &SearchQuerySettings, b: &SearchQuerySettings) -> (r: bool)
    ensures
        r == settings_equal(*a, *b),
{
    options_match(&a.vector_options, &b.vector_options) && customs_match(
        &a.custom_vectors,
        &b.custom_vectors,
    ) && a.limit == b.limit && same_threshold(a.score_threshold, b.score_threshold)
        && text_lists_match(&a.document_tags, &b.document_tags) && a.document_tags_match_all
        == b.document_tags_match_all && filters_match(&a.metadata_filter, &b.metadata_filter)
        && a.raw_scores == b.raw_scores && same_text(
        a.fusion_mode.as_str(),
        b.fusion_mode.as_str(),
    ) && joins_match(&a.join, &b.join) && exclusions_match(a, b) && same_opt_text(
        &a.group_field,
        &b.group_field,
    ) && a.group_max == b.group_max && a.group_max_fetches == b.group_max_fetches && a.facets
        == b.facets && same_facet_options(a, b)
}

/// A search waiting for its answer.
#[derive(Debug, PartialEq, Eq)]
pub struct SearchJob {
    pub collection_name: String,
    pub query: SearchQuery,
}

/// Whether two searches can be answered together.
pub open spec fn same_bucket(a: SearchJob, b: SearchJob) -> bool {
    a.collection_name@ == b.collection_name@ && settings_equal(a.query.settings, b.query.settings)
}

fn fits_bucket(a: &SearchJob, b: &SearchJob) -> (r: bool)
    ensures
        r == same_bucket(*a, *b),
{
    same_text(a.collection_name.as_str(), b.collection_name.as_str()) && same_settings(
        &a.query.settings,
        &b.query.settings,
    )
}

/// Whether a position is in a bucket.
pub open spec fn in_bucket(buckets: Seq<Vec<usize>>, b: int, i: int) -> bool {
    0 <= b < buckets.len() && buckets[b]@.contains(i as usize)
}

/// Whether buckets gather the first `n` searches: every search is in one bucket,
/// in the order they came; all in a bucket can be answered together with its
/// first; and the first ones of two buckets cannot.
pub open spec fn buckets_of(jobs: Seq<SearchJob>, n: int, buckets: Seq<Vec<usize>>) -> bool {
    &&& forall|b: int| 0 <= b < buckets.len() ==> (#[trigger] buckets[b])@.len() > 0
    &&& forall|b: int, k: int|
        #![trigger buckets[b]@[k]]
        0 <= b < buckets.len() && 0 <= k < buckets[b]@.len() ==> buckets[b]@[k] < n && (k > 0
            ==> same_bucket(jobs[buckets[b]@[0] as int], jobs[buckets[b]@[k] as int]))
    &&& forall|b: int, j: int, k: int|
        #![trigger buckets[b]@[j], buckets[b]@[k]]
        0 <= b < buckets.len() && 0 <= j < k < buckets[b]@.len() ==> buckets[b]@[j]
            < buckets[b]@[k]
    &&& forall|a: int, b: int|
        #![trigger buckets[a], buckets[b]]
        0 <= a < b < buckets.len() ==> !same_bucket(
            jobs[buckets[a]@[0] as int],
            jobs[buckets[b]@[0] as int],
        )
    &&& forall|a: int, b: int, j: int, k: int|
        #![trigger buckets[a]@[j], buckets[b]@[k]]
        0 <= a < b < buckets.len() && 0 <= j < buckets[a]@.len() && 0 <= k < buckets[b]@.len()
            ==> buckets[a]@[j] != buckets[b]@[k]
    &&& forall|i: int| 0 <= i < n ==> has_bucket(buckets, i)
}

/// Whether a position has a bucket.
pub open spec fn has_bucket(buckets: Seq<Vec<usize>>, i: int) -> bool {
    exists|b: int| #[trigger] in_bucket(buckets, b, i)
}

/// Gathers searches that can be answered together.
pub fn gather_buckets(jobs: &Vec<SearchJob>) -> (r: Vec<Vec<usize>>)
    ensures
        buckets_of(jobs@, jobs@.len() as int, r@),
{
    let mut buckets: Vec<Vec<usize>> = Vec::new();
    let mut n: usize = 0;
    while n < jobs.len()
        invariant
            n <= jobs@.len(),
            buckets_of(jobs@, n as int, buckets@),
        decreases jobs.len() - n,
    {
        let ghost before = buckets@;
        let mut b: usize = 0;
        while b < buckets.len() && !fits_bucket(&jobs[buckets[b][0]], &jobs[n])
            invariant
                b <= buckets@.len(),
                n < jobs@.len(),
                buckets@ == before,
                buckets_of(jobs@, n as int, before),
                forall|k: int|
                    0 <= k < b ==> !same_bucket(
                        jobs@[(#[trigger] before[k])@[0] as int],
                        jobs@[n as int],
                    ),
            decreases buckets.len() - b,
        {
            assert(before[b as int]@[0] < n);
            b += 1;
            if b < buckets.len() {
                assert(before[b as int]@.len() > 0);
                assert(before[b as int]@[0] < n);
            }
        }
        if b == buckets.len() {
            buckets.push(vec![n]);
        } else {
            let ghost members = buckets@[b as int]@;
            buckets[b].push(n);
            assert(buckets@[b as int]@ == members.push(n));
            assert(buckets@ == before.update(b as int, buckets@[b as int]));
        }
        proof {
            let after = buckets@;
            assert forall|i: int| 0 <= i < n + 1 implies has_bucket(after, i) by {
                if i < n {
                    assert(has_bucket(before, i));
                    let c = choose|c: int| #[trigger] in_bucket(before, c, i);
                    let x = choose|x: int|
                        0 <= x < before[c]@.len() && before[c]@[x] == i as usize;
                    assert(after[c]@[x] == i as usize);
                    assert(in_bucket(after, c, i));
                } else {
                    let last = after[b as int]@.len() - 1;
                    assert(after[b as int]@[last] == n);
                    assert(in_bucket(after, b as int, i));
                }
            }
            assert forall|c: int, k: int|
                #![trigger after[c]@[k]]
                0 <= c < after.len() && 0 <= k < after[c]@.len() implies after[c]@[k] < n + 1 && (k
                > 0 ==> same_bucket(jobs@[after[c]@[0] as int], jobs@[after[c]@[k] as int])) by {
                if c < before.len() && k < before[c]@.len() {
                    assert(before[c]@[k] < n);
                    assert(after[c]@[k] == before[c]@[k]);
                    assert(before[c]@[0] < n);
                    assert(after[c]@[0] == before[c]@[0]);
                } else if c < before.len() {
                    assert(c == b);
                    assert(before[c]@[0] < n);
                    assert(after[c]@[0] == before[c]@[0]);
                }
            }
            assert forall|c: int, j: int, k: int|
                #![trigger after[c]@[j], after[c]@[k]]
                0 <= c < after.len() && 0 <= j < k < after[c]@.len() implies after[c]@[j]
                < after[c]@[k] by {
                if c < before.len() {
                    assert(after[c]@[j] == before[c]@[j]);
                    assert(before[c]@[j] < n);
                    if k < before[c]@.len() {
                        assert(after[c]@[k] == before[c]@[k]);
                        assert(before[c]@[j] < before[c]@[k]);
                    }
                }
            }
            assert forall|x: int, y: int, j: int, k: int|
                #![trigger after[x]@[j], after[y]@[k]]
                0 <= x < y < after.len() && 0 <= j < after[x]@.len() && 0 <= k
                    < after[y]@.len() implies after[x]@[j] != after[y]@[k] by {
                if j < before[x]@.len() {
                    assert(after[x]@[j] == before[x]@[j]);
                    assert(before[x]@[j] < n);
                }
                if y < before.len() && k < before[y]@.len() {
                    assert(after[y]@[k] == before[y]@[k]);
                    assert(before[y]@[k] < n);
                }
            }
            assert forall|x: int, y: int|
                #![trigger after[x], after[y]]
                0 <= x < y < after.len() implies !same_bucket(
                jobs@[after[x]@[0] as int],
                jobs@[after[y]@[0] as int],
            ) by {
                assert(before[x]@.len() > 0);
                assert(after[x]@[0] == before[x]@[0]);
                if y < before.len() {
                    assert(before[y]@.len() > 0);
                    assert(after[y]@[0] == before[y]@[0]);
                }
            }
        }
        n += 1;
    }
    buckets
}

/// Equal settings ask for the same: as many results, from the same threshold on,
/// with the same tags, filter, joins, groups, facets and weights.
pub proof fn equal_settings_ask_for_the_same(a: SearchQuerySettings, b: SearchQuerySettings, i: int)
    requires
        settings_equal(a, b),
    ensures
        a.limit == b.limit && a.score_threshold == b.score_threshold,
        a.document_tags_match_all == b.document_tags_match_all && a.raw_scores == b.raw_scores,
        a.document_tags is Some <==> b.document_tags is Some,
        a.document_tags matches Some(x) ==> text::views(x@) == text::views(b.document_tags->0@),
        a.metadata_filter is Some <==> b.metadata_filter is Some,
        a.metadata_filter matches Some(x) ==> x@.equals(b.metadata_filter->0@),
        a.fusion_mode@ == b.fusion_mode@,
        a.group_max == b.group_max && a.group_max_fetches == b.group_max_fetches && a.facets
            == b.facets && a.facet_options == b.facet_options,
        a.group_field is Some <==> b.group_field is Some,
        a.group_field matches Some(x) ==> x@ == b.group_field->0@,
        a.join is Some <==> b.join is Some,
        a.join matches Some(JoinField::Single(x)) ==> (b.join matches Some(JoinField::Single(y))
            && x@ == y@),
        a.exclude is Some <==> b.exclude is Some,
        a.exclude matches Some(x) ==> x@ == b.exclude->0@,
        a.custom_vectors is Some <==> b.custom_vectors is Some,
        a.vector_options@.len() == b.vector_options@.len(),
        0 <= i < a.vector_options@.len() ==> a.vector_options@[i].weight
            == b.vector_options@[i].weight && a.vector_options@[i].field
            == b.vector_options@[i].field && a.vector_options@[i].vector_name@
            == b.vector_options@[i].vector_name@ && a.vector_options@[i].wmtr_trigram_weight
            == b.vector_options@[i].wmtr_trigram_weight,
{
    if 0 <= i < a.vector_options@.len() {
        assert(same_option(a.vector_options@[i], b.vector_options@[i]));
    }
}

/// Settings without custom vectors and without a filter are equal to themselves.
pub proof fn settings_equal_themselves(a: SearchQuerySettings)
    requires
        a.custom_vectors is None,
        a.metadata_filter is None,
    ensures
        settings_equal(a, a),
{
}

/// Searches are gathered exactly by what they ask for: every search is in one
/// bucket, and two are in one exactly if they are on one collection with equal
/// settings as the first of the bucket.
pub proof fn searches_are_gathered_by_what_they_ask_for(
    jobs: Seq<SearchJob>,
    buckets: Seq<Vec<usize>>,
    b: int,
    k: int,
)
    requires
        buckets_of(jobs, jobs.len() as int, buckets),
        0 <= b < buckets.len(),
        0 <= k < buckets[b]@.len(),
    ensures
        buckets[b]@[k] < jobs.len(),
        k > 0 ==> {
            let first = jobs[buckets[b]@[0] as int];
            let other = jobs[buckets[b]@[k] as int];
            &&& first.collection_name@ == other.collection_name@
            &&& settings_equal(first.query.settings, other.query.settings)
        },
{
    assert(buckets[b]@[k] < jobs.len());
}

/// Every search has its bucket.
pub proof fn every_search_is_gathered(jobs: Seq<SearchJob>, buckets: Seq<Vec<usize>>, i: int)
    requires
        buckets_of(jobs, jobs.len() as int, buckets),
        0 <= i < jobs.len(),
    ensures
        exists|b: int| 0 <= b < buckets.len() && (#[trigger] buckets[b])@.contains(i as usize),
{
    assert(has_bucket(buckets, i));
    let b = choose|b: int| #[trigger] in_bucket(buckets, b, i);
    assert(buckets[b]@.contains(i as usize));
}

} // verus!
