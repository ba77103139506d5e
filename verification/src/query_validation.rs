//! Validation of search queries.

use vstd::prelude::*;
use crate::common::{
    SearchExcludeField, MAX_DOCUMENT_TAGS_COUNT, MAX_DOCUMENT_TAG_LENGTH, MAX_SEARCH_LIMIT,
    MAX_SEARCH_QUERY_LENGTH, MAX_VECTOR_NAME_LENGTH,
};
use crate::models::{
    CustomVector, FacetOptions, SearchQuery, SearchQuerySettings, VectorSearchOption,
};
use crate::text;
use crate::text::{
    char_count, debug_format, decimal_text, has_char, identifier, same_text, text2, text3, trimmed,
};
use crate::validation;
use crate::validation::{fail, validate_custom_vector, ValidationError};

verus! {

/// The largest values that a query's faceting options may have.
#[derive(Debug, Clone, Copy, PartialEq, Eq, Structural)]
pub struct FacetLimits {
    pub prefetch_multiplier: u32,
    pub max_values: u32,
}

/// What is wrong with a query's text.
pub open spec fn query_text_problem(query: Seq<char>) -> Option<Seq<char>> {
    if text::trim(query).len() == 0 {
        Some("query: Query string cannot be empty or whitespace"@)
    } else if query.len() > MAX_SEARCH_QUERY_LENGTH {
        Some("query: ensure this value has at most 10000 characters"@)
    } else {
        None
    }
}

/// What is wrong with the number of results asked for.
pub open spec fn limit_problem(limit: u32) -> Option<Seq<char>> {
    if limit < 1 {
        Some("limit: ensure this value is greater than or equal to 1"@)
    } else if limit > MAX_SEARCH_LIMIT {
        Some("limit: ensure this value is less than or equal to 100"@)
    } else {
        None
    }
}

/// What is wrong with a tag that documents are filtered by.
pub open spec fn query_tag_problem(tag: Seq<char>) -> Option<Seq<char>> {
    let t = text::trim(tag);
    if t.len() == 0 {
        Some("document_tags: Document tags cannot be empty or whitespace"@)
    } else if t.contains('|') {
        Some("document_tags: Document tag '"@ + t + "' cannot contain pipe characters (|)"@)
    } else if t.len() > MAX_DOCUMENT_TAG_LENGTH {
        Some("document_tags: Document tag '"@ + t + "' exceeds 100 character limit"@)
    } else {
        None
    }
}

/// The first problem of the tags.
pub open spec fn each_tag_problem(tags: Seq<Seq<char>>) -> Option<Seq<char>>
    decreases tags.len(),
{
    if tags.len() == 0 {
        None
    } else {
        validation::first(query_tag_problem(tags[0]), each_tag_problem(tags.drop_first()))
    }
}

/// What is wrong with the tags that documents are filtered by.
pub open spec fn query_tags_problem(tags: Option<Vec<String>>) -> Option<Seq<char>> {
    match tags {
        Some(tags) => if tags@.len() > MAX_DOCUMENT_TAGS_COUNT {
            Some("document_tags: ensure this value has at most 50 items"@)
        } else {
            each_tag_problem(text::views(tags@))
        },
        None => None,
    }
}

/// What is wrong with the name of a weighted vector, taken as it stands.
pub open spec fn option_name_problem(name: Seq<char>) -> Option<Seq<char>> {
    if text::trim(name).len() == 0 {
        Some("vector_options.vector_name: Vector name cannot be empty or whitespace"@)
    } else if !text::is_identifier(name) {
        Some(
            "vector_options.vector_name: Vector name can only contain letters, numbers, underscores, and hyphens"@,
        )
    } else if name.len() > MAX_VECTOR_NAME_LENGTH {
        Some("vector_options.vector_name: Vector name cannot exceed 100 characters"@)
    } else {
        None
    }
}

/// The first problem of the weighted vectors.
pub open spec fn options_problem(options: Seq<VectorSearchOption>) -> Option<Seq<char>>
    decreases options.len(),
{
    if options.len() == 0 {
        None
    } else {
        validation::first(
            option_name_problem(options[0].vector_name@),
            options_problem(options.drop_first()),
        )
    }
}

/// The first problem of the query's custom vectors.
pub open spec fn query_customs_problem(v: Seq<CustomVector>) -> Option<Seq<char>>
    decreases v.len(),
{
    if v.len() == 0 {
        None
    } else {
        validation::first(
            validation::first(
                validation::custom_name_problem(v[0].vector_name@),
                validation::vector_data_problem(v[0].vector@),
            ),
            query_customs_problem(v.drop_first()),
        )
    }
}

/// What is wrong with the fusion mode.
pub open spec fn fusion_mode_problem(mode: Seq<char>) -> Option<Seq<char>> {
    if mode == "rrf"@ || mode == "linear"@ {
        None
    } else {
        Some("fusion_mode must be one of ['rrf', 'linear'], got "@ + text::debug_text(mode))
    }
}

/// What is wrong with the grouping.
pub open spec fn grouping_problem(group_max: u32, group_max_fetches: u32) -> Option<Seq<char>> {
    if group_max < 1 {
        Some("group_max: ensure this value is greater than or equal to 1"@)
    } else if group_max_fetches < 1 {
        Some("group_max_fetches: ensure this value is greater than or equal to 1"@)
    } else {
        None
    }
}

/// What is wrong with the faceting options.
pub open spec fn facets_problem(options: Option<FacetOptions>, limits: FacetLimits) -> Option<
    Seq<char>,
> {
    match options {
        Some(o) => if o.prefetch_multiplier < 1 || o.prefetch_multiplier
            > limits.prefetch_multiplier {
            Some(
                "facet_options.prefetch_multiplier: ensure this value is between 1 and "@
                    + text::decimal(limits.prefetch_multiplier as nat),
            )
        } else if o.max_values < 1 || o.max_values > limits.max_values {
            Some(
                "facet_options.max_values: ensure this value is between 1 and "@ + text::decimal(
                    limits.max_values as nat,
                ),
            )
        } else {
            None
        },
        None => None,
    }
}

/// What is wrong with a search query.
pub open spec fn search_query_problem(q: SearchQuery, limits: FacetLimits) -> Option<Seq<char>> {
    let s = q.settings;
    validation::first(
        query_text_problem(q.query@),
        validation::first(
            limit_problem(s.limit),
            validation::first(
                query_tags_problem(s.document_tags),
                validation::first(
                    options_problem(s.vector_options@),
                    validation::first(
                        match s.custom_vectors {
                            Some(v) => query_customs_problem(v@),
                            None => None,
                        },
                        validation::first(
                            fusion_mode_problem(s.fusion_mode@),
                            validation::first(
                                grouping_problem(s.group_max, s.group_max_fetches),
                                facets_problem(s.facet_options, limits),
                            ),
                        ),
                    ),
                ),
            ),
        ),
    )
}

fn validate_query_text(query: &str) -> (r: Result<(), ValidationError>)
    ensures
        validation::problem(r) == query_text_problem(query@),
{
    let stripped = trimmed(query);
    if char_count(stripped.as_str()) == 0 {
        return fail("query: Query string cannot be empty or whitespace");
    }
    if char_count(query) > MAX_SEARCH_QUERY_LENGTH {
        return fail("query: ensure this value has at most 10000 characters");
    }
    Ok(())
}

fn validate_limit(limit: u32) -> (r: Result<(), ValidationError>)
    ensures
        validation::problem(r) == limit_problem(limit),
{
    if limit < 1 {
        return fail("limit: ensure this value is greater than or equal to 1");
    }
    if limit > MAX_SEARCH_LIMIT {
        return fail("limit: ensure this value is less than or equal to 100");
    }
    Ok(())
}

fn validate_query_tag(tag: &str) -> (r: Result<(), ValidationError>)
    ensures
        validation::problem(r) == query_tag_problem(tag@),
{
    let t = trimmed(tag);
    let n = char_count(t.as_str());
    if n == 0 {
        return fail("document_tags: Document tags cannot be empty or whitespace");
    }
    if has_char(t.as_str(), '|') {
        return Err(
            ValidationError(
                text3(
                    "document_tags: Document tag '",
                    t.as_str(),
                    "' cannot contain pipe characters (|)",
                ),
            ),
        );
    }
    if n > MAX_DOCUMENT_TAG_LENGTH {
        return Err(
            ValidationError(
                text3(
                    "document_tags: Document tag '",
                    t.as_str(),
                    "' exceeds 100 character limit",
                ),
            ),
        );
    }
    Ok(())
}

fn validate_query_tags(tags: &Option<Vec<String>>) -> (r: Result<(), ValidationError>)
    ensures
        validation::problem(r) == query_tags_problem(*tags),
{
    if let Some(list) = tags {
        if list.len() > MAX_DOCUMENT_TAGS_COUNT {
            return fail("document_tags: ensure this value has at most 50 items");
        }
        let ghost all = text::views(list@);
        let mut i: usize = 0;
        assert(all.skip(0) =~= all);
        while i < list.len()
            invariant
                i <= list@.len(),
                list@.len() <= MAX_DOCUMENT_TAGS_COUNT,
                *tags == Some(*list),
                all == text::views(list@),
                each_tag_problem(all) == each_tag_problem(all.skip(i as int)),
            decreases list.len() - i,
        {
            assert(all.skip(i as int)[0] == list@[i as int]@);
            assert(all.skip(i as int).drop_first() =~= all.skip(i as int + 1));
            let r = validate_query_tag(list[i].as_str());
            if r.is_err() {
                return r;
            }
            i += 1;
        }
    }
    Ok(())
}

fn validate_search_vector_name(name: &str) -> (r: Result<(), ValidationError>)
    ensures
        validation::problem(r) == option_name_problem(name@),
{
    let stripped = trimmed(name);
    if char_count(stripped.as_str()) == 0 {
        return fail("vector_options.vector_name: Vector name cannot be empty or whitespace");
    }
    if !identifier(name) {
        return fail(
            "vector_options.vector_name: Vector name can only contain letters, numbers, underscores, and hyphens",
        );
    }
    if char_count(name) > MAX_VECTOR_NAME_LENGTH {
        return fail("vector_options.vector_name: Vector name cannot exceed 100 characters");
    }
    Ok(())
}

fn validate_options(options: &Vec<VectorSearchOption>) -> (r: Result<(), ValidationError>)
    ensures
        validation::problem(r) == options_problem(options@),
{
    let mut i: usize = 0;
    assert(options@.skip(0) =~= options@);
    while i < options.len()
        invariant
            i <= options@.len(),
            options_problem(options@) == options_problem(options@.skip(i as int)),
        decreases options.len() - i,
    {
        assert(options@.skip(i as int)[0] == options@[i as int]);
        assert(options@.skip(i as int).drop_first() =~= options@.skip(i as int + 1));
        let r = validate_search_vector_name(options[i].vector_name.as_str());
        if r.is_err() {
            return r;
        }
        i += 1;
    }
    Ok(())
}

fn validate_query_customs(v: &Vec<CustomVector>) -> (r: Result<(), ValidationError>)
    ensures
        validation::problem(r) == query_customs_problem(v@),
{
    let mut i: usize = 0;
    assert(v@.skip(0) =~= v@);
    while i < v.len()
        invariant
            i <= v@.len(),
            query_customs_problem(v@) == query_customs_problem(v@.skip(i as int)),
        decreases v.len() - i,
    {
        assert(v@.skip(i as int)[0] == v@[i as int]);
        assert(v@.skip(i as int).drop_first() =~= v@.skip(i as int + 1));
        let r = validate_custom_vector(v[i].vector_name.as_str(), &v[i].vector);
        if r.is_err() {
            return r;
        }
        i += 1;
    }
    Ok(())
}

fn validate_fusion_mode(s: &str) -> (r: Result<(), ValidationError>)
    ensures
        validation::problem(r) == fusion_mode_problem(s@),
{
    if same_text(s, "rrf") || same_text(s, "linear") {
        return Ok(());
    }
    let shown = debug_format(s);
    Err(
        ValidationError(
            text2("fusion_mode must be one of ['rrf', 'linear'], got ", shown.as_str()),
        ),
    )
}

fn validate_grouping(group_max: u32, group_max_fetches: u32) -> (r: Result<(), ValidationError>)
    ensures
        validation::problem(r) == grouping_problem(group_max, group_max_fetches),
{
    if group_max < 1 {
        return fail("group_max: ensure this value is greater than or equal to 1");
    }
    if group_max_fetches < 1 {
        return fail("group_max_fetches: ensure this value is greater than or equal to 1");
    }
    Ok(())
}

fn validate_facet_options(options: &Option<FacetOptions>, limits: FacetLimits) -> (r: Result<
    (),
    ValidationError,
>)
    ensures
        validation::problem(r) == facets_problem(*options, limits),
{
    if let Some(o) = options {
        if o.prefetch_multiplier < 1 || o.prefetch_multiplier > limits.prefetch_multiplier {
            let most = decimal_text(limits.prefetch_multiplier as u64);
            return Err(
                ValidationError(
                    text2(
                        "facet_options.prefetch_multiplier: ensure this value is between 1 and ",
                        most.as_str(),
                    ),
                ),
            );
        }
        if o.max_values < 1 || o.max_values > limits.max_values {
            let most = decimal_text(limits.max_values as u64);
            return Err(
                ValidationError(
                    text2(
                        "facet_options.max_values: ensure this value is between 1 and ",
                        most.as_str(),
                    ),
                ),
            );
        }
    }
    Ok(())
}

/// Checks a search query.
pub fn validate_search_query(q: &SearchQuery, limits: FacetLimits) -> (r: Result<
    (),
    ValidationError,
>)
    ensures
        validation::problem(r) == search_query_problem(*q, limits),
{
    let s = &q.settings;
    let r = validate_query_text(q.query.as_str());
    if r.is_err() {
        return r;
    }
    let r = validate_limit(s.limit);
    if r.is_err() {
        return r;
    }
    let r = validate_query_tags(&s.document_tags);
    if r.is_err() {
        return r;
    }
    let r = validate_options(&s.vector_options);
    if r.is_err() {
        return r;
    }
    if let Some(v) = &s.custom_vectors {
        let r = validate_query_customs(v);
        if r.is_err() {
            return r;
        }
    }
    let r = validate_fusion_mode(s.fusion_mode.as_str());
    if r.is_err() {
        return r;
    }
    let r = validate_grouping(s.group_max, s.group_max_fetches);
    if r.is_err() {
        return r;
    }
    validate_facet_options(&s.facet_options, limits)
}

/// The fields without repetitions, each at its first place.
pub open spec fn first_occurrences(fields: Seq<SearchExcludeField>) -> Seq<SearchExcludeField>
    decreases fields.len(),
{
    if fields.len() == 0 {
        Seq::empty()
    } else {
        let rest = first_occurrences(fields.drop_last());
        if rest.contains(fields.last()) {
            rest
        } else {
            rest.push(fields.last())
        }
    }
}

/// Repetitions are removed once and for all, and no field is lost.
pub proof fn first_occurrences_are_distinct(fields: Seq<SearchExcludeField>)
    ensures
        first_occurrences(fields).no_duplicates(),
        forall|f: SearchExcludeField|
            fields.contains(f) <==> #[trigger] first_occurrences(fields).contains(f),
        first_occurrences(first_occurrences(fields)) == first_occurrences(fields),
    decreases fields.len(),
{
    if fields.len() > 0 {
        let init = fields.drop_last();
        let rest = first_occurrences(init);
        first_occurrences_are_distinct(init);
        assert forall|f: SearchExcludeField|
            fields.contains(f) <==> #[trigger] first_occurrences(fields).contains(f) by {
            if fields.contains(f) {
                let i = choose|i: int| 0 <= i < fields.len() && fields[i] == f;
                if i < init.len() {
                    assert(init[i] == f);
                    assert(rest.contains(f));
                }
            }
            if init.contains(f) {
                let i = choose|i: int| 0 <= i < init.len() && init[i] == f;
                assert(fields[i] == f);
            }
            let last = fields.last();
            assert(fields[fields.len() - 1] == last);
            if !rest.contains(last) {
                let r = rest.push(last);
                assert(r[rest.len() as int] == last);
                if rest.contains(f) {
                    let i = choose|i: int| 0 <= i < rest.len() && rest[i] == f;
                    assert(r[i] == f);
                }
                if r.contains(f) {
                    let i = choose|i: int| 0 <= i < r.len() && r[i] == f;
                    if i < rest.len() {
                        assert(rest[i] == f);
                    }
                }
            }
        }
        if !rest.contains(fields.last()) {
            assert(rest.push(fields.last()).drop_last() =~= rest);
        }
    } else {
        assert(first_occurrences(fields) =~= fields);
    }
}

/// Whether the settings are those before with trimmed names and without
/// repeated exclusions.
pub open spec fn settings_normalized(old: SearchQuerySettings, new: SearchQuerySettings) -> bool {
    &&& new.vector_options@.len() == old.vector_options@.len()
    &&& forall|i: int|
        0 <= i < old.vector_options@.len() ==> {
            let a = old.vector_options@[i];
            let b = #[trigger] new.vector_options@[i];
            &&& b.vector_name@ == text::trim(a.vector_name@)
            &&& b.weight == a.weight
            &&& b.field == a.field
            &&& b.wmtr_trigram_weight == a.wmtr_trigram_weight
        }
    &&& match (old.custom_vectors, new.custom_vectors) {
        (None, None) => true,
        (Some(a), Some(b)) => query_customs_trimmed(a@, b@),
        _ => false,
    }
    &&& match (old.exclude, new.exclude) {
        (None, None) => true,
        (Some(a), Some(b)) => b@ == first_occurrences(a@),
        _ => false,
    }
    &&& new == (SearchQuerySettings {
        vector_options: new.vector_options,
        custom_vectors: new.custom_vectors,
        exclude: new.exclude,
        ..old
    })
}

/// Whether custom vectors are those before with trimmed names.
pub open spec fn query_customs_trimmed(old: Seq<CustomVector>, new: Seq<CustomVector>) -> bool {
    &&& new.len() == old.len()
    &&& forall|i: int|
        0 <= i < old.len() ==> (#[trigger] new[i]).vector_name@ == text::trim(old[i].vector_name@)
            && new[i].vector == old[i].vector
}

fn trim_custom_names(v: &mut Vec<CustomVector>)
    ensures
        query_customs_trimmed(old(v)@, final(v)@),
{
    let ghost before = v@;
    let mut i: usize = 0;
    while i < v.len()
        invariant
            i <= v@.len(),
            v@.len() == before.len(),
            forall|k: int| i <= k < v@.len() ==> #[trigger] v@[k] == before[k],
            forall|k: int|
                0 <= k < i ==> (#[trigger] v@[k]).vector_name@ == text::trim(
                    before[k].vector_name@,
                ) && v@[k].vector == before[k].vector,
        decreases v.len() - i,
    {
        let name = trimmed(v[i].vector_name.as_str());
        let ghost mid = v@;
        v[i].vector_name = name;
        assert(v@ == mid.update(i as int, v@[i as int]));
        i += 1;
    }
}

fn trim_option_names(v: &mut Vec<VectorSearchOption>)
    ensures
        final(v)@.len() == old(v)@.len(),
        forall|i: int|
            0 <= i < old(v)@.len() ==> {
                let a = old(v)@[i];
                let b = #[trigger] final(v)@[i];
                &&& b.vector_name@ == text::trim(a.vector_name@)
                &&& b.weight == a.weight
                &&& b.field == a.field
                &&& b.wmtr_trigram_weight == a.wmtr_trigram_weight
            },
{
    let ghost before = v@;
    let mut i: usize = 0;
    while i < v.len()
        invariant
            i <= v@.len(),
            v@.len() == before.len(),
            forall|k: int| i <= k < v@.len() ==> #[trigger] v@[k] == before[k],
            forall|k: int|
                0 <= k < i ==> (#[trigger] v@[k]).vector_name@ == text::trim(
                    before[k].vector_name@,
                ) && v@[k].weight == before[k].weight && v@[k].field == before[k].field
                    && v@[k].wmtr_trigram_weight == before[k].wmtr_trigram_weight,
        decreases v.len() - i,
    {
        let name = trimmed(v[i].vector_name.as_str());
        let ghost mid = v@;
        v[i].vector_name = name;
        assert(v@ == mid.update(i as int, v@[i as int]));
        i += 1;
    }
}

fn without_repetitions(fields: &Vec<SearchExcludeField>) -> (r: Vec<SearchExcludeField>)
    ensures
        r@ == first_occurrences(fields@),
{
    let mut out: Vec<SearchExcludeField> = Vec::new();
    let mut i: usize = 0;
    assert(fields@.take(0) =~= Seq::empty());
    while i < fields.len()
        invariant
            i <= fields@.len(),
            out@ == first_occurrences(fields@.take(i as int)),
        decreases fields.len() - i,
    {
        assert(fields@.take(i as int + 1).drop_last() =~= fields@.take(i as int));
        assert(fields@.take(i as int + 1).last() == fields@[i as int]);
        let mut seen = false;
        let mut k: usize = 0;
        while k < out.len()
            invariant
                k <= out@.len(),
                i < fields@.len(),
                seen <==> exists|j: int| 0 <= j < k && out@[j] == fields@[i as int],
            decreases out.len() - k,
        {
            if out[k] == fields[i] {
                assert(out@[k as int] == fields@[i as int]);
                seen = true;
            }
            k += 1;
        }
        if !seen {
            out.push(fields[i]);
        }
        i += 1;
    }
    assert(fields@.take(i as int) =~= fields@);
    out
}

/// Removes the white space around the vectors' names of a query and the
/// repetitions among its exclusions. Comes after [`validate_search_query`].
pub fn normalize_search_query_python(q: &mut SearchQuery)
    ensures
        final(q).query == old(q).query,
        settings_normalized(old(q).settings, final(q).settings),
{
    trim_option_names(&mut q.settings.vector_options);
    let mut customs: Option<Vec<CustomVector>> = None;
    std::mem::swap(&mut customs, &mut q.settings.custom_vectors);
    q.settings.custom_vectors = match customs {
        Some(mut v) => {
            trim_custom_names(&mut v);
            Some(v)
        },
        None => None,
    };
    let exclude = match &q.settings.exclude {
        Some(fields) => Some(without_repetitions(fields)),
        None => None,
    };
    q.settings.exclude = exclude;
}

proof fn lemma_each_tag(tags: Seq<Seq<char>>)
    ensures
        each_tag_problem(tags) is None <==> forall|i: int|
            0 <= i < tags.len() ==> query_tag_problem(#[trigger] tags[i]) is None,
    decreases tags.len(),
{
    if tags.len() > 0 {
        let rest = tags.drop_first();
        lemma_each_tag(rest);
        assert(forall|i: int| 0 <= i < rest.len() ==> #[trigger] rest[i] == tags[i + 1]);
        if each_tag_problem(tags) is None {
            assert forall|i: int| 0 <= i < tags.len() implies query_tag_problem(
                #[trigger] tags[i],
            ) is None by {
                if i > 0 {
                    assert(rest[i - 1] == tags[i]);
                }
            }
        }
    }
}

proof fn lemma_each_option(v: Seq<VectorSearchOption>)
    ensures
        options_problem(v) is None <==> forall|i: int|
            0 <= i < v.len() ==> option_name_problem((#[trigger] v[i]).vector_name@) is None,
    decreases v.len(),
{
    if v.len() > 0 {
        let rest = v.drop_first();
        lemma_each_option(rest);
        assert(forall|i: int| 0 <= i < rest.len() ==> #[trigger] rest[i] == v[i + 1]);
        if options_problem(v) is None {
            assert forall|i: int| 0 <= i < v.len() implies option_name_problem(
                (#[trigger] v[i]).vector_name@,
            ) is None by {
                if i > 0 {
                    assert(rest[i - 1] == v[i]);
                }
            }
        }
    }
}

proof fn lemma_each_custom(v: Seq<CustomVector>)
    ensures
        query_customs_problem(v) is None <==> forall|i: int|
            0 <= i < v.len() ==> validation::custom_name_problem((#[trigger] v[i]).vector_name@)
                is None && validation::vector_data_problem(v[i].vector@) is None,
    decreases v.len(),
{
    if v.len() > 0 {
        let rest = v.drop_first();
        lemma_each_custom(rest);
        assert(forall|i: int| 0 <= i < rest.len() ==> #[trigger] rest[i] == v[i + 1]);
        if query_customs_problem(v) is None {
            assert forall|i: int| 0 <= i < v.len() implies validation::custom_name_problem(
                (#[trigger] v[i]).vector_name@,
            ) is None && validation::vector_data_problem(v[i].vector@) is None by {
                if i > 0 {
                    assert(rest[i - 1] == v[i]);
                }
            }
        }
    }
}

/// The tags of a query are accepted exactly if there are at most fifty and each,
/// without the white space around it, has between one and a hundred characters
/// and no pipe among them.
pub proof fn short_query_tags_are_accepted(tags: Vec<String>)
    ensures
        query_tags_problem(Some(tags)) is None <==> tags@.len() <= 50 && forall|i: int|
            0 <= i < tags@.len() ==> 0 < text::trim((#[trigger] tags@[i])@).len() <= 100
                && !text::trim(tags@[i]@).contains('|'),
        query_tags_problem(None) is None,
{
    let v = text::views(tags@);
    lemma_each_tag(v);
    assert(forall|i: int| 0 <= i < v.len() ==> #[trigger] v[i] == tags@[i]@);
    if query_tags_problem(Some(tags)) is None {
        assert forall|i: int| 0 <= i < tags@.len() implies 0 < text::trim(
            (#[trigger] tags@[i])@,
        ).len() <= 100 && !text::trim(tags@[i]@).contains('|') by {
            assert(query_tag_problem(v[i]) is None);
        }
    }
}

/// A query is accepted exactly if its text is not blank and has at most ten
/// thousand characters, it asks for between one and a hundred results, its tags
/// and its vectors are accepted, the names of its options are plain, it is fused
/// by rank or linearly, groups and fetches are at least one, and the settings of
/// facets are at least one and within the limits.
pub proof fn queries_are_accepted_within_limits(q: SearchQuery, limits: FacetLimits)
    ensures
        search_query_problem(q, limits) is None <==> {
            let s = q.settings;
            &&& text::trim(q.query@).len() > 0 && q.query@.len() <= 10_000
            &&& 1 <= s.limit <= 100
            &&& query_tags_problem(s.document_tags) is None
            &&& forall|i: int|
                0 <= i < s.vector_options@.len() ==> text::trim(
                    (#[trigger] s.vector_options@[i]).vector_name@,
                ).len() > 0 && validation::plain_up_to(s.vector_options@[i].vector_name@, 100)
            &&& s.custom_vectors matches Some(v) ==> forall|i: int|
                0 <= i < v@.len() ==> validation::custom_name_problem(
                    (#[trigger] v@[i]).vector_name@,
                ) is None && validation::vector_data_problem(v@[i].vector@) is None
            &&& s.fusion_mode@ == "rrf"@ || s.fusion_mode@ == "linear"@
            &&& s.group_max >= 1 && s.group_max_fetches >= 1
            &&& s.facet_options matches Some(o) ==> 1 <= o.prefetch_multiplier
                <= limits.prefetch_multiplier && 1 <= o.max_values <= limits.max_values
        },
{
    let s = q.settings;
    let v = s.vector_options@;
    lemma_each_option(v);
    if let Some(c) = s.custom_vectors {
        lemma_each_custom(c@);
    }
    assert forall|i: int| 0 <= i < v.len() implies (option_name_problem(
        (#[trigger] v[i]).vector_name@,
    ) is None <==> text::trim(v[i].vector_name@).len() > 0 && validation::plain_up_to(
        v[i].vector_name@,
        100,
    )) by {
        text::identifiers_are_plain(v[i].vector_name@);
    }
    if options_problem(v) is None {
        assert forall|i: int| 0 <= i < v.len() implies text::trim(
            (#[trigger] v[i]).vector_name@,
        ).len() > 0 && validation::plain_up_to(v[i].vector_name@, 100) by {
            assert(option_name_problem(v[i].vector_name@) is None);
        }
    }
    if forall|i: int|
        0 <= i < v.len() ==> text::trim((#[trigger] v[i]).vector_name@).len() > 0
            && validation::plain_up_to(v[i].vector_name@, 100) {
        assert forall|i: int| 0 <= i < v.len() implies option_name_problem(
            (#[trigger] v[i]).vector_name@,
        ) is None by {}
    }
}

/// Normalizing the settings of a query trims the names in them, drops repeated
/// exclusions and changes nothing else.
pub proof fn normalizing_settings_keeps_what_is_asked_for(
    old: SearchQuerySettings,
    new: SearchQuerySettings,
    i: int,
)
    requires
        settings_normalized(old, new),
    ensures
        new.limit == old.limit && new.score_threshold == old.score_threshold,
        new.document_tags == old.document_tags && new.document_tags_match_all
            == old.document_tags_match_all,
        new.metadata_filter == old.metadata_filter && new.raw_scores == old.raw_scores,
        new.fusion_mode == old.fusion_mode && new.join == old.join,
        new.group_field == old.group_field && new.group_max == old.group_max
            && new.group_max_fetches == old.group_max_fetches,
        new.facets == old.facets && new.facet_options == old.facet_options,
        new.vector_options@.len() == old.vector_options@.len(),
        0 <= i < old.vector_options@.len() ==> new.vector_options@[i].weight
            == old.vector_options@[i].weight && new.vector_options@[i].field
            == old.vector_options@[i].field && new.vector_options@[i].vector_name@ == text::trim(
            old.vector_options@[i].vector_name@,
        ),
        new.exclude matches Some(b) ==> (old.exclude matches Some(a) && forall|f: SearchExcludeField|
            #[trigger] a@.contains(f) <==> b@.contains(f)),
{
    if let Some(a) = old.exclude {
        first_occurrences_are_distinct(a@);
    }
}

} // verus!
