//! Validation of a collection's configuration.

use vstd::prelude::*;
use crate::common::{
    DenseDistance, VectorType, MAX_METADATA_KEY_LENGTH, MAX_MODEL_NAME_LENGTH, MAX_TOP_K_VALUE,
    MAX_VECTOR_DIMENSIONS, MAX_VECTOR_NAME_LENGTH,
};
use crate::json::{Double, ONE_BITS};
use crate::models::{CollectionConfig, MetadataIndex, VectorConfig};
use crate::text;
use crate::text::{
    char_count, chars_of, identifier, joined, same_text, text2, text3, text5, trimmed,
};
use crate::validation;
use crate::validation::{fail, fail_with, ValidationError};

verus! {

/// What is wrong with a vector's name in a configuration. The name is taken as
/// it stands, white space and all.
pub open spec fn vector_name_problem(name: Seq<char>) -> Option<Seq<char>> {
    if text::trim(name).len() == 0 {
        Some("name: Vector configuration name cannot be empty or whitespace"@)
    } else if !text::is_identifier(name) {
        Some("name: Vector name can only contain letters, numbers, underscores, and hyphens"@)
    } else if name.len() > MAX_VECTOR_NAME_LENGTH {
        Some("name: Vector name cannot exceed 100 characters"@)
    } else {
        None
    }
}

fn validate_vector_name(name: &str) -> (r: Result<(), ValidationError>)
    ensures
        validation::problem(r) == vector_name_problem(name@),
{
    let stripped = trimmed(name);
    if char_count(stripped.as_str()) == 0 {
        return fail("name: Vector configuration name cannot be empty or whitespace");
    }
    if !identifier(name) {
        return fail(
            "name: Vector name can only contain letters, numbers, underscores, and hyphens",
        );
    }
    if char_count(name) > MAX_VECTOR_NAME_LENGTH {
        return fail("name: Vector name cannot exceed 100 characters");
    }
    Ok(())
}

/// What is wrong with the number of entries kept of a sparse vector.
pub open spec fn top_k_problem(top_k: u32) -> Option<Seq<char>> {
    if top_k == 0 {
        Some("top_k must be positive (greater than 0)"@)
    } else if top_k > MAX_TOP_K_VALUE {
        Some("top_k cannot exceed 10000"@)
    } else {
        None
    }
}

fn validate_top_k(top_k: u32) -> (r: Result<(), ValidationError>)
    ensures
        validation::problem(r) == top_k_problem(top_k),
{
    if top_k == 0 {
        return fail("top_k must be positive (greater than 0)");
    }
    if top_k > MAX_TOP_K_VALUE {
        return fail("top_k cannot exceed 10000");
    }
    Ok(())
}

pub open spec fn wmtr_word_ratio_problem(w: u32) -> Option<Seq<char>> {
    if w > 100 {
        Some("ensure this value is less than or equal to 100"@)
    } else {
        None
    }
}

fn validate_wmtr_word_ratio(w: u32) -> (r: Result<(), ValidationError>)
    ensures
        validation::problem(r) == wmtr_word_ratio_problem(w),
{
    if w > 100 {
        return fail("ensure this value is less than or equal to 100");
    }
    Ok(())
}

pub open spec fn language_confidence_problem(c: Double) -> Option<Seq<char>> {
    if Double::zero().at_most(c) && c.at_most(Double::one()) {
        None
    } else {
        Some("language_confidence must be between 0.0 and 1.0"@)
    }
}

fn validate_language_confidence(c: Double) -> (r: Result<(), ValidationError>)
    ensures
        validation::problem(r) == language_confidence_problem(c),
{
    let zero = Double { bits: 0 };
    let one = Double { bits: ONE_BITS };
    if zero.le(&c) && c.le(&one) {
        Ok(())
    } else {
        fail("language_confidence must be between 0.0 and 1.0")
    }
}

/// An ASCII letter.
pub open spec fn is_letter(c: char) -> bool {
    ('a' <= c && c <= 'z') || ('A' <= c && c <= 'Z')
}

pub open spec fn language_code_problem(code: Seq<char>) -> Option<Seq<char>> {
    if code.len() == 2 && is_letter(code[0]) && is_letter(code[1]) {
        None
    } else {
        Some("Language code must be a valid ISO 639-1 code (2 letters)"@)
    }
}

fn letter(c: char) -> (r: bool)
    ensures
        r == is_letter(c),
{
    ('a' <= c && c <= 'z') || ('A' <= c && c <= 'Z')
}

fn validate_language_code(code: &str) -> (r: Result<(), ValidationError>)
    ensures
        validation::problem(r) == language_code_problem(code@),
{
    let c = chars_of(code);
    if c.len() == 2 && letter(c[0]) && letter(c[1]) {
        Ok(())
    } else {
        fail("Language code must be a valid ISO 639-1 code (2 letters)")
    }
}

pub open spec fn dense_distance_problem(dist: DenseDistance, vtype: VectorType) -> Option<
    Seq<char>,
> {
    if !(dist is Cosine) && !vtype.spec_is_dense() {
        Some(
            "dense_distance can only be specified for dense vectors. Current type: "@
                + vtype.spec_name(),
        )
    } else {
        None
    }
}

fn validate_dense_distance(dist: DenseDistance, vtype: VectorType) -> (r: Result<
    (),
    ValidationError,
>)
    ensures
        validation::problem(r) == dense_distance_problem(dist, vtype),
{
    if !matches!(dist, DenseDistance::Cosine) && !vtype.is_dense() {
        return fail_with(
            text2(
                "dense_distance can only be specified for dense vectors. Current type: ",
                vtype.name(),
            ),
        );
    }
    Ok(())
}

pub open spec fn normalization_problem(norm: Option<bool>, vtype: VectorType) -> Option<Seq<char>> {
    if norm == Some(true) && !vtype.spec_is_dense() {
        Some(
            "Normalization is not supported for sparse vector type '"@ + vtype.spec_name()
                + "'. Only dense vectors support normalization."@,
        )
    } else {
        None
    }
}

fn validate_normalization(norm: Option<bool>, vtype: VectorType) -> (r: Result<
    (),
    ValidationError,
>)
    ensures
        validation::problem(r) == normalization_problem(norm, vtype),
{
    if let Some(true) = norm {
        if !vtype.is_dense() {
            return fail_with(
                text3(
                    "Normalization is not supported for sparse vector type '",
                    vtype.name(),
                    "'. Only dense vectors support normalization.",
                ),
            );
        }
    }
    Ok(())
}

/// What is wrong with the presence of a model.
pub open spec fn model_problem(v: VectorConfig) -> Option<Seq<char>> {
    if v.vector_type.spec_is_transformer_based() && v.model is None {
        Some("Model is required for "@ + v.vector_type.spec_name() + " vector type"@)
    } else if v.model is Some && v.vector_type.spec_is_custom_tokenization() {
        Some("Model should not be specified for "@ + v.vector_type.spec_name() + " vector type"@)
    } else {
        None
    }
}

fn validate_model_requirements(v: &VectorConfig) -> (r: Result<(), ValidationError>)
    ensures
        validation::problem(r) == model_problem(*v),
{
    if v.vector_type.is_transformer_based() && v.model.is_none() {
        return fail_with(text3("Model is required for ", v.vector_type.name(), " vector type"));
    }
    if v.model.is_some() && v.vector_type.is_custom_tokenization() {
        return fail_with(
            text3("Model should not be specified for ", v.vector_type.name(), " vector type"),
        );
    }
    Ok(())
}

/// What is wrong with a custom vector's model, or with the dimensions.
pub open spec fn custom_problem(v: VectorConfig) -> Option<Seq<char>> {
    if v.vector_type.spec_is_custom_vectors() && v.model is Some {
        Some("Model should not be specified for "@ + v.vector_type.spec_name() + " vector type"@)
    } else if v.vector_type is DenseCustom && v.dimensions is None {
        Some("Dimensions are required for "@ + v.vector_type.spec_name() + " vector type"@)
    } else {
        match v.dimensions {
            Some(dims) => if dims == 0 {
                Some("Dimensions must be positive (greater than 0)"@)
            } else if dims > MAX_VECTOR_DIMENSIONS {
                Some("Dimensions cannot exceed 8192"@)
            } else {
                None
            },
            None => None,
        }
    }
}

fn validate_custom_vector_config(v: &VectorConfig) -> (r: Result<(), ValidationError>)
    ensures
        validation::problem(r) == custom_problem(*v),
{
    if v.vector_type.is_custom_vectors() {
        if v.model.is_some() {
            return fail_with(
                text3("Model should not be specified for ", v.vector_type.name(), " vector type"),
            );
        }
        if matches!(v.vector_type, VectorType::DenseCustom) && v.dimensions.is_none() {
            return fail_with(
                text3("Dimensions are required for ", v.vector_type.name(), " vector type"),
            );
        }
    }
    if let Some(dims) = v.dimensions {
        if dims == 0 {
            return fail("Dimensions must be positive (greater than 0)");
        }
        if dims > MAX_VECTOR_DIMENSIONS {
            return fail("Dimensions cannot exceed 8192");
        }
    }
    Ok(())
}

/// What is wrong with the absence of a language.
pub open spec fn language_problem(v: VectorConfig) -> Option<Seq<char>> {
    if (v.vector_type is FullText || v.vector_type is Whitespace || v.vector_type is Wmtr)
        && v.language_default_code@.len() == 0 {
        Some("language_default_code is required for "@ + v.vector_type.spec_name() + " vector type"@)
    } else {
        None
    }
}

fn validate_language_config(v: &VectorConfig) -> (r: Result<(), ValidationError>)
    ensures
        validation::problem(r) == language_problem(*v),
{
    let needs_lang = matches!(
        v.vector_type,
        VectorType::FullText | VectorType::Whitespace | VectorType::Wmtr
    );
    if needs_lang && char_count(v.language_default_code.as_str()) == 0 {
        return fail_with(
            text3("language_default_code is required for ", v.vector_type.name(), " vector type"),
        );
    }
    Ok(())
}

/// What is wrong with the length of a model's name or revision.
pub open spec fn model_name_problem(field: Seq<char>, s: Option<String>) -> Option<Seq<char>> {
    match s {
        Some(s) => if s@.len() > MAX_MODEL_NAME_LENGTH {
            Some(field + ": ensure this value has at most 210 characters"@)
        } else {
            None
        },
        None => None,
    }
}

fn validate_model_name_length(field: &str, s: &Option<String>) -> (r: Result<(), ValidationError>)
    ensures
        validation::problem(r) == model_name_problem(field@, *s),
{
    if let Some(s) = s {
        if char_count(s.as_str()) > MAX_MODEL_NAME_LENGTH {
            return fail_with(text2(field, ": ensure this value has at most 210 characters"));
        }
    }
    Ok(())
}

/// The first of the problems.
pub open spec fn first_of(problems: Seq<Option<Seq<char>>>) -> Option<Seq<char>>
    decreases problems.len(),
{
    if problems.len() == 0 {
        None
    } else {
        validation::first(problems[0], first_of(problems.drop_first()))
    }
}

/// The problems of a vector's configuration, in the order of their checks.
pub open spec fn vector_config_problems(v: VectorConfig) -> Seq<Option<Seq<char>>> {
    seq![
        vector_name_problem(v.name@),
        top_k_problem(v.top_k),
        wmtr_word_ratio_problem(v.wmtr_word_ratio),
        language_confidence_problem(v.language_confidence),
        language_code_problem(v.language_default_code@),
        dense_distance_problem(v.dense_distance, v.vector_type),
        normalization_problem(v.normalization, v.vector_type),
        model_problem(v),
        custom_problem(v),
        language_problem(v),
        model_name_problem("model"@, v.model),
        model_name_problem("revision"@, v.revision),
        model_name_problem("query_model"@, v.query_model),
        model_name_problem("query_revision"@, v.query_revision),
    ]
}

/// What is wrong with a vector's configuration.
pub open spec fn vector_config_problem(v: VectorConfig) -> Option<Seq<char>> {
    first_of(vector_config_problems(v))
}

proof fn lemma_first_of(problems: Seq<Option<Seq<char>>>, i: int)
    requires
        0 <= i <= problems.len(),
        forall|k: int| 0 <= k < i ==> (#[trigger] problems[k]) is None,
    ensures
        i < problems.len() && problems[i] is Some ==> first_of(problems) == problems[i],
        i == problems.len() ==> first_of(problems) is None,
    decreases problems.len(),
{
    if problems.len() > 0 && i > 0 {
        assert(problems[0] is None);
        assert forall|k: int| 0 <= k < i - 1 implies (#[trigger] problems.drop_first()[k])
            is None by {
            assert(problems[k + 1] is None);
        }
        lemma_first_of(problems.drop_first(), i - 1);
    }
}

fn validate_vector_config(v: &VectorConfig) -> (r: Result<(), ValidationError>)
    ensures
        validation::problem(r) == vector_config_problem(*v),
{
    let ghost all = vector_config_problems(*v);
    let r = validate_vector_name(v.name.as_str());
    if r.is_err() {
        proof {
            lemma_first_of(all, 0);
        }
        return r;
    }
    let r = validate_top_k(v.top_k);
    if r.is_err() {
        proof {
            lemma_first_of(all, 1);
        }
        return r;
    }
    let r = validate_wmtr_word_ratio(v.wmtr_word_ratio);
    if r.is_err() {
        proof {
            lemma_first_of(all, 2);
        }
        return r;
    }
    let r = validate_language_confidence(v.language_confidence);
    if r.is_err() {
        proof {
            lemma_first_of(all, 3);
        }
        return r;
    }
    let r = validate_language_code(v.language_default_code.as_str());
    if r.is_err() {
        proof {
            lemma_first_of(all, 4);
        }
        return r;
    }
    let r = validate_dense_distance(v.dense_distance, v.vector_type);
    if r.is_err() {
        proof {
            lemma_first_of(all, 5);
        }
        return r;
    }
    let r = validate_normalization(v.normalization, v.vector_type);
    if r.is_err() {
        proof {
            lemma_first_of(all, 6);
        }
        return r;
    }
    let r = validate_model_requirements(v);
    if r.is_err() {
        proof {
            lemma_first_of(all, 7);
        }
        return r;
    }
    let r = validate_custom_vector_config(v);
    if r.is_err() {
        proof {
            lemma_first_of(all, 8);
        }
        return r;
    }
    let r = validate_language_config(v);
    if r.is_err() {
        proof {
            lemma_first_of(all, 9);
        }
        return r;
    }
    let r = validate_model_name_length("model", &v.model);
    if r.is_err() {
        proof {
            lemma_first_of(all, 10);
        }
        return r;
    }
    let r = validate_model_name_length("revision", &v.revision);
    if r.is_err() {
        proof {
            lemma_first_of(all, 11);
        }
        return r;
    }
    let r = validate_model_name_length("query_model", &v.query_model);
    if r.is_err() {
        proof {
            lemma_first_of(all, 12);
        }
        return r;
    }
    let r = validate_model_name_length("query_revision", &v.query_revision);
    proof {
        lemma_first_of(all, 13);
        if r is Ok {
            lemma_first_of(all, 14);
        }
    }
    r
}

/// Whether a metadata index can have values of the type.
pub open spec fn is_index_type(t: Seq<char>) -> bool {
    ||| t == "string"@
    ||| t == "integer"@
    ||| t == "float"@
    ||| t == "boolean"@
    ||| t == "datetime"@
}

/// What is wrong with a metadata index.
pub open spec fn metadata_index_problem(mi: MetadataIndex) -> Option<Seq<char>> {
    if !text::is_identifier(mi.key@) {
        Some(
            "metadata_indexes."@ + mi.key@
                + ": key can only contain letters, numbers, underscores, and hyphens"@,
        )
    } else if mi.key@.len() > MAX_METADATA_KEY_LENGTH {
        Some("metadata_indexes."@ + mi.key@ + ": key cannot exceed 100 characters"@)
    } else if !is_index_type(mi.value_type@) {
        Some(
            "metadata_indexes."@ + mi.key@ + ": invalid type '"@ + mi.value_type@
                + "'. Allowed types: [\"string\", \"integer\", \"float\", \"boolean\", \"datetime\"]"@,
        )
    } else {
        None
    }
}

fn validate_metadata_index(mi: &MetadataIndex) -> (r: Result<(), ValidationError>)
    ensures
        validation::problem(r) == metadata_index_problem(*mi),
{
    let key = mi.key.as_str();
    if !identifier(key) {
        return fail_with(
            text3(
                "metadata_indexes.",
                key,
                ": key can only contain letters, numbers, underscores, and hyphens",
            ),
        );
    }
    if char_count(key) > MAX_METADATA_KEY_LENGTH {
        return fail_with(text3("metadata_indexes.", key, ": key cannot exceed 100 characters"));
    }
    let t = mi.value_type.as_str();
    if same_text(t, "string") || same_text(t, "integer") || same_text(t, "float") || same_text(
        t,
        "boolean",
    ) || same_text(t, "datetime") {
        return Ok(());
    }
    fail_with(
        text5(
            "metadata_indexes.",
            key,
            ": invalid type '",
            t,
            "'. Allowed types: [\"string\", \"integer\", \"float\", \"boolean\", \"datetime\"]",
        ),
    )
}

/// Whether an earlier vector has the name of the one at a position.
pub open spec fn repeats_name(vectors: Seq<VectorConfig>, i: int) -> bool {
    exists|k: int| 0 <= k < i && (#[trigger] vectors[k]).name@ == vectors[i].name@
}

/// The names of the vectors that repeat an earlier name, in order.
pub open spec fn repeated_names(vectors: Seq<VectorConfig>, n: int) -> Seq<Seq<char>>
    decreases n,
{
    if n <= 0 {
        Seq::empty()
    } else {
        let rest = repeated_names(vectors, n - 1);
        if repeats_name(vectors, n - 1) {
            rest.push(vectors[n - 1].name@)
        } else {
            rest
        }
    }
}

/// The first problem of the vectors' configurations.
pub open spec fn vector_configs_problem(vectors: Seq<VectorConfig>) -> Option<Seq<char>>
    decreases vectors.len(),
{
    if vectors.len() == 0 {
        None
    } else {
        validation::first(
            vector_config_problem(vectors[0]),
            vector_configs_problem(vectors.drop_first()),
        )
    }
}

/// The first problem of the metadata indexes.
pub open spec fn metadata_indexes_problem(indexes: Seq<MetadataIndex>) -> Option<Seq<char>>
    decreases indexes.len(),
{
    if indexes.len() == 0 {
        None
    } else {
        validation::first(
            metadata_index_problem(indexes[0]),
            metadata_indexes_problem(indexes.drop_first()),
        )
    }
}

/// What is wrong with a collection's configuration.
pub open spec fn collection_config_problem(config: CollectionConfig) -> Option<Seq<char>> {
    let repeated = repeated_names(config.vectors@, config.vectors@.len() as int);
    if repeated.len() > 0 {
        Some(
            "Duplicate vector names found: "@ + text::join(repeated, ", "@)
                + ". Each vector name must be unique within a collection."@,
        )
    } else {
        validation::first(
            vector_configs_problem(config.vectors@),
            match config.metadata_indexes {
                Some(indexes) => metadata_indexes_problem(indexes@),
                None => None,
            },
        )
    }
}

fn collect_repeated_names(vectors: &Vec<VectorConfig>) -> (r: Vec<String>)
    ensures
        text::views(r@) == repeated_names(vectors@, vectors@.len() as int),
{
    let mut out: Vec<String> = Vec::new();
    let mut i: usize = 0;
    assert(text::views(out@) =~= Seq::empty());
    while i < vectors.len()
        invariant
            i <= vectors@.len(),
            text::views(out@) == repeated_names(vectors@, i as int),
        decreases vectors.len() - i,
    {
        let mut repeats = false;
        let mut k: usize = 0;
        while k < i
            invariant
                k <= i < vectors@.len(),
                repeats <==> exists|j: int|
                    0 <= j < k && (#[trigger] vectors@[j]).name@ == vectors@[i as int].name@,
            decreases i - k,
        {
            if same_text(vectors[k].name.as_str(), vectors[i].name.as_str()) {
                assert(vectors@[k as int].name@ == vectors@[i as int].name@);
                repeats = true;
            }
            k += 1;
        }
        if repeats {
            let ghost before = text::views(out@);
            out.push(vectors[i].name.as_str().to_owned());
            assert(text::views(out@) =~= before.push(vectors@[i as int].name@));
        }
        i += 1;
    }
    out
}

/// Checks a collection's configuration.
pub fn validate_collection_config(config: &CollectionConfig) -> (r: Result<(), ValidationError>)
    ensures
        validation::problem(r) == collection_config_problem(*config),
{
    let repeated = collect_repeated_names(&config.vectors);
    assert(text::views(repeated@).len() == repeated@.len());
    if repeated.len() > 0 {
        let names = joined(&repeated, ", ");
        return fail_with(
            text3(
                "Duplicate vector names found: ",
                names.as_str(),
                ". Each vector name must be unique within a collection.",
            ),
        );
    }
    let vectors = &config.vectors;
    let mut i: usize = 0;
    assert(vectors@.skip(0) =~= vectors@);
    while i < vectors.len()
        invariant
            i <= vectors@.len(),
            *vectors == config.vectors,
            repeated_names(config.vectors@, config.vectors@.len() as int).len() == 0,
            vector_configs_problem(vectors@) == vector_configs_problem(vectors@.skip(i as int)),
        decreases vectors.len() - i,
    {
        assert(vectors@.skip(i as int)[0] == vectors@[i as int]);
        assert(vectors@.skip(i as int).drop_first() =~= vectors@.skip(i as int + 1));
        let r = validate_vector_config(&vectors[i]);
        if r.is_err() {
            return r;
        }
        i += 1;
    }
    if let Some(indexes) = &config.metadata_indexes {
        let mut j: usize = 0;
        assert(indexes@.skip(0) =~= indexes@);
        while j < indexes.len()
            invariant
                j <= indexes@.len(),
                config.metadata_indexes == Some(*indexes),
                repeated_names(config.vectors@, config.vectors@.len() as int).len() == 0,
                vector_configs_problem(config.vectors@) is None,
                metadata_indexes_problem(indexes@) == metadata_indexes_problem(
                    indexes@.skip(j as int),
                ),
            decreases indexes.len() - j,
        {
            assert(indexes@.skip(j as int)[0] == indexes@[j as int]);
            assert(indexes@.skip(j as int).drop_first() =~= indexes@.skip(j as int + 1));
            let r = validate_metadata_index(&indexes[j]);
            if r.is_err() {
                return r;
            }
            j += 1;
        }
    }
    Ok(())
}

proof fn lemma_no_repeated_name(vectors: Seq<VectorConfig>, n: int, i: int)
    requires
        repeated_names(vectors, n).len() == 0,
        0 <= i < n,
    ensures
        !repeats_name(vectors, i),
    decreases n,
{
    if i < n - 1 {
        lemma_no_repeated_name(vectors, n - 1, i);
    }
}

proof fn lemma_no_config_problem(vectors: Seq<VectorConfig>, i: int)
    requires
        vector_configs_problem(vectors) is None,
        0 <= i < vectors.len(),
    ensures
        vector_config_problem(vectors[i]) is None,
    decreases vectors.len(),
{
    if i > 0 {
        lemma_no_config_problem(vectors.drop_first(), i - 1);
    }
}

proof fn lemma_none_of(problems: Seq<Option<Seq<char>>>, i: int)
    requires
        first_of(problems) is None,
        0 <= i < problems.len(),
    ensures
        problems[i] is None,
    decreases problems.len(),
{
    if i > 0 {
        lemma_none_of(problems.drop_first(), i - 1);
    }
}

/// In an accepted configuration every vector has a name of its own, and a
/// vector has a model exactly if its type is backed by one.
pub proof fn accepted_configs_are_sound(config: CollectionConfig)
    requires
        collection_config_problem(config) is None,
    ensures
        forall|i: int, j: int|
            #![trigger config.vectors@[i], config.vectors@[j]]
            0 <= i < j < config.vectors@.len() ==> config.vectors@[i].name@
                != config.vectors@[j].name@,
        forall|i: int|
            0 <= i < config.vectors@.len() ==> {
                let v = #[trigger] config.vectors@[i];
                &&& text::is_identifier(v.name@)
                &&& v.model is Some <==> v.vector_type.spec_is_transformer_based()
                &&& 0 < v.top_k <= MAX_TOP_K_VALUE
                &&& v.vector_type is DenseCustom ==> v.dimensions is Some
            },
{
    let vectors = config.vectors@;
    assert forall|i: int, j: int|
        #![trigger vectors[i], vectors[j]]
        0 <= i < j < vectors.len() implies vectors[i].name@ != vectors[j].name@ by {
        lemma_no_repeated_name(vectors, vectors.len() as int, j);
    }
    assert forall|i: int| 0 <= i < vectors.len() implies {
        let v = #[trigger] vectors[i];
        &&& text::is_identifier(v.name@)
        &&& v.model is Some <==> v.vector_type.spec_is_transformer_based()
        &&& 0 < v.top_k <= MAX_TOP_K_VALUE
        &&& v.vector_type is DenseCustom ==> v.dimensions is Some
    } by {
        lemma_no_config_problem(vectors, i);
        let all = vector_config_problems(vectors[i]);
        lemma_none_of(all, 0);
        lemma_none_of(all, 1);
        lemma_none_of(all, 7);
        lemma_none_of(all, 8);
    }
}

/// A configured vector is accepted exactly if its name is plain and of at most a
/// hundred characters, it keeps between one and ten thousand tokens, its share of
/// words is at most a hundred, its confidence is between zero and one, its
/// language has two letters, only a dense vector has another distance than the
/// cosine or is normalized, exactly a vector of a model has one, a custom dense
/// vector has dimensions, between one and 8192, and no model is named with more
/// than 210 characters.
pub proof fn vectors_are_accepted_within_limits(v: VectorConfig)
    ensures
        vector_config_problem(v) is None <==> {
            &&& validation::plain_up_to(v.name@, 100)
            &&& 1 <= v.top_k <= 10_000
            &&& v.wmtr_word_ratio <= 100
            &&& v.language_confidence.bits <= 0x3ff0_0000_0000_0000 || v.language_confidence.bits
                == 0x8000_0000_0000_0000
            &&& v.language_default_code@.len() == 2 && forall|i: int|
                0 <= i < 2 ==> ('a' <= #[trigger] v.language_default_code@[i] <= 'z' || 'A'
                    <= v.language_default_code@[i] <= 'Z')
            &&& v.dense_distance is Cosine || v.vector_type is DenseModel || v.vector_type
                is DenseCustom
            &&& v.normalization == Some(true) ==> v.vector_type is DenseModel || v.vector_type
                is DenseCustom
            &&& v.model is Some <==> v.vector_type is DenseModel || v.vector_type is SparseModel
            &&& v.vector_type is DenseCustom ==> v.dimensions is Some
            &&& v.dimensions matches Some(n) ==> 1 <= n <= 8192
            &&& v.model matches Some(s) ==> s@.len() <= 210
            &&& v.revision matches Some(s) ==> s@.len() <= 210
            &&& v.query_model matches Some(s) ==> s@.len() <= 210
            &&& v.query_revision matches Some(s) ==> s@.len() <= 210
        },
{
    let ps = vector_config_problems(v);
    lemma_first_of_all(ps);
    text::identifiers_are_plain(v.name@);
    lemma_plain_is_not_blank(v.name@);
    let none = vector_config_problem(v) is None;
    assert(none <==> forall|i: int| 0 <= i < ps.len() ==> (#[trigger] ps[i]) is None);
    assert(none <==> ps[0] is None && ps[1] is None && ps[2] is None && ps[3] is None && ps[4]
        is None && ps[5] is None && ps[6] is None && ps[7] is None && ps[8] is None && ps[9]
        is None && ps[10] is None && ps[11] is None && ps[12] is None && ps[13] is None) by {
        if ps[0] is None && ps[1] is None && ps[2] is None && ps[3] is None && ps[4] is None
            && ps[5] is None && ps[6] is None && ps[7] is None && ps[8] is None && ps[9] is None
            && ps[10] is None && ps[11] is None && ps[12] is None && ps[13] is None {
            assert forall|i: int| 0 <= i < ps.len() implies (#[trigger] ps[i]) is None by {
                assert(i == 0 || i == 1 || i == 2 || i == 3 || i == 4 || i == 5 || i == 6 || i == 7
                    || i == 8 || i == 9 || i == 10 || i == 11 || i == 12 || i == 13);
            }
        }
    }
    assert(ps[4] is None <==> v.language_default_code@.len() == 2 && forall|i: int|
        0 <= i < 2 ==> ('a' <= #[trigger] v.language_default_code@[i] <= 'z' || 'A'
            <= v.language_default_code@[i] <= 'Z')) by {
        let c = v.language_default_code@;
        if ps[4] is None {
            assert forall|i: int| 0 <= i < 2 implies ('a' <= #[trigger] c[i] <= 'z' || 'A' <= c[i]
                <= 'Z') by {
                assert(i == 0 || i == 1);
            }
        }
    }
}

proof fn lemma_plain_is_not_blank(s: Seq<char>)
    ensures
        text::is_identifier(s) ==> text::trim(s).len() > 0,
{
    if text::is_identifier(s) {
        assert(text::identifier_char(s[0]));
        assert(text::identifier_char(s[s.len() - 1]));
        assert(text::trim_start(s) == s);
        assert(text::trim_end(s) == s);
    }
}

proof fn lemma_first_of_all(ps: Seq<Option<Seq<char>>>)
    ensures
        first_of(ps) is None <==> forall|i: int| 0 <= i < ps.len() ==> (#[trigger] ps[i]) is None,
    decreases ps.len(),
{
    if ps.len() > 0 {
        let rest = ps.drop_first();
        lemma_first_of_all(rest);
        assert(forall|i: int| 0 <= i < rest.len() ==> #[trigger] rest[i] == ps[i + 1]);
        if first_of(ps) is None {
            assert forall|i: int| 0 <= i < ps.len() implies (#[trigger] ps[i]) is None by {
                if i > 0 {
                    assert(rest[i - 1] == ps[i]);
                }
            }
        }
    }
}

/// A metadata index is accepted exactly if its key is plain and of at most a
/// hundred characters and its type is one of five.
pub proof fn plain_indexes_are_accepted(mi: MetadataIndex)
    ensures
        metadata_index_problem(mi) is None <==> validation::plain_up_to(mi.key@, 100) && (
        mi.value_type@ == "string"@ || mi.value_type@ == "integer"@ || mi.value_type@ == "float"@
            || mi.value_type@ == "boolean"@ || mi.value_type@ == "datetime"@),
{
    text::identifiers_are_plain(mi.key@);
}

/// A collection is accepted exactly if no two of its vectors have one name and
/// each vector and each index is accepted.
pub proof fn collections_are_accepted_by_their_parts(config: CollectionConfig)
    ensures
        collection_config_problem(config) is None <==> {
            &&& forall|i: int, j: int|
                #![trigger config.vectors@[i], config.vectors@[j]]
                0 <= i < j < config.vectors@.len() ==> config.vectors@[i].name@
                    != config.vectors@[j].name@
            &&& forall|i: int|
                0 <= i < config.vectors@.len() ==> vector_config_problem(
                    #[trigger] config.vectors@[i],
                ) is None
            &&& config.metadata_indexes matches Some(indexes) ==> forall|i: int|
                0 <= i < indexes@.len() ==> metadata_index_problem(#[trigger] indexes@[i]) is None
        },
{
    let vs = config.vectors@;
    lemma_each_vector(vs);
    if let Some(indexes) = config.metadata_indexes {
        lemma_each_index(indexes@);
    }
    if collection_config_problem(config) is None {
        accepted_configs_are_sound(config);
    }
    if forall|i: int, j: int|
        #![trigger vs[i], vs[j]]
        0 <= i < j < vs.len() ==> vs[i].name@ != vs[j].name@ {
        lemma_none_repeated(vs, vs.len() as int);
    }
}

proof fn lemma_none_repeated(vs: Seq<VectorConfig>, n: int)
    requires
        n <= vs.len(),
        forall|i: int, j: int|
            #![trigger vs[i], vs[j]]
            0 <= i < j < vs.len() ==> vs[i].name@ != vs[j].name@,
    ensures
        repeated_names(vs, n).len() == 0,
    decreases n,
{
    if n > 0 {
        lemma_none_repeated(vs, n - 1);
        assert(!repeats_name(vs, n - 1));
    }
}

proof fn lemma_each_vector(vs: Seq<VectorConfig>)
    ensures
        vector_configs_problem(vs) is None <==> forall|i: int|
            0 <= i < vs.len() ==> vector_config_problem(#[trigger] vs[i]) is None,
    decreases vs.len(),
{
    if vs.len() > 0 {
        let rest = vs.drop_first();
        lemma_each_vector(rest);
        assert(forall|i: int| 0 <= i < rest.len() ==> #[trigger] rest[i] == vs[i + 1]);
        if vector_configs_problem(vs) is None {
            assert forall|i: int| 0 <= i < vs.len() implies vector_config_problem(
                #[trigger] vs[i],
            ) is None by {
                if i > 0 {
                    assert(rest[i - 1] == vs[i]);
                }
            }
        }
    }
}

proof fn lemma_each_index(v: Seq<MetadataIndex>)
    ensures
        metadata_indexes_problem(v) is None <==> forall|i: int|
            0 <= i < v.len() ==> metadata_index_problem(#[trigger] v[i]) is None,
    decreases v.len(),
{
    if v.len() > 0 {
        let rest = v.drop_first();
        lemma_each_index(rest);
        assert(forall|i: int| 0 <= i < rest.len() ==> #[trigger] rest[i] == v[i + 1]);
        if metadata_indexes_problem(v) is None {
            assert forall|i: int| 0 <= i < v.len() implies metadata_index_problem(
                #[trigger] v[i],
            ) is None by {
                if i > 0 {
                    assert(rest[i - 1] == v[i]);
                }
            }
        }
    }
}

} // verus!
