//! What the kinds of vectors make of texts, as far as it is decided here: what
//! is handed to the tokenizers and the models, and what is kept of their
//! scores.

use vstd::prelude::*;

use crate::models::VectorConfigInternal;
use crate::text;
use crate::text::{char_count, trimmed};
use crate::vectors::vector_base;
use crate::vectors::vector_base::{
    get_language_code, preprocess_text, preprocess_text_keep_case, top_k, validate_text,
    TokenWeight,
};

verus! {

/// The texts that a model embeds at a time.
pub const MODEL_BATCH_SIZE: usize = 8;

/// Vectors of collections that index nothing.
pub struct NoopVector;

impl NoopVector {
    /// The sparse vector of any text: one without entries.
    pub fn get_sparse_vector_single() -> (r: (Vec<u32>, Vec<u32>))
        ensures
            r.0@.len() == 0,
            r.1@.len() == 0,
    {
        (Vec::new(), Vec::new())
    }

    /// That there are no dense vectors of this kind.
    pub fn get_dense_vector() -> (r: String)
        ensures
            r@ == "NoopVector only supports sparse vectors"@,
    {
        "NoopVector only supports sparse vectors".to_owned()
    }
}

/// What a tokenizer is asked to make of a text: at most so many tokens, in a
/// language where it matters.
#[derive(Debug, PartialEq, Eq)]
pub struct Tokenization {
    pub language: Option<String>,
    pub top_k: u32,
}

/// Vectors of the words of a language.
pub struct FullTextVector;

impl FullTextVector {
    /// What the tokenizer is asked to make of a text; nothing of an empty one.
    pub fn plan(config: &VectorConfigInternal, s: &str) -> (r: Result<
        Option<Tokenization>,
        String,
    >)
        ensures
            if s@.len() == 0 {
                r == Ok::<Option<Tokenization>, String>(None)
            } else if config.language_default_code@.len() > 0 {
                &&& r matches Ok(Some(t))
                &&& t.language matches Some(code)
                &&& code@ == config.language_default_code@
                &&& t.top_k == config.top_k
            } else {
                r matches Err(e) && e@
                    == "No language code could be determined for vector config '"@ + config.name@
                    + "'. Either enable language_detect=True or specify language_default_code."@
            },
    {
        if !validate_text(s) {
            return Ok(None);
        }
        match get_language_code(config) {
            Ok(code) => Ok(Some(Tokenization { language: Some(code), top_k: config.top_k })),
            Err(e) => Err(e),
        }
    }

    /// That there are no dense vectors of this kind.
    pub fn get_dense_vector() -> (r: String)
        ensures
            r@ == "FullTextVector does not support dense vectors"@,
    {
        "FullTextVector does not support dense vectors".to_owned()
    }
}

/// Vectors of groups of three letters, in any language.
pub struct TrigramsVector;

impl TrigramsVector {
    /// What the tokenizer is asked to make of a text; nothing of an empty one.
    pub fn plan(config: &VectorConfigInternal, s: &str) -> (r: Option<Tokenization>)
        ensures
            if s@.len() == 0 {
                r is None
            } else {
                r matches Some(t) && t.language is None && t.top_k == config.top_k
            },
    {
        if !validate_text(s) {
            return None;
        }
        Some(Tokenization { language: None, top_k: config.top_k })
    }

    /// That there are no dense vectors of this kind.
    pub fn get_dense_vector() -> (r: String)
        ensures
            r@ == "TrigramsVector only supports sparse vectors"@,
    {
        "TrigramsVector only supports sparse vectors".to_owned()
    }
}

/// Whether a configuration names a model.
pub open spec fn names_model(config: VectorConfigInternal) -> bool {
    config.model is Some && text::trim(config.model->0@).len() > 0
}

fn model_named(config: &VectorConfigInternal) -> (r: bool)
    ensures
        r == names_model(*config),
{
    match &config.model {
        Some(m) => {
            let t = trimmed(m.as_str());
            char_count(t.as_str()) > 0
        },
        None => false,
    }
}

/// Dense vectors of a model.
pub struct DenseModelVector;

impl DenseModelVector {
    /// The model that a vector's texts are embedded with, and whether the
    /// vectors are normalized.
    pub fn plan(config: &VectorConfigInternal) -> (r: Result<(String, bool), String>)
        ensures
            if names_model(*config) {
                r matches Ok(p) && p.0@ == config.model->0@ && p.1 == (config.normalization
                    != Some(false))
            } else {
                r matches Err(e) && e@
                    == "DenseModelVector requires 'model' to be specified in VectorConfig"@
            },
    {
        if model_named(config) {
            if let Some(m) = &config.model {
                let normalize = match config.normalization {
                    Some(n) => n,
                    None => true,
                };
                return Ok((m.as_str().to_owned(), normalize));
            }
        }
        Err("DenseModelVector requires 'model' to be specified in VectorConfig".to_owned())
    }

    /// That there are no sparse vectors of this kind.
    pub fn get_sparse_vector_single() -> (r: String)
        ensures
            r@ == "DenseModelVector does not produce sparse vectors"@,
    {
        "DenseModelVector does not produce sparse vectors".to_owned()
    }
}

/// The form in which texts are handed to a sparse model.
pub open spec fn sparse_text(config: VectorConfigInternal, s: Seq<char>) -> Seq<char> {
    if config.keep_case == Some(true) {
        vector_base::collapsed(text::trim(s))
    } else {
        vector_base::collapsed(text::trim(text::unicode_lowercase(s)))
    }
}

/// Whether a token with its score counts: it is none of the special ones, and
/// its score is positive.
pub open spec fn token_counts(scores: Seq<u32>, special: Seq<u32>, i: int) -> bool {
    0 < scores[i] <= 0x7f80_0000 && !special.contains(i as u32)
}

/// The tokens that count, with their scores.
pub open spec fn counted_tokens(scores: Seq<u32>, special: Seq<u32>, n: int) -> Seq<TokenWeight>
    decreases n,
{
    if n <= 0 {
        Seq::empty()
    } else {
        let rest = counted_tokens(scores, special, n - 1);
        if token_counts(scores, special, n - 1) {
            rest.push(TokenWeight { token: (n - 1) as u32, weight: scores[n - 1] })
        } else {
            rest
        }
    }
}

/// Sparse vectors of a model.
pub struct SparseModelVector;

impl SparseModelVector {
    /// The model that a vector's texts are embedded with, and the texts in the
    /// form in which it gets them.
    pub fn plan(config: &VectorConfigInternal, docs: &Vec<String>) -> (r: Result<
        (String, Vec<String>),
        String,
    >)
        ensures
            if names_model(*config) {
                &&& r matches Ok(p)
                &&& p.0@ == config.model->0@
                &&& p.1@.len() == docs@.len()
                &&& forall|i: int|
                    0 <= i < docs@.len() ==> (#[trigger] p.1@[i])@ == sparse_text(
                        *config,
                        docs@[i]@,
                    )
            } else {
                r matches Err(e) && e@
                    == "SparseModelVector requires 'model' to be specified in VectorConfig"@
            },
    {
        if !model_named(config) {
            return Err(
                "SparseModelVector requires 'model' to be specified in VectorConfig".to_owned(),
            );
        }
        let keep_case = match config.keep_case {
            Some(k) => k,
            None => false,
        };
        let mut texts: Vec<String> = Vec::new();
        let mut i: usize = 0;
        while i < docs.len()
            invariant
                i <= docs@.len(),
                texts@.len() == i,
                keep_case == (config.keep_case == Some(true)),
                forall|k: int|
                    0 <= k < i ==> (#[trigger] texts@[k])@ == sparse_text(*config, docs@[k]@),
            decreases docs.len() - i,
        {
            let t = if keep_case {
                preprocess_text_keep_case(docs[i].as_str())
            } else {
                preprocess_text(docs[i].as_str())
            };
            texts.push(t);
            i += 1;
        }
        match &config.model {
            Some(m) => Ok((m.as_str().to_owned(), texts)),
            None => Err(
                "SparseModelVector requires 'model' to be specified in VectorConfig".to_owned(),
            ),
        }
    }

    /// The sparse vector of the scores that a model gives to all tokens: the
    /// tokens with the highest positive scores, none of them a special one.
    /// Which of the tokens with the same score stays is not said.
    pub fn select(scores: &Vec<u32>, special: &Vec<u32>, k: usize) -> (r: (Vec<u32>, Vec<u32>))
        requires
            scores@.len() <= u32::MAX,
        ensures
            exists|sorted: Seq<TokenWeight>|
                vector_base::is_heaviest(
                    counted_tokens(scores@, special@, scores@.len() as int),
                    sorted,
                    k as int,
                    r.0@,
                    r.1@,
                ),
    {
        let mut counted: Vec<TokenWeight> = Vec::new();
        let mut i: usize = 0;
        while i < scores.len()
            invariant
                i <= scores@.len() <= u32::MAX,
                counted@ == counted_tokens(scores@, special@, i as int),
            decreases scores.len() - i,
        {
            let score = scores[i];
            if 0 < score && score <= 0x7f80_0000 {
                let token = i as u32;
                let mut j: usize = 0;
                while j < special.len() && special[j] != token
                    invariant
                        j <= special@.len(),
                        forall|l: int| 0 <= l < j ==> special@[l] != token,
                    decreases special.len() - j,
                {
                    j += 1;
                }
                if j == special.len() {
                    counted.push(TokenWeight { token, weight: score });
                } else {
                    assert(special@.contains(special@[j as int]));
                }
            }
            i += 1;
        }
        top_k(counted, k)
    }

    /// That there are no dense vectors of this kind.
    pub fn get_dense_vector() -> (r: String)
        ensures
            r@ == "SparseModelVector does not produce dense vectors"@,
    {
        "SparseModelVector does not produce dense vectors".to_owned()
    }
}

/// A token counts exactly if its score is above zero and a number and it is no
/// special one; it counts with its score.
pub proof fn positive_tokens_count(scores: Seq<u32>, special: Seq<u32>, n: int, i: int)
    requires
        0 <= i < n <= scores.len(),
        scores.len() <= u32::MAX,
    ensures
        counted_tokens(scores, special, n).contains(
            TokenWeight { token: i as u32, weight: scores[i] },
        ) <==> 0 < scores[i] <= 0x7f80_0000 && !special.contains(i as u32),
        counted_tokens(scores, special, n).len() <= n,
    decreases n,
{
    lemma_tokens_below(scores, special, n);
    lemma_tokens_below(scores, special, n - 1);
    let rest = counted_tokens(scores, special, n - 1);
    let all = counted_tokens(scores, special, n);
    let t = TokenWeight { token: i as u32, weight: scores[i] };
    if i < n - 1 {
        positive_tokens_count(scores, special, n - 1, i);
        if rest.contains(t) {
            let k = choose|k: int| 0 <= k < rest.len() && rest[k] == t;
            assert(all[k] == t);
        }
        if all.contains(t) {
            let k = choose|k: int| 0 <= k < all.len() && all[k] == t;
            if k >= rest.len() {
                assert(all[k].token == (n - 1) as u32);
            } else {
                assert(rest[k] == t);
            }
        }
    } else {
        if token_counts(scores, special, i) {
            assert(all[rest.len() as int] == t);
        } else if all.contains(t) {
            let k = choose|k: int| 0 <= k < all.len() && all[k] == t;
            assert(rest[k].token < n - 1);
        }
    }
}

proof fn lemma_tokens_below(scores: Seq<u32>, special: Seq<u32>, n: int)
    requires
        n <= scores.len() <= u32::MAX,
    ensures
        forall|k: int|
            0 <= k < counted_tokens(scores, special, n).len() ==> (#[trigger] counted_tokens(
                scores,
                special,
                n,
            )[k]).token < n,
        counted_tokens(scores, special, n).len() <= if n < 0 {
            0
        } else {
            n
        },
    decreases n,
{
    if n > 0 {
        lemma_tokens_below(scores, special, n - 1);
    }
}

/// A text for a sparse model is tidied, and its letters are made small unless the
/// case is kept.
pub proof fn sparse_texts_are_tidied(config: VectorConfigInternal, s: Seq<char>)
    ensures
        config.keep_case == Some(true) ==> sparse_text(config, s) == vector_base::collapsed(
            text::trim(s),
        ),
        config.keep_case != Some(true) ==> sparse_text(config, s) == vector_base::collapsed(
            text::trim(text::unicode_lowercase(s)),
        ),
        vector_base::is_tidy(sparse_text(config, s)),
{
    vector_base::preprocessed_texts_are_tidy(s);
    vector_base::preprocessed_texts_are_tidy(text::unicode_lowercase(s));
}

/// A model is named by a text that is not blank.
pub proof fn models_are_named(config: VectorConfigInternal)
    ensures
        config.model is None ==> !names_model(config),
        config.model matches Some(m) ==> (names_model(config) <==> text::trim(m@).len() > 0),
{
}

} // verus!
