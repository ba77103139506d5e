//! What requests mean by the values that they leave out, and by those that can
//! be written in more than one way.

use vstd::prelude::*;

use crate::common::{
    DenseDistance, DocumentField, VectorType, DEFAULT_TOP_K,
    DEFAULT_WMTR_WORD_WEIGHT_PERCENTAGE,
};
use crate::datetime_parse;
use crate::datetime_parse::{parse_utc_datetime, Timestamp};
use crate::join_parser::JoinField;
use crate::json;
use crate::json::{Double, Json, JsonValue};
use crate::models::{
    CollectionConfig, MetadataIndex, VectorConfig, DEFAULT_LANGUAGE_CONFIDENCE_BITS,
};
use crate::text;

verus! {

/// The version of configurations that do not name theirs.
pub const DEFAULT_VERSION: u32 = 1;

/// The most results of one group.
pub const DEFAULT_GROUP_MAX: u32 = 3;

/// The most fetches to fill the groups of a search.
pub const DEFAULT_GROUP_MAX_FETCHES: u32 = 2;

/// The documents of a page.
pub const DEFAULT_FETCH_PAGE_SIZE: u32 = 100;

/// The language of a vector's texts.
pub const DEFAULT_LANGUAGE_CODE: &'static str = "en";

/// How the results of several vectors are combined.
pub const DEFAULT_FUSION_MODE: &'static str = "rrf";

/// Whether a vector is the one of a collection that names none: it indexes
/// nothing, but lets documents be stored and fetched.
pub open spec fn is_noop_vector(v: VectorConfig) -> bool {
    &&& v.name@ == "noop"@
    &&& v.vector_type is Noop
    &&& v.model is None
    &&& v.revision is None
    &&& v.query_model is None
    &&& v.query_revision is None
    &&& v.dimensions is None
    &&& v.top_k == DEFAULT_TOP_K
    &&& v.wmtr_word_ratio == DEFAULT_WMTR_WORD_WEIGHT_PERCENTAGE
    &&& v.index_fields is Some
    &&& v.index_fields->0@ == seq![DocumentField::Name]
    &&& v.doc_template is None
    &&& v.query_template is None
    &&& v.language_default_code@ == DEFAULT_LANGUAGE_CODE@
    &&& !v.language_detect
    &&& v.language_confidence == (Double { bits: DEFAULT_LANGUAGE_CONFIDENCE_BITS })
    &&& v.normalization is None
    &&& v.dense_distance is Cosine
    &&& v.keep_case == Some(false)
}

/// The vectors of a collection that names none.
pub fn default_noop_vectors() -> (r: Vec<VectorConfig>)
    ensures
        r@.len() == 1,
        is_noop_vector(r@[0]),
{
    let v = VectorConfig {
        name: "noop".to_owned(),
        vector_type: VectorType::Noop,
        model: None,
        revision: None,
        query_model: None,
        query_revision: None,
        dimensions: None,
        top_k: DEFAULT_TOP_K,
        wmtr_word_ratio: DEFAULT_WMTR_WORD_WEIGHT_PERCENTAGE,
        index_fields: Some(vec![DocumentField::Name]),
        doc_template: None,
        query_template: None,
        language_default_code: DEFAULT_LANGUAGE_CODE.to_owned(),
        language_detect: false,
        language_confidence: Double { bits: DEFAULT_LANGUAGE_CONFIDENCE_BITS },
        normalization: None,
        dense_distance: DenseDistance::Cosine,
        keep_case: Some(false),
    };
    assert(v.index_fields->0@ =~= seq![DocumentField::Name]);
    vec![v]
}

/// The configuration that a request for a new collection stands for.
pub fn requested_collection(
    vectors: Option<Vec<VectorConfig>>,
    store_content: Option<bool>,
    metadata_indexes: Option<Vec<MetadataIndex>>,
) -> (r: CollectionConfig)
    ensures
        match vectors {
            Some(v) => if v@.len() > 0 {
                r.vectors == v
            } else {
                r.vectors@.len() == 1 && is_noop_vector(r.vectors@[0])
            },
            None => r.vectors@.len() == 1 && is_noop_vector(r.vectors@[0]),
        },
        r.store_content == (store_content != Some(false)),
        r.metadata_indexes == metadata_indexes,
{
    let vectors = match vectors {
        Some(v) => if v.is_empty() {
            default_noop_vectors()
        } else {
            v
        },
        None => default_noop_vectors(),
    };
    let store_content = match store_content {
        Some(s) => s,
        None => true,
    };
    CollectionConfig { vectors, store_content, metadata_indexes }
}

/// The timestamp that a document's JSON stands for.
pub open spec fn timestamp_of(v: Json) -> Result<Timestamp, Seq<char>> {
    match v {
        Json::Text(s) => datetime_parse::utc_reading(
            datetime_parse::zoned_datetime(text::trim(s)),
            datetime_parse::naive_datetime(text::trim(s)),
        ),
        _ => Err("Timestamp must be a datetime object"@),
    }
}

/// Reads the timestamp of a document.
pub fn deserialize_document_timestamp(v: &JsonValue) -> (r: Result<Timestamp, String>)
    ensures
        datetime_parse::result_view(r) == timestamp_of(v@),
{
    match v {
        JsonValue::Text(s) => parse_utc_datetime(s.as_str()),
        _ => Err("Timestamp must be a datetime object".to_owned()),
    }
}

/// The texts of a list, or none where an element is no text.
pub open spec fn texts_of(v: Seq<Json>) -> Option<Seq<Seq<char>>>
    decreases v.len(),
{
    if v.len() == 0 {
        Some(Seq::empty())
    } else {
        match (texts_of(v.drop_last()), v.last()) {
            (Some(rest), Json::Text(s)) => Some(rest.push(s)),
            _ => None,
        }
    }
}

fn read_texts(v: &Vec<JsonValue>) -> (r: Option<Vec<String>>)
    ensures
        match r {
            Some(t) => texts_of(json::values(v@)) == Some(text::views(t@)),
            None => texts_of(json::values(v@)) is None,
        },
{
    let ghost all = json::values(v@);
    let mut out: Vec<String> = Vec::new();
    let mut i: usize = 0;
    assert(all.take(0) =~= Seq::empty());
    assert(text::views(out@) =~= Seq::empty());
    while i < v.len()
        invariant
            i <= v@.len(),
            all == json::values(v@),
            texts_of(all.take(i as int)) == Some(text::views(out@)),
        decreases v.len() - i,
    {
        proof {
            let next = all.take(i as int + 1);
            assert(next.drop_last() =~= all.take(i as int));
            assert(next.last() == v@[i as int]@);
        }
        match &v[i] {
            JsonValue::Text(s) => {
                let ghost before = text::views(out@);
                out.push(s.as_str().to_owned());
                assert(text::views(out@) =~= before.push(s@));
            },
            _ => {
                proof {
                    lemma_no_texts(all, i as int + 1);
                }
                return None;
            },
        }
        i += 1;
    }
    assert(all.take(all.len() as int) =~= all);
    Some(out)
}

proof fn lemma_no_texts(v: Seq<Json>, n: int)
    requires
        0 <= n <= v.len(),
        texts_of(v.take(n)) is None,
    ensures
        texts_of(v) is None,
    decreases v.len(),
{
    if n < v.len() {
        assert(v.drop_last().take(n) =~= v.take(n));
        lemma_no_texts(v.drop_last(), n);
    } else {
        assert(v.take(n) =~= v);
    }
}

/// The joins that a request's JSON names: one text, or a list of texts.
pub fn deserialize_join_field(v: &JsonValue) -> (r: Result<Option<JoinField>, String>)
    ensures
        match v@ {
            Json::Null => r == Ok::<Option<JoinField>, String>(None),
            Json::Text(s) => r matches Ok(Some(JoinField::Single(t))) && t@ == s,
            Json::Array(a) => match texts_of(a) {
                Some(texts) => r matches Ok(Some(JoinField::Multiple(t))) && text::views(t@)
                    == texts,
                None => r matches Err(e) && e@ == "Join list items must be strings"@,
            },
            _ => r matches Err(e) && e@ == "Join must be a string or list of strings"@,
        },
{
    match v {
        JsonValue::Null => Ok(None),
        JsonValue::Text(s) => Ok(Some(JoinField::Single(s.as_str().to_owned()))),
        JsonValue::Array(a) => {
            proof {
                JsonValue::array_view(*a);
            }
            match read_texts(a) {
                Some(t) => Ok(Some(JoinField::Multiple(t))),
                None => Err("Join list items must be strings".to_owned()),
            }
        },
        _ => Err("Join must be a string or list of strings".to_owned()),
    }
}

/// A list of texts is read text by text, and nothing else is such a list.
pub proof fn lists_of_texts_are_read(v: Seq<Json>, one: Json)
    ensures
        texts_of(Seq::empty()) == Some(Seq::<Seq<char>>::empty()),
        match (texts_of(v), one) {
            (Some(rest), Json::Text(s)) => texts_of(v.push(one)) == Some(rest.push(s)),
            _ => texts_of(v.push(one)) is None,
        },
{
    assert(v.push(one).drop_last() =~= v);
}

/// The time of a document is a text with a universal time; nothing else is.
pub proof fn document_times_are_texts(v: Json, t: Timestamp)
    ensures
        !(v is Text) ==> timestamp_of(v) is Err,
        v matches Json::Text(s) ==> (timestamp_of(v) is Ok <==> (datetime_parse::zoned_datetime(
            text::trim(s),
        ) matches Some(z) && z.offset == 0)),
{
}

} // verus!
