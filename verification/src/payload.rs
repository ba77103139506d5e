//! What the database stores of a document: payloads from and to JSON.

use vstd::prelude::*;

use crate::json;
use crate::json::{find_member, set_member, Double, Json, JsonNumber, JsonValue, INFINITY_BITS};
use crate::qdrant::DbError;
use crate::text::{decimal_text, same_text};
use crate::text;

verus! {

/// A value as the database holds it. An integer comes with its nearest double.
#[derive(Debug, PartialEq, Eq)]
pub enum StoredValue {
    Null,
    Bool(bool),
    Integer(i64, Double),
    Number(Double),
    Text(String),
    List(Vec<StoredValue>),
    Struct(Vec<(String, StoredValue)>),
}

/// The identity of a point in the database.
#[derive(Debug, PartialEq, Eq)]
pub enum PointKey {
    Uuid(String),
    Num(u64),
}

/// A double as JSON, which has neither infinities nor NaN: those are null.
pub open spec fn double_value(d: Double) -> Json {
    if d.magnitude() < INFINITY_BITS {
        Json::Number(JsonNumber::Float(d))
    } else {
        Json::Null
    }
}

/// A double as JSON.
pub fn json_of_double(d: Double) -> (r: JsonValue)
    ensures
        r@ == double_value(d),
{
    let magnitude: u64 = if d.bits >= json::SIGN_BIT {
        d.bits - json::SIGN_BIT
    } else {
        d.bits
    };
    if magnitude < INFINITY_BITS {
        JsonValue::Number(JsonNumber::Float(d))
    } else {
        JsonValue::Null
    }
}

/// A signed integer as a JSON number.
pub open spec fn integer_number(i: i64, nearest: Double) -> JsonNumber {
    if i < 0 {
        JsonNumber::Negative(i, nearest)
    } else {
        JsonNumber::Unsigned(i as u64, nearest)
    }
}

/// The JSON that a stored value stands for.
pub open spec fn stored_json(v: StoredValue) -> Json
    decreases v,
{
    match v {
        StoredValue::Null => Json::Null,
        StoredValue::Bool(b) => Json::Bool(b),
        StoredValue::Integer(i, d) => Json::Number(integer_number(i, d)),
        StoredValue::Number(d) => double_value(d),
        StoredValue::Text(s) => Json::Text(s@),
        StoredValue::List(l) => Json::Array(
            Seq::new(
                l@.len(),
                |i: int|
                    if 0 <= i < l@.len() {
                        stored_json(l@[i])
                    } else {
                        Json::Null
                    },
            ),
        ),
        StoredValue::Struct(f) => Json::Object(stored_members(f@)),
    }
}

/// The members of an object with the stored fields, set one after the other.
pub open spec fn stored_members(f: Seq<(String, StoredValue)>) -> Seq<(Seq<char>, Json)>
    decreases f,
{
    if f.len() == 0 {
        Seq::empty()
    } else {
        json::with_member(
            stored_members(f.drop_last()),
            f.last().0@,
            stored_json(f.last().1),
        )
    }
}

/// The value of the first field with a name.
pub open spec fn stored_field(f: Seq<(String, StoredValue)>, key: Seq<char>) -> Option<StoredValue>
    decreases f.len(),
{
    if f.len() == 0 {
        None
    } else if f[0].0@ == key {
        Some(f[0].1)
    } else {
        stored_field(f.drop_first(), key)
    }
}

/// The value of a field.
pub fn get_field<'a>(f: &'a Vec<(String, StoredValue)>, key: &str) -> (r: Option<&'a StoredValue>)
    ensures
        match r {
            Some(v) => stored_field(f@, key@) == Some(*v),
            None => stored_field(f@, key@) is None,
        },
{
    let mut i: usize = 0;
    assert(f@.skip(0) =~= f@);
    while i < f.len()
        invariant
            i <= f@.len(),
            stored_field(f@, key@) == stored_field(f@.skip(i as int), key@),
        decreases f.len() - i,
    {
        assert(f@.skip(i as int)[0] == f@[i as int]);
        assert(f@.skip(i as int).drop_first() =~= f@.skip(i as int + 1));
        if same_text(f[i].0.as_str(), key) {
            return Some(&f[i].1);
        }
        i += 1;
    }
    None
}

/// Reads a stored value as JSON.
pub fn qdrant_val_to_json(v: &StoredValue) -> (r: JsonValue)
    ensures
        r@ == stored_json(*v),
    decreases v,
{
    match v {
        StoredValue::Null => JsonValue::Null,
        StoredValue::Bool(b) => JsonValue::Bool(*b),
        StoredValue::Integer(i, d) => if *i < 0 {
            JsonValue::Number(JsonNumber::Negative(*i, *d))
        } else {
            JsonValue::Number(JsonNumber::Unsigned(*i as u64, *d))
        },
        StoredValue::Number(d) => json_of_double(*d),
        StoredValue::Text(s) => JsonValue::Text(s.as_str().to_owned()),
        StoredValue::List(l) => {
            let mut out: Vec<JsonValue> = Vec::new();
            let mut i: usize = 0;
            while i < l.len()
                invariant
                    i <= l@.len(),
                    out@.len() == i,
                    forall|k: int| 0 <= k < i ==> (#[trigger] out@[k])@ == stored_json(l@[k]),
                    decreases_to!(v => l),
                decreases l.len() - i,
            {
                assert(decreases_to!(l => l@[i as int]));
                out.push(qdrant_val_to_json(&l[i]));
                i += 1;
            }
            proof {
                JsonValue::array_view(out);
                assert(json::values(out@) =~= stored_json(*v)->Array_0);
            }
            JsonValue::Array(out)
        },
        StoredValue::Struct(f) => {
            let mut out: Vec<(String, JsonValue)> = Vec::new();
            let mut i: usize = 0;
            assert(f@.take(0) =~= Seq::empty());
            assert(json::members(out@) =~= Seq::empty());
            while i < f.len()
                invariant
                    i <= f@.len(),
                    json::members(out@) == stored_members(f@.take(i as int)),
                    decreases_to!(v => f),
                decreases f.len() - i,
            {
                proof {
                    let next = f@.take(i as int + 1);
                    assert(next.drop_last() =~= f@.take(i as int));
                    assert(next.last() == f@[i as int]);
                    assert(decreases_to!(f => f@[i as int]));
                    assert(decreases_to!(f@[i as int] => f@[i as int].1));
                }
                let value = qdrant_val_to_json(&f[i].1);
                set_member(&mut out, f[i].0.as_str(), value);
                i += 1;
            }
            proof {
                assert(f@.take(f@.len() as int) =~= f@);
                JsonValue::object_view(out);
            }
            JsonValue::Object(out)
        },
    }
}

/// Reads a payload as the members of an object.
pub fn payload_members(payload: &Vec<(String, StoredValue)>) -> (r: Vec<(String, JsonValue)>)
    ensures
        json::members(r@) == stored_members(payload@),
{
    let mut out: Vec<(String, JsonValue)> = Vec::new();
    let mut i: usize = 0;
    assert(payload@.take(0) =~= Seq::empty());
    assert(json::members(out@) =~= Seq::empty());
    while i < payload.len()
        invariant
            i <= payload@.len(),
            json::members(out@) == stored_members(payload@.take(i as int)),
        decreases payload.len() - i,
    {
        proof {
            let next = payload@.take(i as int + 1);
            assert(next.drop_last() =~= payload@.take(i as int));
            assert(next.last() == payload@[i as int]);
        }
        let value = qdrant_val_to_json(&payload[i].1);
        set_member(&mut out, payload[i].0.as_str(), value);
        i += 1;
    }
    assert(payload@.take(payload@.len() as int) =~= payload@);
    out
}

/// The members of a search result: those of the payload with the score and the
/// scores of the vectors, which take the place of members with these names.
pub fn search_result_from_point(
    payload: &Vec<(String, StoredValue)>,
    score: Double,
    vector_scores: JsonValue,
) -> (r: Vec<(String, JsonValue)>)
    ensures
        json::members(r@) == json::with_member(
            json::with_member(stored_members(payload@), "score"@, double_value(score)),
            "vector_scores"@,
            vector_scores@,
        ),
{
    let mut out = payload_members(payload);
    set_member(&mut out, "score", json_of_double(score));
    set_member(&mut out, "vector_scores", vector_scores);
    out
}

/// The text of a point's identity: empty where it has none.
pub fn scored_point_id(id: &Option<PointKey>) -> (r: String)
    ensures
        r@ == (match *id {
            Some(PointKey::Uuid(u)) => u@,
            Some(PointKey::Num(n)) => text::decimal(n as nat),
            None => ""@,
        }),
{
    match id {
        Some(PointKey::Uuid(u)) => u.as_str().to_owned(),
        Some(PointKey::Num(n)) => decimal_text(*n),
        None => "".to_owned(),
    }
}

/// The members without the one that has the key.
pub open spec fn without_member(m: Seq<(Seq<char>, Json)>, key: Seq<char>) -> Seq<
    (Seq<char>, Json),
> {
    let i = json::member_index(m, key);
    if i < m.len() {
        m.remove(i)
    } else {
        m
    }
}

fn remove_member(m: &mut Vec<(String, JsonValue)>, key: &str)
    ensures
        json::members(final(m)@) == without_member(json::members(old(m)@), key@),
{
    let ghost before = json::members(m@);
    let i = find_member(m, key);
    if i < m.len() {
        let _ = m.remove(i);
        assert(json::members(m@) =~= before.remove(i as int));
    }
}

/// What is stored of a document: nothing of its vectors, and its content only
/// where the collection keeps it.
pub open spec fn stored_part(m: Seq<(Seq<char>, Json)>, store_content: bool) -> Seq<
    (Seq<char>, Json),
> {
    let plain = without_member(
        without_member(without_member(m, "vectors"@), "token_lengths"@),
        "custom_vectors"@,
    );
    if store_content {
        plain
    } else {
        without_member(plain, "content"@)
    }
}

/// Why a document has no payload.
pub open spec fn not_an_object() -> Seq<char> {
    "Expected object when serializing document"@
}

/// The payload of a document with vectors, from its JSON.
pub fn doc_to_payload(doc: JsonValue, store_content: bool) -> (r: Result<
    Vec<(String, JsonValue)>,
    DbError,
>)
    ensures
        match r {
            Ok(m) => doc@ is Object && json::members(m@) == stored_part(
                doc@->Object_0,
                store_content,
            ),
            Err(e) => !(doc@ is Object) && (e matches DbError::Config(t) && t@ == not_an_object()),
        },
{
    match doc {
        JsonValue::Object(mut m) => {
            proof {
                JsonValue::object_view(m);
            }
            remove_member(&mut m, "vectors");
            remove_member(&mut m, "token_lengths");
            remove_member(&mut m, "custom_vectors");
            if !store_content {
                remove_member(&mut m, "content");
            }
            Ok(m)
        },
        _ => Err(DbError::Config("Expected object when serializing document".to_owned())),
    }
}

/// The payload of a document whose vectors stay as they are, from its JSON.
pub fn doc_payload_only(doc: JsonValue, store_content: bool) -> (r: Result<
    Vec<(String, JsonValue)>,
    DbError,
>)
    ensures
        match r {
            Ok(m) => doc@ is Object && json::members(m@) == (if store_content {
                doc@->Object_0
            } else {
                without_member(doc@->Object_0, "content"@)
            }),
            Err(e) => !(doc@ is Object) && (e matches DbError::Config(t) && t@ == not_an_object()),
        },
{
    match doc {
        JsonValue::Object(mut m) => {
            proof {
                JsonValue::object_view(m);
            }
            if !store_content {
                remove_member(&mut m, "content");
            }
            Ok(m)
        },
        _ => Err(DbError::Config("Expected object when serializing document".to_owned())),
    }
}

/// Whether no key stands twice.
pub open spec fn keys_differ(m: Seq<(Seq<char>, Json)>) -> bool {
    forall|i: int, j: int|
        #![trigger m[i], m[j]]
        0 <= i < j < m.len() ==> m[i].0 != m[j].0
}

proof fn lemma_removed(m: Seq<(Seq<char>, Json)>, key: Seq<char>, other: Seq<char>)
    requires
        keys_differ(m),
    ensures
        keys_differ(without_member(m, key)),
        json::member(without_member(m, key), key) is None,
        key != other ==> json::member(without_member(m, key), other) == json::member(m, other),
        json::member(m, other) is None ==> json::member(without_member(m, key), other) is None,
{
    let w = without_member(m, key);
    let i = json::member_index(m, key);
    json::member_index_is_first(m, key);
    json::member_index_is_first(w, key);
    json::member_index_is_first(m, other);
    json::member_index_is_first(w, other);
    if i < m.len() {
        assert forall|a: int| 0 <= a < w.len() implies #[trigger] w[a] == m[if a < i {
            a
        } else {
            a + 1
        }] by {}
        if json::member_index(w, key) < w.len() {
            let a = json::member_index(w, key);
            assert(w[a].0 == key);
            assert(m[i].0 == key);
        }
        let o = json::member_index(m, other);
        let p = json::member_index(w, other);
        if key != other && o < m.len() {
            let moved = if o < i {
                o
            } else {
                o - 1
            };
            assert(w[moved] == m[o]);
        }
        if p < w.len() {
            assert(w[p].0 == other);
        }
    }
}

/// A stored document holds nothing of its vectors, and no content where the
/// collection does not keep it. Every other member is stored as it is.
pub proof fn payloads_hold_no_vectors(
    m: Seq<(Seq<char>, Json)>,
    store_content: bool,
    key: Seq<char>,
)
    requires
        keys_differ(m),
    ensures
        json::member(stored_part(m, store_content), "vectors"@) is None,
        json::member(stored_part(m, store_content), "token_lengths"@) is None,
        json::member(stored_part(m, store_content), "custom_vectors"@) is None,
        !store_content ==> json::member(stored_part(m, store_content), "content"@) is None,
        key != "vectors"@ && key != "token_lengths"@ && key != "custom_vectors"@ && (store_content
            || key != "content"@) ==> json::member(stored_part(m, store_content), key)
            == json::member(m, key),
{
    let a = without_member(m, "vectors"@);
    let b = without_member(a, "token_lengths"@);
    let c = without_member(b, "custom_vectors"@);
    lemma_removed(m, "vectors"@, key);
    lemma_removed(a, "token_lengths"@, key);
    lemma_removed(b, "custom_vectors"@, key);
    lemma_removed(c, "content"@, key);
    lemma_removed(a, "token_lengths"@, "vectors"@);
    lemma_removed(b, "custom_vectors"@, "vectors"@);
    lemma_removed(c, "content"@, "vectors"@);
    lemma_removed(b, "custom_vectors"@, "token_lengths"@);
    lemma_removed(c, "content"@, "token_lengths"@);
    lemma_removed(c, "content"@, "custom_vectors"@);
}

/// What stands under a key that occurs once is found under it, and nothing is
/// found under a key that does not occur.
pub proof fn only_fields_are_found(f: Seq<(String, StoredValue)>, key: Seq<char>, k: int)
    ensures
        0 <= k < f.len() && f[k].0@ == key && (forall|i: int|
            0 <= i < f.len() && i != k ==> (#[trigger] f[i]).0@ != key) ==> stored_field(f, key)
            == Some(f[k].1),
        (forall|i: int| 0 <= i < f.len() ==> (#[trigger] f[i]).0@ != key) ==> stored_field(f, key)
            is None,
    decreases f.len(),
{
    if f.len() > 0 {
        let rest = f.drop_first();
        only_fields_are_found(rest, key, k - 1);
        if forall|i: int| 0 <= i < f.len() ==> (#[trigger] f[i]).0@ != key {
            assert forall|i: int| 0 <= i < rest.len() implies (#[trigger] rest[i]).0@ != key by {
                assert(rest[i] == f[i + 1]);
            }
        }
        if 0 < k < f.len() && f[k].0@ == key && (forall|i: int|
            0 <= i < f.len() && i != k ==> (#[trigger] f[i]).0@ != key) {
            assert(f[0].0@ != key);
            assert forall|i: int| 0 <= i < rest.len() && i != k - 1 implies (
            #[trigger] rest[i]).0@ != key by {
                assert(rest[i] == f[i + 1]);
            }
            assert(rest[k - 1] == f[k]);
        }
    }
}

/// A stored value is read as it was stored: what is no number that can be written
/// is read as nothing.
pub proof fn stored_values_are_read_as_they_are(b: bool, i: i64, d: Double, s: String)
    ensures
        stored_json(StoredValue::Null) == Json::Null,
        stored_json(StoredValue::Bool(b)) == Json::Bool(b),
        stored_json(StoredValue::Text(s)) == Json::Text(s@),
        i >= 0 ==> stored_json(StoredValue::Integer(i, d)) == Json::Number(
            JsonNumber::Unsigned(i as u64, d),
        ),
        i < 0 ==> stored_json(StoredValue::Integer(i, d)) == Json::Number(
            JsonNumber::Negative(i, d),
        ),
        d.bits < 0x7ff0_0000_0000_0000 || 0x8000_0000_0000_0000 <= d.bits < 0xfff0_0000_0000_0000
            ==> stored_json(StoredValue::Number(d)) == Json::Number(JsonNumber::Float(d)),
        0x7ff0_0000_0000_0000 <= d.bits < 0x8000_0000_0000_0000 || d.bits >= 0xfff0_0000_0000_0000
            ==> stored_json(StoredValue::Number(d)) == Json::Null,
{
}

/// A stored list is read place by place.
pub proof fn stored_lists_are_read_by_place(l: Vec<StoredValue>, i: int)
    requires
        0 <= i < l@.len(),
    ensures
        stored_json(StoredValue::List(l)) is Array,
        stored_json(StoredValue::List(l))->Array_0.len() == l@.len(),
        stored_json(StoredValue::List(l))->Array_0[i] == stored_json(l@[i]),
{
}

/// A stored structure is read field by field: one more field is read under its
/// key, and the others stay.
pub proof fn stored_fields_are_read_back(
    f: Seq<(String, StoredValue)>,
    one: (String, StoredValue),
    other: Seq<char>,
)
    ensures
        json::member(stored_members(f.push(one)), one.0@) == Some(stored_json(one.1)),
        other != one.0@ ==> json::member(stored_members(f.push(one)), other) == json::member(
            stored_members(f),
            other,
        ),
        json::member(stored_members(Seq::empty()), other) is None,
{
    assert(f.push(one).drop_last() =~= f);
    json::set_members_are_read_back(stored_members(f), one.0@, stored_json(one.1), other);
}

} // verus!
