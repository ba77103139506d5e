//! Content hashes, metadata normalization, result ranking and payload shapes.

use vstd::prelude::*;
use crate::common::MAX_METADATA_VALUE_LENGTH;
use crate::datetime_parse;
use crate::datetime_parse::is_valid_datetime_string;
use crate::json;
use crate::json::{get_member, Json, JsonValue};
use crate::models::Document;
use crate::text;
use crate::text::{
    char_count, chars_of, find_char, hex_text, same_text, text2, text3, text5, text_between,
};

verus! {

/// The two 64-bit halves of `murmurhash3_x64_128` of some bytes with a seed, as
/// a machine that stores the low byte of a number first computes them.
pub uninterp spec fn murmur3_x64_128(bytes: Seq<u8>, seed: u64) -> (u64, u64);

/// Calls `murmurhash3::murmurhash3_x64_128`, a function of the bytes and the
/// seed. It reads eight bytes at a time as one number, in the byte order of the
/// machine; the name is for machines that store the low byte first.
#[verifier::external_body]
fn hash_x64_128(bytes: &[u8], seed: u64) -> (r: (u64, u64))
    ensures
        r == murmur3_x64_128(bytes@, seed),
{
    murmurhash3::murmurhash3_x64_128(bytes, seed)
}

/// The 128-bit hash of a text in 32 hexadecimal digits, the second half first.
pub open spec fn hash_digits(halves: (u64, u64)) -> Seq<char> {
    text::hex_fixed(halves.1 as nat, 16) + text::hex_fixed(halves.0 as nat, 16)
}

/// Writes the two halves of a hash in hexadecimal.
pub fn hash_text(halves: (u64, u64)) -> (r: String)
    ensures
        r@ == hash_digits(halves),
{
    let high = hex_text(halves.1, 16);
    let low = hex_text(halves.0, 16);
    text2(high.as_str(), low.as_str())
}

/// The text whose hash stands for a document's content; no content is hashed
/// as the empty text.
pub open spec fn hashed_content(content: Option<String>) -> Seq<char> {
    match content {
        Some(c) => c@,
        None => Seq::empty(),
    }
}

/// The hash of a document's content.
pub open spec fn content_hash_of(content: Option<String>) -> Seq<char> {
    hash_digits(murmur3_x64_128(vstd::utf8::encode_utf8(hashed_content(content)), 0))
}

/// Sets `content_hash` from the document's content, overwriting any value the
/// client supplied.
pub fn set_content_hash(document: &mut Document)
    ensures
        final(document).content_hash is Some,
        final(document).content_hash->0@ == content_hash_of(old(document).content),
        *final(document) == (Document {
            content_hash: final(document).content_hash,
            ..*old(document)
        }),
{
    let halves = match &document.content {
        Some(c) => hash_x64_128(c.as_str().as_bytes(), 0),
        None => {
            let empty = String::new();
            assert(empty@ =~= Seq::<char>::empty());
            hash_x64_128(empty.as_str().as_bytes(), 0)
        },
    };
    document.content_hash = Some(hash_text(halves));
}

/// Documents without content and with empty content have the same hash, and
/// the hash depends on nothing but the content.
pub proof fn missing_content_hashes_as_empty(a: Option<String>, b: Option<String>)
    requires
        a is None,
        b is Some,
        b->0@.len() == 0,
    ensures
        content_hash_of(a) == content_hash_of(b),
{
    assert(b->0@ =~= Seq::<char>::empty());
}

/// The types that a wrapped metadata value can declare.
pub open spec fn is_meta_type(t: Seq<char>) -> bool {
    ||| t == "string"@
    ||| t == "integer"@
    ||| t == "float"@
    ||| t == "boolean"@
    ||| t == "datetime"@
    ||| t == "array"@
    ||| t == "object"@
}

/// Whether `t` is a type that a wrapped metadata value can declare.
pub fn meta_type_allowed(t: &str) -> (r: bool)
    ensures
        r == is_meta_type(t@),
{
    same_text(t, "string") || same_text(t, "integer") || same_text(t, "float") || same_text(
        t,
        "boolean",
    ) || same_text(t, "datetime") || same_text(t, "array") || same_text(t, "object")
}

/// The message for a wrapped value that is not of its declared type.
pub open spec fn mismatch_text(
    key: Seq<char>,
    wanted: Seq<char>,
    type_str: Seq<char>,
    val: Json,
) -> Seq<char> {
    "Metadata value for key '"@ + key + "' must be "@ + wanted + " for type='"@ + type_str
        + "', got "@ + val.kind_name()
}

fn mismatch(key: &str, wanted: &str, type_str: &str, val: &JsonValue) -> (r: String)
    ensures
        r@ == mismatch_text(key@, wanted@, type_str@, val@),
{
    let mut s = text5("Metadata value for key '", key, "' must be ", wanted, " for type='");
    s.append(type_str);
    s.append("', got ");
    s.append(val.kind_name());
    s
}

/// The message for a string that is too long to be a metadata value.
pub open spec fn too_long_text(key: Seq<char>) -> Seq<char> {
    "String metadata value for key '"@ + key + "' exceeds 1000000 character limit"@
}

/// What a metadata value wrapped as `{"value": val, "type": type_str}` is
/// stored as, for a type that can be declared.
pub open spec fn unwrapped_value(
    key: Seq<char>,
    type_str: Seq<char>,
    val: Json,
) -> Result<Json, Seq<char>> {
    if type_str == "string"@ {
        match val {
            Json::Text(s) => if s.len() > MAX_METADATA_VALUE_LENGTH {
                Err(too_long_text(key))
            } else {
                Ok(val)
            },
            _ => Err(mismatch_text(key, "string"@, type_str, val)),
        }
    } else if type_str == "integer"@ {
        match val {
            Json::Number(n) => if n.is_integer() {
                Ok(val)
            } else {
                Err(mismatch_text(key, "integer"@, type_str, val))
            },
            _ => Err(mismatch_text(key, "integer"@, type_str, val)),
        }
    } else if type_str == "float"@ {
        if val is Number {
            Ok(val)
        } else {
            Err(mismatch_text(key, "number"@, type_str, val))
        }
    } else if type_str == "boolean"@ {
        if val is Bool {
            Ok(val)
        } else {
            Err(mismatch_text(key, "boolean"@, type_str, val))
        }
    } else if type_str == "datetime"@ {
        match val {
            Json::Text(s) => if datetime_parse::is_datetime_text(s) {
                Ok(val)
            } else {
                Err(
                    "Metadata value for key '"@ + key
                        + "' must be a valid ISO 8601 datetime string, got '"@ + s + "'"@,
                )
            },
            _ => Err(mismatch_text(key, "string (ISO 8601)"@, type_str, val)),
        }
    } else if type_str == "array"@ {
        if val is Array {
            Ok(val)
        } else {
            Err(mismatch_text(key, "array"@, type_str, val))
        }
    } else {
        if val is Object || val is Null {
            Ok(val)
        } else {
            Err(mismatch_text(key, "object or null"@, type_str, val))
        }
    }
}

/// The view of a result that holds a JSON value or a message.
pub open spec fn json_result(r: Result<JsonValue, String>) -> Result<Json, Seq<char>> {
    match r {
        Ok(v) => Ok(v@),
        Err(e) => Err(e@),
    }
}

/// Checks a wrapped metadata value against its declared type and copies it.
pub fn validate_and_clone_meta_inner(key: &str, type_str: &str, val: &JsonValue) -> (r: Result<
    JsonValue,
    String,
>)
    requires
        is_meta_type(type_str@),
    ensures
        json_result(r) == unwrapped_value(key@, type_str@, val@),
{
    if same_text(type_str, "string") {
        match val {
            JsonValue::Text(s) => if char_count(s.as_str()) > MAX_METADATA_VALUE_LENGTH {
                Err(
                    text3(
                        "String metadata value for key '",
                        key,
                        "' exceeds 1000000 character limit",
                    ),
                )
            } else {
                Ok(JsonValue::Text(s.clone()))
            },
            _ => Err(mismatch(key, "string", type_str, val)),
        }
    } else if same_text(type_str, "integer") {
        match val {
            JsonValue::Number(n) => if n.is_int() {
                Ok(val.duplicate())
            } else {
                Err(mismatch(key, "integer", type_str, val))
            },
            _ => Err(mismatch(key, "integer", type_str, val)),
        }
    } else if same_text(type_str, "float") {
        if matches!(val, JsonValue::Number(_)) {
            Ok(val.duplicate())
        } else {
            Err(mismatch(key, "number", type_str, val))
        }
    } else if same_text(type_str, "boolean") {
        if matches!(val, JsonValue::Bool(_)) {
            Ok(val.duplicate())
        } else {
            Err(mismatch(key, "boolean", type_str, val))
        }
    } else if same_text(type_str, "datetime") {
        match val {
            JsonValue::Text(s) => if is_valid_datetime_string(s.as_str()) {
                Ok(JsonValue::Text(s.clone()))
            } else {
                Err(
                    text5(
                        "Metadata value for key '",
                        key,
                        "' must be a valid ISO 8601 datetime string, got '",
                        s.as_str(),
                        "'",
                    ),
                )
            },
            _ => Err(mismatch(key, "string (ISO 8601)", type_str, val)),
        }
    } else if same_text(type_str, "array") {
        if matches!(val, JsonValue::Array(_)) {
            Ok(val.duplicate())
        } else {
            Err(mismatch(key, "array", type_str, val))
        }
    } else {
        if matches!(val, JsonValue::Object(_)) || val.is_null() {
            Ok(val.duplicate())
        } else {
            Err(mismatch(key, "object or null", type_str, val))
        }
    }
}

/// The declared type of a value in wrapped form: an object of exactly the
/// members `value` and `type`, with a text as its type.
pub open spec fn wrapped_type(v: Json) -> Option<Seq<char>> {
    match v {
        Json::Object(o) => if o.len() == 2 && json::member(o, "value"@) is Some {
            match json::member(o, "type"@) {
                Some(Json::Text(t)) => Some(t),
                _ => None,
            }
        } else {
            None
        },
        _ => None,
    }
}

/// What a metadata value is stored as: wrapped values are checked and
/// unwrapped, strings must not be too long, and anything else stays.
pub open spec fn stored_value(key: Seq<char>, v: Json) -> Result<Json, Seq<char>> {
    match wrapped_type(v) {
        Some(t) => if is_meta_type(t) {
            unwrapped_value(key, t, json::member(v->Object_0, "value"@)->0)
        } else {
            Err(
                "Invalid metadata type '"@ + t + "' for key '"@ + key
                    + "'. Allowed types: [\"string\", \"integer\", \"float\", \"boolean\", \"datetime\", \"array\", \"object\"]"@,
            )
        },
        None => match v {
            Json::Text(s) => if s.len() > MAX_METADATA_VALUE_LENGTH {
                Err(too_long_text(key))
            } else {
                Ok(v)
            },
            _ => Ok(v),
        },
    }
}

/// Brings one metadata value into the form in which it is stored.
pub fn normalize_one_metadata_value(key: &str, value: &JsonValue) -> (r: Result<
    JsonValue,
    String,
>)
    ensures
        json_result(r) == stored_value(key@, value@),
{
    match value {
        JsonValue::Object(o) => {
            proof {
                JsonValue::object_view(*o);
            }
            if o.len() == 2 {
                if let Some(inner) = get_member(o, "value") {
                    if let Some(JsonValue::Text(t)) = get_member(o, "type") {
                        if !meta_type_allowed(t.as_str()) {
                            return Err(
                                text5(
                                    "Invalid metadata type '",
                                    t.as_str(),
                                    "' for key '",
                                    key,
                                    "'. Allowed types: [\"string\", \"integer\", \"float\", \"boolean\", \"datetime\", \"array\", \"object\"]",
                                ),
                            );
                        }
                        return validate_and_clone_meta_inner(key, t.as_str(), inner);
                    }
                }
            }
            Ok(value.duplicate())
        },
        JsonValue::Text(s) => if char_count(s.as_str()) > MAX_METADATA_VALUE_LENGTH {
            Err(
                text3(
                    "String metadata value for key '",
                    key,
                    "' exceeds 1000000 character limit",
                ),
            )
        } else {
            Ok(JsonValue::Text(s.clone()))
        },
        _ => Ok(value.duplicate()),
    }
}

/// What metadata is stored as: every value in its stored form, or the message
/// of the first value that has none.
pub open spec fn stored_metadata(m: Seq<(Seq<char>, Json)>) -> Result<
    Seq<(Seq<char>, Json)>,
    Seq<char>,
>
    decreases m.len(),
{
    if m.len() == 0 {
        Ok(Seq::empty())
    } else {
        match stored_metadata(m.drop_last()) {
            Err(e) => Err(e),
            Ok(rest) => match stored_value(m.last().0, m.last().1) {
                Err(e) => Err(e),
                Ok(v) => Ok(rest.push((m.last().0, v))),
            },
        }
    }
}

proof fn lemma_stored_prefix(m: Seq<(Seq<char>, Json)>, n: int)
    requires
        0 <= n <= m.len(),
        stored_metadata(m.take(n)) is Err,
    ensures
        stored_metadata(m) == stored_metadata(m.take(n)),
    decreases m.len() - n,
{
    if n < m.len() {
        assert(m.take(n + 1).drop_last() =~= m.take(n));
        assert(stored_metadata(m.take(n + 1)) == stored_metadata(m.take(n)));
        lemma_stored_prefix(m, n + 1);
    } else {
        assert(m.take(n) =~= m);
    }
}

/// Whether a stored value is neither in wrapped form itself nor too long a
/// text.
pub open spec fn is_plain(v: Json) -> bool {
    wrapped_type(v) is None && (v matches Json::Text(s) ==> s.len() <= MAX_METADATA_VALUE_LENGTH)
}

/// Metadata keeps its keys when it is brought into stored form, and metadata in
/// stored form stays as it is, where no stored value is in wrapped form again.
pub proof fn stored_metadata_stays(m: Seq<(Seq<char>, Json)>, stored: Seq<(Seq<char>, Json)>)
    requires
        stored_metadata(m) == Ok::<Seq<(Seq<char>, Json)>, Seq<char>>(stored),
    ensures
        stored.len() == m.len(),
        forall|i: int| 0 <= i < m.len() ==> (#[trigger] stored[i]).0 == m[i].0,
        (forall|i: int| 0 <= i < stored.len() ==> is_plain((#[trigger] stored[i]).1))
            ==> stored_metadata(stored) == Ok::<Seq<(Seq<char>, Json)>, Seq<char>>(stored),
    decreases m.len(),
{
    if m.len() > 0 {
        let rest = stored_metadata(m.drop_last())->Ok_0;
        stored_metadata_stays(m.drop_last(), rest);
        assert(stored.drop_last() =~= rest);
        assert forall|i: int| 0 <= i < m.len() implies (#[trigger] stored[i]).0 == m[i].0 by {
            if i < rest.len() {
                assert(rest[i] == stored[i]);
                assert(m.drop_last()[i] == m[i]);
            }
        }
        if forall|i: int| 0 <= i < stored.len() ==> is_plain((#[trigger] stored[i]).1) {
            assert forall|i: int| 0 <= i < rest.len() implies is_plain((#[trigger] rest[i]).1) by {
                assert(rest[i] == stored[i]);
            }
            assert(is_plain(stored[stored.len() - 1].1));
            assert(stored =~= rest.push(stored.last()));
        }
    } else {
        assert(stored =~= Seq::empty());
    }
}

/// The members of optional metadata; no metadata has none.
pub open spec fn metadata_members(m: Option<Vec<(String, JsonValue)>>) -> Seq<(Seq<char>, Json)> {
    match m {
        Some(v) => json::members(v@),
        None => Seq::empty(),
    }
}

/// Brings a document's metadata into the form in which it is stored. Where a
/// value has none, the document stays as it is and the message is returned.
pub fn normalize_document_metadata_inplace(doc: &mut Document) -> (r: Result<(), String>)
    ensures
        match r {
            Ok(_) => stored_metadata(metadata_members(old(doc).metadata)) == Ok::<
                Seq<(Seq<char>, Json)>,
                Seq<char>,
            >(metadata_members(final(doc).metadata)) && (final(doc).metadata is Some <==> old(
                doc,
            ).metadata is Some),
            Err(e) => stored_metadata(metadata_members(old(doc).metadata)) == Err::<
                Seq<(Seq<char>, Json)>,
                Seq<char>,
            >(e@) && final(doc).metadata == old(doc).metadata,
        },
        *final(doc) == (Document { metadata: final(doc).metadata, ..*old(doc) }),
{
    let mut out: Vec<(String, JsonValue)> = Vec::new();
    match &doc.metadata {
        None => {
            return Ok(());
        },
        Some(md) => {
            let mut i: usize = 0;
            assert(json::members(md@).take(0) =~= Seq::<(Seq<char>, Json)>::empty());
            assert(json::members(out@) =~= Seq::<(Seq<char>, Json)>::empty());
            while i < md.len()
                invariant
                    i <= md@.len(),
                    doc.metadata == Some(*md),
                    *doc == *old(doc),
                    stored_metadata(json::members(md@).take(i as int)) == Ok::<
                        Seq<(Seq<char>, Json)>,
                        Seq<char>,
                    >(json::members(out@)),
                decreases md.len() - i,
            {
                let ghost next = json::members(md@).take(i as int + 1);
                proof {
                    assert(next.drop_last() =~= json::members(md@).take(i as int));
                    assert(next.last() == (md@[i as int].0@, md@[i as int].1@));
                }
                match normalize_one_metadata_value(md[i].0.as_str(), &md[i].1) {
                    Err(e) => {
                        proof {
                            lemma_stored_prefix(json::members(md@), i as int + 1);
                        }
                        return Err(e);
                    },
                    Ok(v) => {
                        let ghost before = json::members(out@);
                        out.push((md[i].0.clone(), v));
                        assert(json::members(out@) =~= before.push((md@[i as int].0@, v@)));
                    },
                }
                i += 1;
            }
            assert(json::members(md@).take(i as int) =~= json::members(md@));
        },
    }
    doc.metadata = Some(out);
    Ok(())
}

/// The two parts of a text around its first `_`; without one, the whole text
/// and nothing.
pub open spec fn underscore_parts(s: Seq<char>) -> (Seq<char>, Seq<char>) {
    let i = text::first_index(s, '_');
    if i < s.len() {
        (s.take(i), s.skip(i + 1))
    } else {
        (s, Seq::empty())
    }
}

/// Splits `field_vectorname` at the first `_` into `field` and `vectorname`.
pub fn split_first_underscore(s: &str) -> (r: (String, String))
    ensures
        (r.0@, r.1@) == underscore_parts(s@),
{
    let cs = chars_of(s);
    let i = find_char(&cs, '_');
    if i < cs.len() {
        let head = text_between(&cs, 0, i);
        let tail = text_between(&cs, i + 1, cs.len());
        assert(s@.subrange(0, i as int) =~= s@.take(i as int));
        assert(s@.subrange(i + 1, s@.len() as int) =~= s@.skip(i + 1));
        (head, tail)
    } else {
        let none = String::new();
        assert(none@ =~= Seq::<char>::empty());
        (s.to_owned(), none)
    }
}

/// A field without `_` comes back from the name of its vector slot, and so
/// does the vector's name, whatever it holds.
pub proof fn slot_names_split_back(field: Seq<char>, vector: Seq<char>)
    requires
        !field.contains('_'),
    ensures
        underscore_parts(field + "_"@ + vector) == (field, vector),
{
    reveal_strlit("_");
    let s = field + "_"@ + vector;
    text::first_index_is_first(s, '_');
    let i = text::first_index(s, '_');
    assert(s[field.len() as int] == '_');
    if i < field.len() {
        assert(s[i] == field[i]);
        assert(field.contains('_'));
    }
    assert(s.take(field.len() as int) =~= field);
    assert(s.skip(field.len() as int + 1) =~= vector);
}

/// Whether a value is of a type: up to a million characters for a text, a whole
/// number for an integer, any number, a truth value, the text of an instant, a
/// list, or an object or nothing.
pub open spec fn is_of_type(t: Seq<char>, v: Json) -> bool {
    ||| t == "string"@ && (v matches Json::Text(s) && s.len() <= 1_000_000)
    ||| t == "integer"@ && (v matches Json::Number(n) && !(n is Float))
    ||| t == "float"@ && v is Number
    ||| t == "boolean"@ && v is Bool
    ||| t == "datetime"@ && (v matches Json::Text(s) && datetime_parse::is_datetime_text(s))
    ||| t == "array"@ && v is Array
    ||| t == "object"@ && (v is Object || v is Null)
}

proof fn lemma_types_differ()
    ensures
        "string"@ != "integer"@,
        "string"@ != "float"@,
        "string"@ != "boolean"@,
        "string"@ != "datetime"@,
        "string"@ != "array"@,
        "string"@ != "object"@,
        "integer"@ != "float"@,
        "integer"@ != "boolean"@,
        "integer"@ != "datetime"@,
        "integer"@ != "array"@,
        "integer"@ != "object"@,
        "float"@ != "boolean"@,
        "float"@ != "datetime"@,
        "float"@ != "array"@,
        "float"@ != "object"@,
        "boolean"@ != "datetime"@,
        "boolean"@ != "array"@,
        "boolean"@ != "object"@,
        "datetime"@ != "array"@,
        "datetime"@ != "object"@,
        "array"@ != "object"@,
        "type"@ != "value"@,
{
    reveal_strlit("string");
    reveal_strlit("integer");
    reveal_strlit("float");
    reveal_strlit("boolean");
    reveal_strlit("datetime");
    reveal_strlit("array");
    reveal_strlit("object");
    reveal_strlit("type");
    reveal_strlit("value");
    assert("string"@[0] != "object"@[0]);
    assert("integer"@[0] != "boolean"@[0]);
    assert("float"@[0] != "array"@[0]);
    assert("string"@.len() == 6 && "object"@.len() == 6);
    assert("integer"@.len() == 7 && "boolean"@.len() == 7);
    assert("float"@.len() == 5 && "array"@.len() == 5);
    assert("datetime"@.len() == 8);
    assert("type"@.len() != "value"@.len());
}

/// A value that is given with its type, in an object of exactly these two, is
/// stored bare exactly if it is of the type, and refused otherwise.
pub proof fn typed_values_are_stored_bare(key: Seq<char>, t: Seq<char>, v: Json)
    ensures
        ({
            let given = Json::Object(seq![("type"@, Json::Text(t)), ("value"@, v)]);
            let turned = Json::Object(seq![("value"@, v), ("type"@, Json::Text(t))]);
            &&& is_of_type(t, v) ==> stored_value(key, given) == Ok::<Json, Seq<char>>(v)
                && stored_value(key, turned) == Ok::<Json, Seq<char>>(v)
            &&& !is_of_type(t, v) ==> stored_value(key, given) is Err && stored_value(
                key,
                turned,
            ) is Err
        }),
{
    lemma_types_differ();
    let a = seq![("type"@, Json::Text(t)), ("value"@, v)];
    let b = seq![("value"@, v), ("type"@, Json::Text(t))];
    json::the_first_member_counts(a, "type"@, 0);
    json::the_first_member_counts(a, "value"@, 1);
    json::the_first_member_counts(b, "value"@, 0);
    json::the_first_member_counts(b, "type"@, 1);
    assert(wrapped_type(Json::Object(a)) == Some(t));
    assert(wrapped_type(Json::Object(b)) == Some(t));
}

/// A value without a type beside it is stored as it is, unless it is a text of
/// more than a million characters: that is refused.
pub proof fn plain_values_are_stored_as_they_are(key: Seq<char>, v: Json)
    requires
        match v {
            Json::Object(o) => o.len() != 2 || json::member(o, "type"@) is None || json::member(
                o,
                "value"@,
            ) is None,
            _ => true,
        },
    ensures
        (v matches Json::Text(s) ==> s.len() <= 1_000_000) ==> stored_value(key, v) == Ok::<
            Json,
            Seq<char>,
        >(v),
        (v matches Json::Text(s) && s.len() > 1_000_000) ==> stored_value(key, v) is Err,
{
}

/// Metadata is stored exactly if every value is, each under its key and in its
/// place.
pub proof fn metadata_is_stored_value_by_value(m: Seq<(Seq<char>, Json)>)
    ensures
        stored_metadata(m) is Ok <==> forall|i: int|
            0 <= i < m.len() ==> stored_value((#[trigger] m[i]).0, m[i].1) is Ok,
        stored_metadata(m) matches Ok(stored) ==> stored.len() == m.len() && forall|i: int|
            0 <= i < m.len() ==> (#[trigger] stored[i]).0 == m[i].0 && stored_value(
                m[i].0,
                m[i].1,
            ) == Ok::<Json, Seq<char>>(stored[i].1),
    decreases m.len(),
{
    if m.len() > 0 {
        let rest = m.drop_last();
        metadata_is_stored_value_by_value(rest);
        assert(forall|i: int| 0 <= i < rest.len() ==> #[trigger] rest[i] == m[i]);
        assert(m[m.len() - 1] == m.last());
        if stored_metadata(m) is Ok {
            assert forall|i: int| 0 <= i < m.len() implies stored_value(
                (#[trigger] m[i]).0,
                m[i].1,
            ) is Ok by {
                if i < rest.len() {
                    assert(rest[i] == m[i]);
                }
            }
        }
        if forall|i: int|
            0 <= i < m.len() ==> stored_value((#[trigger] m[i]).0, m[i].1) is Ok {
            assert forall|i: int| 0 <= i < rest.len() implies stored_value(
                (#[trigger] rest[i]).0,
                rest[i].1,
            ) is Ok by {
                assert(rest[i] == m[i]);
            }
        }
    }
}

/// The text of a hash is thirty-two digits: those of the upper half, then those
/// of the lower one.
pub proof fn hashes_are_written_upper_half_first(lower: u64, upper: u64)
    ensures
        hash_digits((lower, upper)).len() == 32,
        hash_digits((lower, upper)).take(16) == text::hex_fixed(upper as nat, 16),
        hash_digits((lower, upper)).skip(16) == text::hex_fixed(lower as nat, 16),
{
    lemma_hex_length(upper as nat, 16);
    lemma_hex_length(lower as nat, 16);
    let a = text::hex_fixed(upper as nat, 16);
    let b = text::hex_fixed(lower as nat, 16);
    assert((a + b).take(16) =~= a);
    assert((a + b).skip(16) =~= b);
}

proof fn lemma_hex_length(n: nat, width: nat)
    ensures
        text::hex_fixed(n, width).len() == width,
    decreases width,
{
    if width > 0 {
        lemma_hex_length(n / 16, (width - 1) as nat);
    }
}

/// A name without an underscore is all field and no vector.
pub proof fn names_without_underscore_are_fields(s: Seq<char>)
    requires
        !s.contains('_'),
    ensures
        underscore_parts(s) == (s, Seq::<char>::empty()),
{
    text::first_index_is_first(s, '_');
    let i = text::first_index(s, '_');
    if i < s.len() {
        assert(s[i] == '_');
    }
}

} // verus!
