//! Validation of incoming requests: what is wrong with a document, a
//! collection's configuration or a search query, and in which words.

use vstd::prelude::*;
use crate::common::{
    MAX_BULK_UPLOAD, MAX_COLLECTION_NAME_LENGTH, MAX_DOCUMENT_CONTENT_LENGTH,
    MAX_DOCUMENT_DESCRIPTION_LENGTH, MAX_DOCUMENT_ID_LENGTH, MAX_DOCUMENT_NAME_LENGTH,
    MAX_DOCUMENT_TAGS_COUNT, MAX_DOCUMENT_TAG_LENGTH, MAX_METADATA_KEY_LENGTH,
    MAX_METADATA_VALUE_LENGTH, MAX_VECTOR_NAME_LENGTH,
};
use crate::datetime_parse;
use crate::datetime_parse::is_valid_datetime_string;
use crate::functions;
use crate::functions::meta_type_allowed;
use crate::json;
use crate::json::{get_member, Json, JsonValue};
use crate::models::{BulkUploadRequest, CustomDocumentVector, Document};
use crate::text;
use crate::text::{
    char_count, decimal_text, has_char, identifier, same_text, text2, text3, text4, trimmed,
};

verus! {

/// What is wrong with a request, in words.
#[derive(Debug, PartialEq, Eq)]
pub struct ValidationError(pub String);

/// What a validation found wrong, if anything.
pub open spec fn problem(r: Result<(), ValidationError>) -> Option<Seq<char>> {
    match r {
        Ok(_) => None,
        Err(e) => Some(e.0@),
    }
}

/// The first of two problems.
pub open spec fn first(a: Option<Seq<char>>, b: Option<Seq<char>>) -> Option<Seq<char>> {
    if a is Some {
        a
    } else {
        b
    }
}

/// The refusal with this message.
pub(crate) fn fail(message: &str) -> (r: Result<(), ValidationError>)
    ensures
        problem(r) == Some(message@),
{
    Err(ValidationError(message.to_owned()))
}

/// The refusal with this message.
pub(crate) fn fail_with(message: String) -> (r: Result<(), ValidationError>)
    ensures
        problem(r) == Some(message@),
{
    Err(ValidationError(message))
}

/// What is wrong with a collection's name.
pub open spec fn collection_name_problem(name: Seq<char>) -> Option<Seq<char>> {
    if name.len() == 0 {
        Some("ensure this value has at least 1 characters"@)
    } else if name.len() > MAX_COLLECTION_NAME_LENGTH {
        Some("ensure this value has at most 100 characters"@)
    } else if !text::is_identifier(name) {
        Some("string does not match regex \"^[a-zA-Z0-9_-]+$\""@)
    } else {
        None
    }
}

/// Checks a collection's name.
pub fn validate_collection_name(name: &str) -> (r: Result<(), ValidationError>)
    ensures
        problem(r) == collection_name_problem(name@),
{
    let n = char_count(name);
    if n == 0 {
        return fail("ensure this value has at least 1 characters");
    }
    if n > MAX_COLLECTION_NAME_LENGTH {
        return fail("ensure this value has at most 100 characters");
    }
    if !identifier(name) {
        return fail("string does not match regex \"^[a-zA-Z0-9_-]+$\"");
    }
    Ok(())
}

/// What is wrong with a document's id.
pub open spec fn id_problem(id: Seq<char>) -> Option<Seq<char>> {
    let s = text::trim(id);
    if s.len() == 0 {
        Some("id: Document ID cannot be empty or whitespace"@)
    } else if !text::is_identifier(s) {
        Some(
            "id: Document ID can only contain letters, numbers, underscores, and hyphens"@,
        )
    } else if s.len() > MAX_DOCUMENT_ID_LENGTH {
        Some("id: ensure this value has at most 100 characters"@)
    } else {
        None
    }
}

fn validate_document_id(id: &str) -> (r: Result<(), ValidationError>)
    ensures
        problem(r) == id_problem(id@),
{
    let s = trimmed(id);
    let n = char_count(s.as_str());
    if n == 0 {
        return fail("id: Document ID cannot be empty or whitespace");
    }
    if !identifier(s.as_str()) {
        return fail("id: Document ID can only contain letters, numbers, underscores, and hyphens");
    }
    if n > MAX_DOCUMENT_ID_LENGTH {
        return fail("id: ensure this value has at most 100 characters");
    }
    Ok(())
}

/// Whether one of the first `n` tags is, without the white space around it,
/// the text; empty tags do not count.
pub open spec fn tag_seen(tags: Seq<Seq<char>>, n: int, t: Seq<char>) -> bool {
    exists|i: int| 0 <= i < n && text::trim(#[trigger] tags[i]) == t
}

/// What is wrong with the tag at position `i`.
pub open spec fn tag_problem(tags: Seq<Seq<char>>, i: int) -> Option<Seq<char>> {
    let t = text::trim(tags[i]);
    if t.len() == 0 {
        None
    } else if t.contains('|') {
        Some("tags: Tag '"@ + t + "' cannot contain pipe characters (|)"@)
    } else if t.len() > MAX_DOCUMENT_TAG_LENGTH {
        Some("tags: Tag '"@ + t + "' exceeds 100 character limit"@)
    } else if tag_seen(tags, i, t) {
        Some("tags: Tags must not contain duplicates"@)
    } else {
        None
    }
}

/// The first thing wrong with the tags from position `i` on.
pub open spec fn tags_problem_from(tags: Seq<Seq<char>>, i: int) -> Option<Seq<char>>
    decreases tags.len() - i,
{
    if i < 0 || i >= tags.len() {
        None
    } else {
        first(tag_problem(tags, i), tags_problem_from(tags, i + 1))
    }
}

/// What is wrong with a document's tags.
pub open spec fn tags_problem(tags: Seq<Seq<char>>) -> Option<Seq<char>> {
    if tags.len() > MAX_DOCUMENT_TAGS_COUNT {
        Some("tags: ensure this value has at most 50 items"@)
    } else {
        tags_problem_from(tags, 0)
    }
}

fn validate_tags(tags: &Vec<String>) -> (r: Result<(), ValidationError>)
    ensures
        problem(r) == tags_problem(text::views(tags@)),
{
    let ghost all = text::views(tags@);
    assert(all.len() == tags@.len());
    if tags.len() > MAX_DOCUMENT_TAGS_COUNT {
        return fail("tags: ensure this value has at most 50 items");
    }
    let mut seen: Vec<String> = Vec::new();
    let mut i: usize = 0;
    while i < tags.len()
        invariant
            i <= tags@.len(),
            all == text::views(tags@),
            all.len() == tags@.len(),
            tags@.len() <= MAX_DOCUMENT_TAGS_COUNT,
            tags_problem(all) == tags_problem_from(all, i as int),
            forall|t: Seq<char>|
                t.len() > 0 ==> (#[trigger] text::views(seen@).contains(t) <==> tag_seen(
                    all,
                    i as int,
                    t,
                )),
        decreases tags.len() - i,
    {
        let t = trimmed(tags[i].as_str());
        assert(all[i as int] == tags@[i as int]@);
        let n = char_count(t.as_str());
        let ghost before = text::views(seen@);
        if n > 0 {
            if has_char(t.as_str(), '|') {
                return fail_with(
                    text3("tags: Tag '", t.as_str(), "' cannot contain pipe characters (|)"),
                );
            }
            if n > MAX_DOCUMENT_TAG_LENGTH {
                return fail_with(text3("tags: Tag '", t.as_str(), "' exceeds 100 character limit"));
            }
            if text::text_in(&seen, t.as_str()) {
                return fail("tags: Tags must not contain duplicates");
            }
            let ghost view = t@;
            seen.push(t);
            assert(text::views(seen@) =~= before.push(view));
        }
        proof {
            assert forall|u: Seq<char>| u.len() > 0 implies (#[trigger] text::views(
                seen@,
            ).contains(u) <==> tag_seen(all, i as int + 1, u)) by {
                if text::views(seen@).contains(u) {
                    let k = choose|k: int|
                        0 <= k < text::views(seen@).len() && text::views(seen@)[k] == u;
                    if k < before.len() {
                        assert(before[k] == u);
                        assert(before.contains(u));
                        let m = choose|m: int|
                            0 <= m < i && text::trim(#[trigger] all[m]) == u;
                        assert(text::trim(all[m]) == u);
                    } else {
                        assert(text::trim(all[i as int]) == u);
                    }
                }
                if tag_seen(all, i as int + 1, u) {
                    let m = choose|m: int|
                        0 <= m < i + 1 && text::trim(#[trigger] all[m]) == u;
                    if m < i {
                        assert(tag_seen(all, i as int, u));
                        assert(before.contains(u));
                        let k = choose|k: int| 0 <= k < before.len() && before[k] == u;
                        assert(text::views(seen@)[k] == u);
                    } else {
                        assert(text::views(seen@)[seen@.len() - 1] == u);
                    }
                }
            }
        }
        i += 1;
    }
    Ok(())
}

/// What is wrong with an optional text that has a bound.
pub open spec fn length_problem(
    s: Option<Seq<char>>,
    max: nat,
    message: Seq<char>,
) -> Option<Seq<char>> {
    match s {
        Some(t) => if t.len() > max {
            Some(message)
        } else {
            None
        },
        None => None,
    }
}

fn validate_length(s: &Option<String>, max: usize, message: &str) -> (r: Result<
    (),
    ValidationError,
>)
    ensures
        problem(r) == length_problem(text::opt_view(*s), max as nat, message@),
{
    match s {
        Some(t) => if char_count(t.as_str()) > max {
            fail(message)
        } else {
            Ok(())
        },
        None => Ok(()),
    }
}

/// What is wrong with a wrapped metadata value, or with the type it declares.
pub open spec fn meta_value_problem(
    key: Seq<char>,
    type_str: Seq<char>,
    val: Json,
) -> Option<Seq<char>> {
    let name = "metadata."@ + key;
    if !functions::is_meta_type(type_str) {
        Some(
            name + ": invalid type '"@ + type_str
                + "'. Allowed types: [\"string\", \"integer\", \"float\", \"boolean\", \"datetime\", \"array\", \"object\"]"@,
        )
    } else if type_str == "string"@ {
        match val {
            Json::Text(s) => if s.len() > MAX_METADATA_VALUE_LENGTH {
                Some(name + ": string value exceeds 1000000 character limit"@)
            } else {
                None
            },
            _ => Some(
                name + ": value must be string for type='string', got "@ + val.kind_name(),
            ),
        }
    } else if type_str == "integer"@ {
        if val matches Json::Number(n) && n.is_integer() {
            None
        } else {
            Some(name + ": value must be integer for type='integer', got "@ + val.kind_name())
        }
    } else if type_str == "float"@ {
        if val is Number {
            None
        } else {
            Some(name + ": value must be number for type='float', got "@ + val.kind_name())
        }
    } else if type_str == "boolean"@ {
        if val is Bool {
            None
        } else {
            Some(name + ": value must be boolean for type='boolean', got "@ + val.kind_name())
        }
    } else if type_str == "datetime"@ {
        match val {
            Json::Text(s) => if datetime_parse::is_datetime_text(s) {
                None
            } else {
                Some(
                    name + ": value must be a valid ISO 8601 datetime string, got '"@ + s + "'"@,
                )
            },
            _ => Some(
                name + ": value must be string (ISO 8601) for type='datetime', got "@
                    + val.kind_name(),
            ),
        }
    } else if type_str == "array"@ {
        if val is Array {
            None
        } else {
            Some(name + ": value must be array for type='array', got "@ + val.kind_name())
        }
    } else {
        if val is Object || val is Null {
            None
        } else {
            Some(
                name + ": value must be object or null for type='object', got "@ + val.kind_name(),
            )
        }
    }
}

/// Checks a wrapped metadata value against the type it declares.
pub fn validate_meta_value_type(key: &str, type_str: &str, val: &JsonValue) -> (r: Result<
    (),
    ValidationError,
>)
    ensures
        problem(r) == meta_value_problem(key@, type_str@, val@),
{
    let name = text2("metadata.", key);
    if !meta_type_allowed(type_str) {
        return fail_with(
            text4(
                name.as_str(),
                ": invalid type '",
                type_str,
                "'. Allowed types: [\"string\", \"integer\", \"float\", \"boolean\", \"datetime\", \"array\", \"object\"]",
            ),
        );
    }
    if same_text(type_str, "string") {
        match val {
            JsonValue::Text(s) => if char_count(s.as_str()) > MAX_METADATA_VALUE_LENGTH {
                fail_with(
                    text2(name.as_str(), ": string value exceeds 1000000 character limit"),
                )
            } else {
                Ok(())
            },
            _ => fail_with(
                text3(
                    name.as_str(),
                    ": value must be string for type='string', got ",
                    val.kind_name(),
                ),
            ),
        }
    } else if same_text(type_str, "integer") {
        match val {
            JsonValue::Number(n) => if n.is_int() {
                Ok(())
            } else {
                fail_with(
                    text3(
                        name.as_str(),
                        ": value must be integer for type='integer', got ",
                        val.kind_name(),
                    ),
                )
            },
            _ => fail_with(
                text3(
                    name.as_str(),
                    ": value must be integer for type='integer', got ",
                    val.kind_name(),
                ),
            ),
        }
    } else if same_text(type_str, "float") {
        if matches!(val, JsonValue::Number(_)) {
            Ok(())
        } else {
            fail_with(
                text3(
                    name.as_str(),
                    ": value must be number for type='float', got ",
                    val.kind_name(),
                ),
            )
        }
    } else if same_text(type_str, "boolean") {
        if matches!(val, JsonValue::Bool(_)) {
            Ok(())
        } else {
            fail_with(
                text3(
                    name.as_str(),
                    ": value must be boolean for type='boolean', got ",
                    val.kind_name(),
                ),
            )
        }
    } else if same_text(type_str, "datetime") {
        match val {
            JsonValue::Text(s) => if is_valid_datetime_string(s.as_str()) {
                Ok(())
            } else {
                fail_with(
                    text4(
                        name.as_str(),
                        ": value must be a valid ISO 8601 datetime string, got '",
                        s.as_str(),
                        "'",
                    ),
                )
            },
            _ => fail_with(
                text3(
                    name.as_str(),
                    ": value must be string (ISO 8601) for type='datetime', got ",
                    val.kind_name(),
                ),
            ),
        }
    } else if same_text(type_str, "array") {
        if matches!(val, JsonValue::Array(_)) {
            Ok(())
        } else {
            fail_with(
                text3(
                    name.as_str(),
                    ": value must be array for type='array', got ",
                    val.kind_name(),
                ),
            )
        }
    } else {
        if matches!(val, JsonValue::Object(_)) || val.is_null() {
            Ok(())
        } else {
            fail_with(
                text3(
                    name.as_str(),
                    ": value must be object or null for type='object', got ",
                    val.kind_name(),
                ),
            )
        }
    }
}

/// What is wrong with one metadata entry: with its key, or with its value.
pub open spec fn entry_problem(key: Seq<char>, value: Json) -> Option<Seq<char>> {
    if !text::is_identifier(key) {
        Some(
            "metadata."@ + key
                + ": key can only contain letters, numbers, underscores, and hyphens"@,
        )
    } else if key.len() > MAX_METADATA_KEY_LENGTH {
        Some("metadata."@ + key + ": key exceeds 100 character limit"@)
    } else {
        match value {
            Json::Object(o) => if o.len() == 2 && json::member(o, "value"@) is Some && json::member(
                o,
                "type"@,
            ) is Some {
                match json::member(o, "type"@)->0 {
                    Json::Text(t) => meta_value_problem(key, t, json::member(o, "value"@)->0),
                    _ => Some(
                        "metadata."@ + key
                            + ": value is a dict but missing 'value' or 'type' fields. For datetime, use {\"value\": \"...\", \"type\": \"datetime\"}"@,
                    ),
                }
            } else {
                None
            },
            Json::Text(s) => if s.len() > MAX_METADATA_VALUE_LENGTH {
                Some("metadata."@ + key + ": string value exceeds 1000000 character limit"@)
            } else {
                None
            },
            _ => None,
        }
    }
}

fn validate_entry(key: &str, value: &JsonValue) -> (r: Result<(), ValidationError>)
    ensures
        problem(r) == entry_problem(key@, value@),
{
    if !identifier(key) {
        return fail_with(
            text3(
                "metadata.",
                key,
                ": key can only contain letters, numbers, underscores, and hyphens",
            ),
        );
    }
    if char_count(key) > MAX_METADATA_KEY_LENGTH {
        return fail_with(text3("metadata.", key, ": key exceeds 100 character limit"));
    }
    match value {
        JsonValue::Object(o) => {
            proof {
                JsonValue::object_view(*o);
            }
            if o.len() == 2 {
                if let (Some(val), Some(t)) = (get_member(o, "value"), get_member(o, "type")) {
                    return match t {
                        JsonValue::Text(type_str) => validate_meta_value_type(
                            key,
                            type_str.as_str(),
                            val,
                        ),
                        _ => fail_with(
                            text3(
                                "metadata.",
                                key,
                                ": value is a dict but missing 'value' or 'type' fields. For datetime, use {\"value\": \"...\", \"type\": \"datetime\"}",
                            ),
                        ),
                    };
                }
            }
            Ok(())
        },
        JsonValue::Text(s) => if char_count(s.as_str()) > MAX_METADATA_VALUE_LENGTH {
            fail_with(
                text3("metadata.", key, ": string value exceeds 1000000 character limit"),
            )
        } else {
            Ok(())
        },
        _ => Ok(()),
    }
}

/// The first thing wrong with a document's metadata.
pub open spec fn metadata_problem(m: Seq<(Seq<char>, Json)>) -> Option<Seq<char>>
    decreases m.len(),
{
    if m.len() == 0 {
        None
    } else {
        first(entry_problem(m[0].0, m[0].1), metadata_problem(m.drop_first()))
    }
}

fn validate_metadata(metadata: &Vec<(String, JsonValue)>) -> (r: Result<(), ValidationError>)
    ensures
        problem(r) == metadata_problem(json::members(metadata@)),
{
    let ghost all = json::members(metadata@);
    let mut i: usize = 0;
    assert(all.skip(0) =~= all);
    while i < metadata.len()
        invariant
            i <= metadata@.len(),
            all == json::members(metadata@),
            metadata_problem(all) == metadata_problem(all.skip(i as int)),
        decreases metadata.len() - i,
    {
        assert(all.skip(i as int)[0] == (metadata@[i as int].0@, metadata@[i as int].1@));
        assert(all.skip(i as int).drop_first() =~= all.skip(i as int + 1));
        let r = validate_entry(metadata[i].0.as_str(), &metadata[i].1);
        if r.is_err() {
            return r;
        }
        i += 1;
    }
    Ok(())
}

/// Metadata that passes validation can be stored: what the one accepts, the
/// other has a stored form for.
pub proof fn valid_metadata_can_be_stored(m: Seq<(Seq<char>, Json)>)
    requires
        metadata_problem(m) is None,
    ensures
        functions::stored_metadata(m) is Ok,
    decreases m.len(),
{
    if m.len() > 0 {
        lemma_metadata_problem_last(m);
        valid_metadata_can_be_stored(m.drop_last());
        let v = m.last().1;
        match functions::wrapped_type(v) {
            Some(t) => {
                assert(entry_problem(m.last().0, v) is None);
            },
            None => {},
        }
    }
}

proof fn lemma_metadata_problem_last(m: Seq<(Seq<char>, Json)>)
    requires
        m.len() > 0,
        metadata_problem(m) is None,
    ensures
        metadata_problem(m.drop_last()) is None,
        entry_problem(m.last().0, m.last().1) is None,
    decreases m.len(),
{
    if m.len() > 1 {
        lemma_metadata_problem_last(m.drop_first());
        assert(m.drop_last().drop_first() =~= m.drop_first().drop_last());
        assert(m.drop_last()[0] == m[0]);
        assert(m.drop_first().last() == m.last());
    } else {
        assert(m.last() == m[0]);
    }
}

/// What is wrong with the data of a custom vector: a dense one is a list of
/// numbers, a sparse one a list of pairs of an integer and a number.
pub open spec fn vector_data_problem(v: Json) -> Option<Seq<char>> {
    match v {
        Json::Array(items) => if items.len() == 0 {
            Some("Vector data cannot be empty"@)
        } else if items[0] is Number {
            if forall|i: int| 0 <= i < items.len() ==> (#[trigger] items[i]) is Number {
                None
            } else {
                Some("Dense vector must contain only numbers"@)
            }
        } else if items[0] is Array {
            pairs_problem(items)
        } else {
            Some(
                "Vector must be either list of numbers (dense) or list of (index, value) tuples (sparse)"@,
            )
        },
        _ => Some("Vector data cannot be empty"@),
    }
}

/// What is wrong with an item of a sparse vector.
pub open spec fn pair_problem(item: Json) -> Option<Seq<char>> {
    match item {
        Json::Array(p) => if p.len() != 2 {
            Some("Sparse vector must contain (index, value) tuples"@)
        } else if (p[0] matches Json::Number(n) && n.is_integer()) && p[1] is Number {
            None
        } else {
            Some("Sparse vector tuples must be (int, float) pairs"@)
        },
        _ => Some("Sparse vector must contain (index, value) tuples"@),
    }
}

/// The first thing wrong with the items of a sparse vector.
pub open spec fn pairs_problem(items: Seq<Json>) -> Option<Seq<char>>
    decreases items.len(),
{
    if items.len() == 0 {
        None
    } else {
        first(pair_problem(items[0]), pairs_problem(items.drop_first()))
    }
}

fn validate_pair(item: &JsonValue) -> (r: Result<(), ValidationError>)
    ensures
        problem(r) == pair_problem(item@),
{
    match item {
        JsonValue::Array(p) => {
            proof {
                JsonValue::array_view(*p);
            }
            if p.len() != 2 {
                return fail("Sparse vector must contain (index, value) tuples");
            }
            assert(json::values(p@)[0] == p@[0]@);
            assert(json::values(p@)[1] == p@[1]@);
            let index_ok = match &p[0] {
                JsonValue::Number(n) => n.is_int(),
                _ => false,
            };
            if index_ok && matches!(&p[1], JsonValue::Number(_)) {
                Ok(())
            } else {
                fail("Sparse vector tuples must be (int, float) pairs")
            }
        },
        _ => fail("Sparse vector must contain (index, value) tuples"),
    }
}

/// Checks the data of a custom vector.
pub fn validate_custom_vector_data_value(v: &JsonValue) -> (r: Result<(), ValidationError>)
    ensures
        problem(r) == vector_data_problem(v@),
{
    let items = match v {
        JsonValue::Array(items) => items,
        _ => {
            return fail("Vector data cannot be empty");
        },
    };
    let ghost all = json::values(items@);
    proof {
        JsonValue::array_view(*items);
    }
    if items.len() == 0 {
        return fail("Vector data cannot be empty");
    }
    assert(all[0] == items@[0]@);
    if matches!(&items[0], JsonValue::Number(_)) {
        let mut i: usize = 0;
        while i < items.len()
            invariant
                i <= items@.len(),
                all == json::values(items@),
                v@ == Json::Array(all),
                items@.len() > 0,
                all[0] is Number,
                forall|k: int| 0 <= k < i ==> (#[trigger] all[k]) is Number,
            decreases items.len() - i,
        {
            assert(all[i as int] == items@[i as int]@);
            if !matches!(&items[i], JsonValue::Number(_)) {
                return fail("Dense vector must contain only numbers");
            }
            i += 1;
        }
        return Ok(());
    }
    if matches!(&items[0], JsonValue::Array(_)) {
        let mut i: usize = 0;
        assert(all.skip(0) =~= all);
        while i < items.len()
            invariant
                i <= items@.len(),
                all == json::values(items@),
                v@ == Json::Array(all),
                items@.len() > 0,
                all[0] is Array,
                pairs_problem(all) == pairs_problem(all.skip(i as int)),
            decreases items.len() - i,
        {
            assert(all.skip(i as int)[0] == items@[i as int]@);
            assert(all.skip(i as int).drop_first() =~= all.skip(i as int + 1));
            let r = validate_pair(&items[i]);
            if r.is_err() {
                return r;
            }
            i += 1;
        }
        return Ok(());
    }
    fail("Vector must be either list of numbers (dense) or list of (index, value) tuples (sparse)")
}

/// What is wrong with the name of a custom vector.
pub open spec fn custom_name_problem(raw: Seq<char>) -> Option<Seq<char>> {
    let t = text::trim(raw);
    if t.len() == 0 {
        Some("vector_name: Vector name cannot be empty or whitespace"@)
    } else if !text::is_identifier(t) {
        Some(
            "vector_name: Vector name can only contain letters, numbers, underscores, and hyphens"@,
        )
    } else if t.len() > MAX_VECTOR_NAME_LENGTH {
        Some("vector_name: Vector name cannot exceed 100 characters"@)
    } else {
        None
    }
}

fn validate_custom_query_vector_name_stripped(raw: &str) -> (r: Result<(), ValidationError>)
    ensures
        problem(r) == custom_name_problem(raw@),
{
    let t = trimmed(raw);
    let n = char_count(t.as_str());
    if n == 0 {
        return fail("vector_name: Vector name cannot be empty or whitespace");
    }
    if !identifier(t.as_str()) {
        return fail(
            "vector_name: Vector name can only contain letters, numbers, underscores, and hyphens",
        );
    }
    if n > MAX_VECTOR_NAME_LENGTH {
        return fail("vector_name: Vector name cannot exceed 100 characters");
    }
    Ok(())
}

/// The first thing wrong with the custom vectors of a document.
pub open spec fn document_customs_problem(v: Seq<CustomDocumentVector>) -> Option<Seq<char>>
    decreases v.len(),
{
    if v.len() == 0 {
        None
    } else {
        first(
            first(custom_name_problem(v[0].vector_name@), vector_data_problem(v[0].vector@)),
            document_customs_problem(v.drop_first()),
        )
    }
}

pub(crate) fn validate_custom_vector(name: &str, data: &JsonValue) -> (r: Result<(), ValidationError>)
    ensures
        problem(r) == first(custom_name_problem(name@), vector_data_problem(data@)),
{
    let r = validate_custom_query_vector_name_stripped(name);
    if r.is_err() {
        return r;
    }
    validate_custom_vector_data_value(data)
}

fn validate_document_customs(v: &Vec<CustomDocumentVector>) -> (r: Result<(), ValidationError>)
    ensures
        problem(r) == document_customs_problem(v@),
{
    let mut i: usize = 0;
    assert(v@.skip(0) =~= v@);
    while i < v.len()
        invariant
            i <= v@.len(),
            document_customs_problem(v@) == document_customs_problem(v@.skip(i as int)),
        decreases v.len() - i,
    {
        assert(v@.skip(i as int)[0] == v@[i as int]);
        assert(v@.skip(i as int).drop_first() =~= v@.skip(i as int + 1));
        let r = validate_custom_vector(v[i].vector_name.as_str(), &v[i].vector);
        if r.is_err() {
            return r;
        }
        i += 1;
    }
    Ok(())
}

/// What is wrong with a document.
pub open spec fn document_problem(doc: Document) -> Option<Seq<char>> {
    first(
        id_problem(doc.id@),
        first(
            match doc.tags {
                Some(tags) => tags_problem(text::views(tags@)),
                None => None,
            },
            first(
                length_problem(
                    text::opt_view(doc.name),
                    MAX_DOCUMENT_NAME_LENGTH as nat,
                    "name: ensure this value has at most 1500 characters"@,
                ),
                first(
                    length_problem(
                        text::opt_view(doc.description),
                        MAX_DOCUMENT_DESCRIPTION_LENGTH as nat,
                        "description: ensure this value has at most 3000 characters"@,
                    ),
                    first(
                        length_problem(
                            text::opt_view(doc.content),
                            MAX_DOCUMENT_CONTENT_LENGTH as nat,
                            "content: ensure this value has at most 1000000 characters"@,
                        ),
                        first(
                            match doc.metadata {
                                Some(m) => metadata_problem(json::members(m@)),
                                None => None,
                            },
                            match doc.custom_vectors {
                                Some(v) => document_customs_problem(v@),
                                None => None,
                            },
                        ),
                    ),
                ),
            ),
        ),
    )
}

/// Checks a document.
pub fn validate_document(doc: &Document) -> (r: Result<(), ValidationError>)
    ensures
        problem(r) == document_problem(*doc),
{
    let r = validate_document_id(doc.id.as_str());
    if r.is_err() {
        return r;
    }
    if let Some(tags) = &doc.tags {
        let r = validate_tags(tags);
        if r.is_err() {
            return r;
        }
    }
    let r = validate_length(
        &doc.name,
        MAX_DOCUMENT_NAME_LENGTH,
        "name: ensure this value has at most 1500 characters",
    );
    if r.is_err() {
        return r;
    }
    let r = validate_length(
        &doc.description,
        MAX_DOCUMENT_DESCRIPTION_LENGTH,
        "description: ensure this value has at most 3000 characters",
    );
    if r.is_err() {
        return r;
    }
    let r = validate_length(
        &doc.content,
        MAX_DOCUMENT_CONTENT_LENGTH,
        "content: ensure this value has at most 1000000 characters",
    );
    if r.is_err() {
        return r;
    }
    if let Some(m) = &doc.metadata {
        let r = validate_metadata(m);
        if r.is_err() {
            return r;
        }
    }
    if let Some(v) = &doc.custom_vectors {
        let r = validate_document_customs(v);
        if r.is_err() {
            return r;
        }
    }
    Ok(())
}

/// The tags that are not blank, without the white space around them.
pub open spec fn trimmed_tags(tags: Seq<Seq<char>>) -> Seq<Seq<char>>
    decreases tags.len(),
{
    if tags.len() == 0 {
        Seq::empty()
    } else {
        let rest = trimmed_tags(tags.drop_last());
        let t = text::trim(tags.last());
        if t.len() == 0 {
            rest
        } else {
            rest.push(t)
        }
    }
}

fn trim_tags(tags: &Vec<String>) -> (r: Vec<String>)
    ensures
        text::views(r@) == trimmed_tags(text::views(tags@)),
{
    let mut out: Vec<String> = Vec::new();
    let mut i: usize = 0;
    let ghost all = text::views(tags@);
    assert(all.take(0) =~= Seq::<Seq<char>>::empty());
    assert(text::views(out@) =~= Seq::<Seq<char>>::empty());
    while i < tags.len()
        invariant
            i <= tags@.len(),
            all == text::views(tags@),
            text::views(out@) == trimmed_tags(all.take(i as int)),
        decreases tags.len() - i,
    {
        assert(all.take(i as int + 1).drop_last() =~= all.take(i as int));
        assert(all.take(i as int + 1).last() == tags@[i as int]@);
        let t = trimmed(tags[i].as_str());
        let ghost before = text::views(out@);
        let ghost view = t@;
        if char_count(t.as_str()) > 0 {
            out.push(t);
            assert(text::views(out@) =~= before.push(view));
        }
        i += 1;
    }
    assert(all.take(i as int) =~= all);
    out
}

/// Whether custom vectors are those before with trimmed names.
pub open spec fn customs_trimmed(
    old: Seq<CustomDocumentVector>,
    new: Seq<CustomDocumentVector>,
) -> bool {
    &&& new.len() == old.len()
    &&& forall|i: int|
        0 <= i < old.len() ==> (#[trigger] new[i]).vector_name@ == text::trim(old[i].vector_name@)
            && new[i].vector == old[i].vector && new[i].field == old[i].field
}

/// Whether a document is the one before without the white space around its
/// id, its tags and the names of its vectors.
pub open spec fn document_trimmed(old: Document, new: Document) -> bool {
    &&& new.id@ == text::trim(old.id@)
    &&& match (old.tags, new.tags) {
        (None, None) => true,
        (Some(a), Some(b)) => text::views(b@) == trimmed_tags(text::views(a@)),
        _ => false,
    }
    &&& match (old.custom_vectors, new.custom_vectors) {
        (None, None) => true,
        (Some(a), Some(b)) => customs_trimmed(a@, b@),
        _ => false,
    }
    &&& new == (Document {
        id: new.id,
        tags: new.tags,
        custom_vectors: new.custom_vectors,
        ..old
    })
}

fn trim_custom_names(v: &mut Vec<CustomDocumentVector>)
    ensures
        customs_trimmed(old(v)@, final(v)@),
{
    let ghost before = v@;
    let mut i: usize = 0;
    while i < v.len()
        invariant
            i <= v@.len(),
            v@.len() == before.len(),
            forall|k: int| i <= k < v@.len() ==> #[trigger] v@[k] == before[k],
            forall|k: int|
                0 <= k < i ==> (#[trigger] v@[k]).vector_name@ == text::trim(
                    before[k].vector_name@,
                ) && v@[k].vector == before[k].vector && v@[k].field == before[k].field,
        decreases v.len() - i,
    {
        let name = trimmed(v[i].vector_name.as_str());
        let ghost mid = v@;
        v[i].vector_name = name;
        assert(v@ == mid.update(i as int, v@[i as int]));
        i += 1;
    }
}

/// Removes the white space around a document's id, its tags and the names of
/// its vectors. Comes before [`validate_document`].
pub fn normalize_document_python(doc: &mut Document)
    ensures
        document_trimmed(*old(doc), *final(doc)),
{
    doc.id = trimmed(doc.id.as_str());
    let tags = match &doc.tags {
        Some(tags) => Some(trim_tags(tags)),
        None => None,
    };
    doc.tags = tags;
    let mut customs: Option<Vec<CustomDocumentVector>> = None;
    std::mem::swap(&mut customs, &mut doc.custom_vectors);
    doc.custom_vectors = match customs {
        Some(mut v) => {
            trim_custom_names(&mut v);
            Some(v)
        },
        None => None,
    };
}

proof fn lemma_trimmed_tags_shape(tags: Seq<Seq<char>>)
    ensures
        forall|i: int|
            0 <= i < trimmed_tags(tags).len() ==> (#[trigger] trimmed_tags(tags)[i]).len() > 0
                && text::trim(trimmed_tags(tags)[i]) == trimmed_tags(tags)[i],
        trimmed_tags(trimmed_tags(tags)) == trimmed_tags(tags),
    decreases tags.len(),
{
    if tags.len() > 0 {
        lemma_trimmed_tags_shape(tags.drop_last());
        let rest = trimmed_tags(tags.drop_last());
        let t = text::trim(tags.last());
        text::trim_is_idempotent(tags.last());
        if t.len() > 0 {
            assert(rest.push(t).drop_last() =~= rest);
        }
    } else {
        assert(trimmed_tags(tags) =~= tags);
    }
}

/// Normalizing a normalized document changes nothing that is said of it.
pub proof fn normalizing_documents_is_idempotent(d: Document, e: Document, f: Document)
    requires
        document_trimmed(d, e),
        document_trimmed(e, f),
    ensures
        f.id@ == e.id@,
        (f.tags is Some <==> e.tags is Some),
        f.tags matches Some(t) ==> text::views(t@) == text::views(e.tags->0@),
        f.custom_vectors matches Some(v) ==> forall|i: int|
            0 <= i < v@.len() ==> (#[trigger] v@[i]).vector_name@
                == e.custom_vectors->0@[i].vector_name@,
{
    text::trim_is_idempotent(d.id@);
    if let Some(tags) = d.tags {
        lemma_trimmed_tags_shape(text::views(tags@));
    }
    if let Some(v) = f.custom_vectors {
        assert forall|i: int| 0 <= i < v@.len() implies (#[trigger] v@[i]).vector_name@
            == e.custom_vectors->0@[i].vector_name@ by {
            assert(e.custom_vectors->0@[i].vector_name@ == text::trim(
                d.custom_vectors->0@[i].vector_name@,
            ));
            text::trim_is_idempotent(d.custom_vectors->0@[i].vector_name@);
        }
    }
}

/// An accepted document's id, once trimmed, is one that a lock and a payload
/// can use: not empty, no longer than the limit, and of plain characters.
pub proof fn accepted_ids_are_plain(doc: Document)
    requires
        document_problem(doc) is None,
    ensures
        text::is_identifier(text::trim(doc.id@)),
        0 < text::trim(doc.id@).len() <= MAX_DOCUMENT_ID_LENGTH,
{
}

/// The first thing wrong with the documents of a bulk upload, once each is
/// normalized; its position comes first.
pub open spec fn documents_problem(docs: Seq<Document>, i: int) -> Option<Seq<char>>
    decreases docs.len() - i,
{
    if i < 0 || i >= docs.len() {
        None
    } else {
        match document_problem(docs[i]) {
            Some(e) => Some("documents["@ + text::decimal(i as nat) + "]: "@ + e),
            None => documents_problem(docs, i + 1),
        }
    }
}

/// Normalizes and checks the documents of a bulk upload, up to the first that
/// is not acceptable.
pub fn validate_bulk_upload(req: &mut BulkUploadRequest) -> (r: Result<(), ValidationError>)
    ensures
        final(req).documents@.len() == old(req).documents@.len(),
        if old(req).documents@.len() > MAX_BULK_UPLOAD {
            problem(r) == Some("documents: ensure this value has at most 100 items"@)
                && *final(req) == *old(req)
        } else {
            &&& forall|i: int|
                0 <= i < old(req).documents@.len() ==> document_trimmed(
                    old(req).documents@[i],
                    #[trigger] final(req).documents@[i],
                ) || (r is Err && final(req).documents@[i] == old(req).documents@[i])
            &&& match problem(r) {
                None => documents_problem(final(req).documents@, 0) is None && forall|i: int|
                    0 <= i < old(req).documents@.len() ==> document_trimmed(
                        old(req).documents@[i],
                        #[trigger] final(req).documents@[i],
                    ),
                Some(e) => exists|i: int|
                    #![trigger old(req).documents@[i]]
                    0 <= i < old(req).documents@.len() && (forall|k: int|
                        0 <= k <= i ==> document_trimmed(
                            old(req).documents@[k],
                            #[trigger] final(req).documents@[k],
                        )) && (forall|k: int|
                        0 <= k < i ==> document_problem(#[trigger] final(req).documents@[k])
                            is None) && (document_problem(final(req).documents@[i]) matches Some(
                        p,
                    ) && e == "documents["@ + text::decimal(i as nat) + "]: "@ + p),
            }
        },
{
    let n: usize = req.documents.len();
    if n > MAX_BULK_UPLOAD {
        return fail("documents: ensure this value has at most 100 items");
    }
    let ghost before = req.documents@;
    let mut i: usize = 0;
    while i < n
        invariant
            i <= n,
            n == req.documents@.len(),
            n <= MAX_BULK_UPLOAD,
            before == old(req).documents@,
            req.documents@.len() == before.len(),
            forall|k: int| i <= k < n ==> #[trigger] req.documents@[k] == before[k],
            forall|k: int|
                0 <= k < i ==> document_trimmed(before[k], #[trigger] req.documents@[k]),
            forall|k: int|
                0 <= k < i ==> document_problem(#[trigger] req.documents@[k]) is None,
        decreases n - i,
    {
        let ghost mid = req.documents@;
        normalize_document_python(&mut req.documents[i]);
        assert(req.documents@ == mid.update(i as int, req.documents@[i as int]));
        match validate_document(&req.documents[i]) {
            Ok(_) => {},
            Err(e) => {
                let number = decimal_text(i as u64);
                let message = text4("documents[", number.as_str(), "]: ", e.0.as_str());
                assert(document_problem(req.documents@[i as int]) == Some(e.0@));
                assert(before[i as int] == old(req).documents@[i as int]);
                return Err(ValidationError(message));
            },
        }
        i += 1;
    }
    proof {
        lemma_no_document_problem(req.documents@, 0);
    }
    Ok(())
}

proof fn lemma_no_document_problem(docs: Seq<Document>, i: int)
    requires
        0 <= i <= docs.len(),
        forall|k: int| 0 <= k < docs.len() ==> document_problem(#[trigger] docs[k]) is None,
    ensures
        documents_problem(docs, i) is None,
    decreases docs.len() - i,
{
    if i < docs.len() {
        assert(document_problem(docs[i]) is None);
        lemma_no_document_problem(docs, i + 1);
    }
}

/// Whether a text is one or more letters, digits, underscores and hyphens, up to
/// a number of them.
pub open spec fn plain_up_to(s: Seq<char>, most: int) -> bool {
    0 < s.len() <= most && forall|i: int|
        0 <= i < s.len() ==> ('a' <= #[trigger] s[i] <= 'z' || 'A' <= s[i] <= 'Z' || '0' <= s[i]
            <= '9' || s[i] == '_' || s[i] == '-')
}

/// The name of a collection is accepted exactly if it is plain and of at most a
/// hundred characters.
pub proof fn plain_collection_names_are_accepted(name: Seq<char>)
    ensures
        collection_name_problem(name) is None <==> plain_up_to(name, 100),
{
    text::identifiers_are_plain(name);
}

/// An id is accepted exactly if it is plain and of at most a hundred characters,
/// without the white space around it.
pub proof fn plain_ids_are_accepted(id: Seq<char>)
    ensures
        id_problem(id) is None <==> plain_up_to(text::trim(id), 100),
{
    text::identifiers_are_plain(text::trim(id));
}

/// Tags are accepted exactly if there are at most fifty and each, without the
/// white space around it, is blank, or has at most a hundred characters, no pipe
/// among them, and does not stand there before.
pub proof fn short_different_tags_are_accepted(tags: Seq<Seq<char>>)
    ensures
        tags_problem(tags) is None <==> tags.len() <= 50 && forall|i: int|
            0 <= i < tags.len() ==> {
                let t = text::trim(#[trigger] tags[i]);
                t.len() == 0 || (t.len() <= 100 && !t.contains('|') && forall|k: int|
                    0 <= k < i ==> text::trim(#[trigger] tags[k]) != t)
            },
{
    lemma_tags_from(tags, 0);
    assert forall|i: int| 0 <= i < tags.len() implies (tag_problem(tags, i) is None <==> {
        let t = text::trim(#[trigger] tags[i]);
        t.len() == 0 || (t.len() <= 100 && !t.contains('|') && forall|k: int|
            0 <= k < i ==> text::trim(#[trigger] tags[k]) != t)
    }) by {}
    if tags_problem(tags) is None {
        assert forall|i: int| 0 <= i < tags.len() implies {
            let t = text::trim(#[trigger] tags[i]);
            t.len() == 0 || (t.len() <= 100 && !t.contains('|') && forall|k: int|
                0 <= k < i ==> text::trim(#[trigger] tags[k]) != t)
        } by {
            assert(tag_problem(tags, i) is None);
        }
    }
}

proof fn lemma_tags_from(tags: Seq<Seq<char>>, i: int)
    requires
        0 <= i <= tags.len(),
    ensures
        tags_problem_from(tags, i) is None <==> forall|k: int|
            i <= k < tags.len() ==> #[trigger] tag_problem(tags, k) is None,
    decreases tags.len() - i,
{
    if i < tags.len() {
        lemma_tags_from(tags, i + 1);
        if tags_problem_from(tags, i) is None {
            assert forall|k: int| i <= k < tags.len() implies #[trigger] tag_problem(
                tags,
                k,
            ) is None by {
                if k > i {
                }
            }
        }
        if forall|k: int| i <= k < tags.len() ==> #[trigger] tag_problem(tags, k) is None {
            assert(tag_problem(tags, i) is None);
        }
    }
}

proof fn lemma_meta_types_differ()
    ensures
        "string"@ != "integer"@,
        "string"@ != "float"@,
        "string"@ != "boolean"@,
        "string"@ != "datetime"@,
        "string"@ != "array"@,
        "string"@ != "object"@,
        "integer"@ != "float"@,
        "integer"@ != "boolean"@,
        "integer"@ != "datetime"@,
        "integer"@ != "array"@,
        "integer"@ != "object"@,
        "float"@ != "boolean"@,
        "float"@ != "datetime"@,
        "float"@ != "array"@,
        "float"@ != "object"@,
        "boolean"@ != "datetime"@,
        "boolean"@ != "array"@,
        "boolean"@ != "object"@,
        "datetime"@ != "array"@,
        "datetime"@ != "object"@,
        "array"@ != "object"@,
{
    reveal_strlit("string");
    reveal_strlit("integer");
    reveal_strlit("float");
    reveal_strlit("boolean");
    reveal_strlit("datetime");
    reveal_strlit("array");
    reveal_strlit("object");
    assert("string"@[0] != "object"@[0]);
    assert("integer"@[0] != "boolean"@[0]);
    assert("float"@[0] != "array"@[0]);
    assert("string"@.len() == 6 && "object"@.len() == 6);
    assert("integer"@.len() == 7 && "boolean"@.len() == 7);
    assert("float"@.len() == 5 && "array"@.len() == 5);
    assert("datetime"@.len() == 8);
}

/// A value with a type is accepted exactly if it is of that type.
pub proof fn values_of_their_type_are_accepted(key: Seq<char>, t: Seq<char>, v: Json)
    ensures
        meta_value_problem(key, t, v) is None <==> functions::is_of_type(t, v),
{
    lemma_meta_types_differ();
}

/// A member of the metadata is accepted exactly if its key is plain and of at most
/// a hundred characters, and its value is of the type that stands beside it; a
/// bare text has at most a million characters.
pub proof fn plain_metadata_is_accepted(key: Seq<char>, value: Json)
    ensures
        entry_problem(key, value) is None <==> plain_up_to(key, 100) && match value {
            Json::Object(o) => if o.len() == 2 && json::member(o, "value"@) is Some && json::member(
                o,
                "type"@,
            ) is Some {
                json::member(o, "type"@)->0 matches Json::Text(t) && functions::is_of_type(
                    t,
                    json::member(o, "value"@)->0,
                )
            } else {
                true
            },
            Json::Text(s) => s.len() <= 1_000_000,
            _ => true,
        },
{
    text::identifiers_are_plain(key);
    lemma_meta_types_differ();
}

/// Metadata is accepted exactly if every member is.
pub proof fn metadata_is_accepted_by_its_members(m: Seq<(Seq<char>, Json)>)
    ensures
        metadata_problem(m) is None <==> forall|i: int|
            0 <= i < m.len() ==> entry_problem((#[trigger] m[i]).0, m[i].1) is None,
    decreases m.len(),
{
    if m.len() > 0 {
        let rest = m.drop_first();
        metadata_is_accepted_by_its_members(rest);
        assert(forall|i: int| 0 <= i < rest.len() ==> #[trigger] rest[i] == m[i + 1]);
        if metadata_problem(m) is None {
            assert forall|i: int| 0 <= i < m.len() implies entry_problem(
                (#[trigger] m[i]).0,
                m[i].1,
            ) is None by {
                if i > 0 {
                    assert(rest[i - 1] == m[i]);
                }
            }
        }
    }
}

/// The data of a custom vector is accepted exactly if it is a list, not an empty
/// one, of numbers only, or of pairs of a whole number and a number only.
pub proof fn numbers_and_pairs_are_accepted(v: Json)
    ensures
        vector_data_problem(v) is None <==> (v matches Json::Array(items) && items.len() > 0 && ((
        forall|i: int| 0 <= i < items.len() ==> (#[trigger] items[i]) is Number) || (forall|i: int|
            0 <= i < items.len() ==> (#[trigger] items[i] matches Json::Array(p) && p.len() == 2
                && (p[0] matches Json::Number(n) && !(n is Float)) && p[1] is Number)))),
{
    if let Json::Array(items) = v {
        if items.len() > 0 {
            lemma_pairs(items);
            assert(items[0] is Number || items[0] is Array || !(items[0] is Number));
            if pairs_problem(items) is None {
                assert forall|i: int| 0 <= i < items.len() implies (#[trigger] items[
                    i] matches Json::Array(p) && p.len() == 2 && (p[0] matches Json::Number(n) && !(
                n is Float)) && p[1] is Number) by {
                    assert(pair_problem(items[i]) is None);
                }
            }
            if forall|i: int|
                0 <= i < items.len() ==> (#[trigger] items[i] matches Json::Array(p) && p.len() == 2
                    && (p[0] matches Json::Number(n) && !(n is Float)) && p[1] is Number) {
                assert forall|i: int| 0 <= i < items.len() implies pair_problem(
                    #[trigger] items[i],
                ) is None by {}
                assert(items[0] is Array);
            }
        }
    }
}

proof fn lemma_pairs(items: Seq<Json>)
    ensures
        pairs_problem(items) is None <==> forall|i: int|
            0 <= i < items.len() ==> pair_problem(#[trigger] items[i]) is None,
    decreases items.len(),
{
    if items.len() > 0 {
        let rest = items.drop_first();
        lemma_pairs(rest);
        assert(forall|i: int| 0 <= i < rest.len() ==> #[trigger] rest[i] == items[i + 1]);
        if pairs_problem(items) is None {
            assert forall|i: int| 0 <= i < items.len() implies pair_problem(
                #[trigger] items[i],
            ) is None by {
                if i > 0 {
                    assert(rest[i - 1] == items[i]);
                }
            }
        }
    }
}

/// The custom vectors of a document are accepted exactly if the name of each is
/// plain and of at most a hundred characters, without the white space around it,
/// and its data is accepted.
pub proof fn custom_vectors_are_accepted_one_by_one(v: Seq<CustomDocumentVector>)
    ensures
        document_customs_problem(v) is None <==> forall|i: int|
            0 <= i < v.len() ==> plain_up_to(text::trim((#[trigger] v[i]).vector_name@), 100)
                && vector_data_problem(v[i].vector@) is None,
    decreases v.len(),
{
    if v.len() > 0 {
        let rest = v.drop_first();
        custom_vectors_are_accepted_one_by_one(rest);
        text::identifiers_are_plain(text::trim(v[0].vector_name@));
        assert(forall|i: int| 0 <= i < rest.len() ==> #[trigger] rest[i] == v[i + 1]);
        if document_customs_problem(v) is None {
            assert forall|i: int| 0 <= i < v.len() implies plain_up_to(
                text::trim((#[trigger] v[i]).vector_name@),
                100,
            ) && vector_data_problem(v[i].vector@) is None by {
                if i > 0 {
                    assert(rest[i - 1] == v[i]);
                }
            }
        }
    }
}

/// A document is accepted exactly if its id, its tags, its metadata and its custom
/// vectors are, and its name has at most 1500, its description at most 3000 and
/// its content at most a million characters.
pub proof fn documents_are_accepted_within_limits(doc: Document)
    ensures
        document_problem(doc) is None <==> {
            &&& plain_up_to(text::trim(doc.id@), 100)
            &&& doc.tags matches Some(tags) ==> tags_problem(text::views(tags@)) is None
            &&& doc.name matches Some(s) ==> s@.len() <= 1500
            &&& doc.description matches Some(s) ==> s@.len() <= 3000
            &&& doc.content matches Some(s) ==> s@.len() <= 1_000_000
            &&& doc.metadata matches Some(m) ==> metadata_problem(json::members(m@)) is None
            &&& doc.custom_vectors matches Some(v) ==> document_customs_problem(v@) is None
        },
{
    plain_ids_are_accepted(doc.id@);
}

/// Documents are accepted together exactly if each is.
pub proof fn documents_are_accepted_one_by_one(docs: Seq<Document>, i: int)
    requires
        0 <= i <= docs.len(),
    ensures
        documents_problem(docs, i) is None <==> forall|k: int|
            i <= k < docs.len() ==> document_problem(#[trigger] docs[k]) is None,
    decreases docs.len() - i,
{
    if i < docs.len() {
        documents_are_accepted_one_by_one(docs, i + 1);
        if documents_problem(docs, i) is None {
            assert forall|k: int| i <= k < docs.len() implies document_problem(
                #[trigger] docs[k],
            ) is None by {
                if k > i {
                }
            }
        }
    }
}

/// Blank tags are left out; of the others the white space around them is.
pub proof fn tags_are_trimmed_one_by_one(tags: Seq<Seq<char>>, t: Seq<char>)
    ensures
        trimmed_tags(Seq::empty()) == Seq::<Seq<char>>::empty(),
        text::trim(t).len() == 0 ==> trimmed_tags(tags.push(t)) == trimmed_tags(tags),
        text::trim(t).len() > 0 ==> trimmed_tags(tags.push(t)) == trimmed_tags(tags).push(
            text::trim(t),
        ),
{
    assert(tags.push(t).drop_last() =~= tags);
}

/// Normalizing a document trims its id and changes nothing of its texts, its
/// metadata and its time.
pub proof fn normalizing_keeps_the_texts(old: Document, new: Document)
    requires
        document_trimmed(old, new),
    ensures
        new.id@ == text::trim(old.id@),
        new.name == old.name && new.description == old.description && new.content == old.content,
        new.metadata == old.metadata && new.timestamp == old.timestamp,
        new.tags is Some <==> old.tags is Some,
        new.tags matches Some(b) ==> text::views(b@) == trimmed_tags(text::views(old.tags->0@)),
        new.custom_vectors matches Some(b) ==> b@.len() == old.custom_vectors->0@.len(),
{
}

} // verus!
