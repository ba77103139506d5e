//! JSON values as compact JSON text.

use vstd::prelude::*;
use crate::json;
use crate::json::{Json, JsonNumber, JsonValue};
use crate::text;
use crate::text::{decimal_text, joined, signed_text, text3};

verus! {

/// The JSON text of a double: that of `serde_json::Value::from` on it, which
/// is `null` for an infinity and for NaN.
pub uninterp spec fn double_json(bits: u64) -> Seq<char>;

/// Calls `serde_json::Value::from` on the double with the given bits, which
/// `bytes::Buf::get_f64` reads from them, and formats the value as JSON.
#[verifier::external_body]
fn double_to_json(bits: u64) -> (r: String)
    ensures
        r@ == double_json(bits),
{
    let pattern = bits.to_be_bytes();
    let mut rest = &pattern[..];
    serde_json::Value::from(bytes::Buf::get_f64(&mut rest)).to_string()
}

/// The JSON text of a string, in quotes and with its escapes: that of
/// `serde_json::Value::from` on it.
pub uninterp spec fn string_json(s: Seq<char>) -> Seq<char>;

/// Calls `serde_json::Value::from` on a text and formats the value as JSON.
#[verifier::external_body]
fn string_to_json(s: &str) -> (r: String)
    ensures
        r@ == string_json(s@),
{
    serde_json::Value::from(s).to_string()
}

/// The JSON text of a number.
pub open spec fn number_text(n: JsonNumber) -> Seq<char> {
    match n {
        JsonNumber::Unsigned(u, _) => text::decimal(u as nat),
        JsonNumber::Negative(i, _) => text::signed_decimal(i as int),
        JsonNumber::Float(d) => double_json(d.bits),
    }
}

/// The JSON text of a number.
pub fn number_to_text(n: &JsonNumber) -> (r: String)
    ensures
        r@ == number_text(*n),
{
    match n {
        JsonNumber::Unsigned(u, _) => decimal_text(*u),
        JsonNumber::Negative(i, _) => signed_text(*i),
        JsonNumber::Float(d) => double_to_json(d.bits),
    }
}

/// The JSON text of a value, without white space.
pub open spec fn json_text(v: Json) -> Seq<char>
    decreases v,
{
    match v {
        Json::Null => "null"@,
        Json::Bool(b) => if b {
            "true"@
        } else {
            "false"@
        },
        Json::Number(n) => number_text(n),
        Json::Text(s) => string_json(s),
        Json::Array(items) => "["@ + text::join(item_texts(items), ","@) + "]"@,
        Json::Object(members) => "{"@ + text::join(member_texts(members), ","@) + "}"@,
    }
}

/// The JSON texts of values.
pub open spec fn item_texts(items: Seq<Json>) -> Seq<Seq<char>>
    decreases items,
{
    if items.len() == 0 {
        Seq::empty()
    } else {
        item_texts(items.drop_last()).push(json_text(items.last()))
    }
}

/// The JSON texts of an object's members.
pub open spec fn member_texts(members: Seq<(Seq<char>, Json)>) -> Seq<Seq<char>>
    decreases members,
{
    if members.len() == 0 {
        Seq::empty()
    } else {
        member_texts(members.drop_last()).push(
            string_json(members.last().0) + ":"@ + json_text(members.last().1),
        )
    }
}

fn items_to_texts(items: &Vec<JsonValue>) -> (r: Vec<String>)
    ensures
        text::views(r@) == item_texts(json::values(items@)),
    decreases items,
{
    let ghost all = json::values(items@);
    let mut out: Vec<String> = Vec::new();
    let mut i: usize = 0;
    assert(all.take(0) =~= Seq::empty());
    assert(text::views(out@) =~= Seq::empty());
    while i < items.len()
        invariant
            i <= items@.len(),
            all == json::values(items@),
            text::views(out@) == item_texts(all.take(i as int)),
        decreases items.len() - i,
    {
        assert(all.take(i as int + 1).drop_last() =~= all.take(i as int));
        assert(all.take(i as int + 1).last() == items@[i as int]@);
        assert(decreases_to!(items => items@[i as int]));
        let t = to_json_text(&items[i]);
        let ghost before = text::views(out@);
        let ghost view = t@;
        out.push(t);
        assert(text::views(out@) =~= before.push(view));
        i += 1;
    }
    assert(all.take(i as int) =~= all);
    out
}

fn members_to_texts(members: &Vec<(String, JsonValue)>) -> (r: Vec<String>)
    ensures
        text::views(r@) == member_texts(json::members(members@)),
    decreases members,
{
    let ghost all = json::members(members@);
    let mut out: Vec<String> = Vec::new();
    let mut i: usize = 0;
    assert(all.take(0) =~= Seq::empty());
    assert(text::views(out@) =~= Seq::empty());
    while i < members.len()
        invariant
            i <= members@.len(),
            all == json::members(members@),
            text::views(out@) == member_texts(all.take(i as int)),
        decreases members.len() - i,
    {
        assert(all.take(i as int + 1).drop_last() =~= all.take(i as int));
        assert(all.take(i as int + 1).last() == (members@[i as int].0@, members@[i as int].1@));
        assert(decreases_to!(members => members@[i as int].1));
        let key = string_to_json(members[i].0.as_str());
        let value = to_json_text(&members[i].1);
        let t = text3(key.as_str(), ":", value.as_str());
        let ghost before = text::views(out@);
        let ghost view = t@;
        out.push(t);
        assert(text::views(out@) =~= before.push(view));
        i += 1;
    }
    assert(all.take(i as int) =~= all);
    out
}

/// Writes a value as JSON text, without white space.
pub fn to_json_text(v: &JsonValue) -> (r: String)
    ensures
        r@ == json_text(v@),
    decreases v,
{
    match v {
        JsonValue::Null => "null".to_owned(),
        JsonValue::Bool(b) => if *b {
            "true".to_owned()
        } else {
            "false".to_owned()
        },
        JsonValue::Number(n) => number_to_text(n),
        JsonValue::Text(s) => string_to_json(s.as_str()),
        JsonValue::Array(items) => {
            proof {
                JsonValue::array_view(*items);
            }
            let parts = items_to_texts(items);
            let list = joined(&parts, ",");
            text3("[", list.as_str(), "]")
        },
        JsonValue::Object(members) => {
            proof {
                JsonValue::object_view(*members);
            }
            let parts = members_to_texts(members);
            let list = joined(&parts, ",");
            text3("{", list.as_str(), "}")
        },
    }
}

/// Plain values are written as JSON has them.
pub proof fn plain_values_are_written(u: u64, i: i64, d: crate::json::Double, s: Seq<char>)
    ensures
        json_text(Json::Null) == "null"@,
        json_text(Json::Bool(true)) == "true"@,
        json_text(Json::Bool(false)) == "false"@,
        json_text(Json::Number(JsonNumber::Unsigned(u, d))) == text::decimal(u as nat),
        json_text(Json::Number(JsonNumber::Negative(i, d))) == text::signed_decimal(i as int),
        json_text(Json::Number(JsonNumber::Float(d))) == double_json(d.bits),
        json_text(Json::Text(s)) == string_json(s),
{
}

/// Lists and objects are written in order, in their brackets, with commas between
/// the items and a colon behind each key.
pub proof fn lists_and_objects_are_written_in_order(
    items: Seq<Json>,
    one: Json,
    members: Seq<(Seq<char>, Json)>,
    key: Seq<char>,
)
    ensures
        json_text(Json::Array(items)) == "["@ + text::join(item_texts(items), ","@) + "]"@,
        json_text(Json::Object(members)) == "{"@ + text::join(member_texts(members), ","@) + "}"@,
        item_texts(items.push(one)) == item_texts(items).push(json_text(one)),
        member_texts(members.push((key, one))) == member_texts(members).push(
            string_json(key) + ":"@ + json_text(one),
        ),
        item_texts(Seq::empty()) == Seq::<Seq<char>>::empty(),
        member_texts(Seq::empty()) == Seq::<Seq<char>>::empty(),
{
    assert(items.push(one).drop_last() =~= items);
    assert(members.push((key, one)).drop_last() =~= members);
}

} // verus!
