//! Reading the vectors that clients bring along from JSON.

use serde::de::Unexpected;
use vstd::prelude::*;

use crate::json;
use crate::json::{Json, JsonNumber, JsonValue, INFINITY_BITS};
use crate::text;

verus! {

/// The bits of the single-precision number that `serde_json` reads a number as.
pub uninterp spec fn single_reading(n: JsonNumber) -> Option<u32>;

/// Reads a number through `serde_json::from_value` as a single-precision number
/// and takes its bits through `bytes::BufMut`. `None` stands for its error,
/// which comes only of a number that is no finite one: JSON has none, and
/// `serde_json::Value::from` makes it null.
#[verifier::external_body]
fn read_single(n: &JsonNumber) -> (r: Option<u32>)
    ensures
        r == single_reading(*n),
        r is None <==> (*n matches JsonNumber::Float(d) && d.magnitude() >= INFINITY_BITS),
{
    let value = match n {
        JsonNumber::Unsigned(u, _) => serde_json::Value::from(*u),
        JsonNumber::Negative(i, _) => serde_json::Value::from(*i),
        JsonNumber::Float(d) => {
            serde_json::Value::from(bytes::Buf::get_f64(&mut &d.bits.to_be_bytes()[..]))
        },
    };
    let mut buf: Vec<u8> = Vec::new();
    match serde_json::from_value(value) {
        Ok(x) => bytes::BufMut::put_f32(&mut buf, x),
        Err(_) => return None,
    }
    Some(bytes::Buf::get_u32(&mut &buf[..]))
}

/// What `serde_json` says of a value of another type than it expects.
pub uninterp spec fn type_error_text(found: Json, expected: Seq<char>) -> Seq<char>;

/// Makes a `serde_json::Error` with `invalid_type` and gives its words. Of
/// lists and objects it says only that they are such.
#[verifier::external_body]
fn type_error(found: &JsonValue, expected: &str) -> (r: String)
    ensures
        r@ == type_error_text(found@, expected@),
{
    let unexpected = match found {
        JsonValue::Null => Unexpected::Unit,
        JsonValue::Bool(b) => Unexpected::Bool(*b),
        JsonValue::Number(JsonNumber::Unsigned(u, _)) => Unexpected::Unsigned(*u),
        JsonValue::Number(JsonNumber::Negative(i, _)) => Unexpected::Signed(*i),
        JsonValue::Number(JsonNumber::Float(d)) => {
            Unexpected::Float(bytes::Buf::get_f64(&mut &d.bits.to_be_bytes()[..]))
        },
        JsonValue::Text(s) => Unexpected::Str(s.as_str()),
        JsonValue::Array(_) => Unexpected::Seq,
        JsonValue::Object(_) => Unexpected::Map,
    };
    <serde_json::Error as serde::de::Error>::invalid_type(unexpected, &expected).to_string()
}

/// Makes a `serde_json::Error` with `invalid_value` for an unsigned number and
/// gives its words.
#[verifier::external_body]
fn unsigned_error(found: u64, expected: &str) -> (r: String)
    requires
        expected@ == "u32"@,
    ensures
        r@ == "invalid value: integer `"@ + text::decimal(found as nat) + "`, expected "@
            + expected@,
{
    let unexpected = Unexpected::Unsigned(found);
    <serde_json::Error as serde::de::Error>::invalid_value(unexpected, &expected).to_string()
}

/// Makes a `serde_json::Error` with `invalid_value` for a signed number and
/// gives its words.
#[verifier::external_body]
fn signed_error(found: i64, expected: &str) -> (r: String)
    requires
        expected@ == "u32"@,
    ensures
        r@ == "invalid value: integer `"@ + text::signed_decimal(found as int) + "`, expected "@
            + expected@,
{
    let unexpected = Unexpected::Signed(found);
    <serde_json::Error as serde::de::Error>::invalid_value(unexpected, &expected).to_string()
}

/// Makes a `serde_json::Error` with `invalid_length` and gives its words.
#[verifier::external_body]
fn length_error(found: usize, expected: &str) -> (r: String)
    requires
        expected@ == "a tuple of size 2"@ || expected@ == "fewer elements in array"@,
    ensures
        r@ == "invalid length "@ + text::decimal(found as nat) + ", expected "@ + expected@,
{
    <serde_json::Error as serde::de::Error>::invalid_length(found, &expected).to_string()
}

/// The words of a reading that fails on a list's length.
pub open spec fn length_words(found: nat, expected: Seq<char>) -> Seq<char> {
    "invalid length "@ + text::decimal(found) + ", expected "@ + expected
}

/// A value read as a single-precision number.
pub open spec fn single_of(v: Json) -> Result<u32, Seq<char>> {
    match v {
        Json::Number(n) => match single_reading(n) {
            Some(bits) => Ok(bits),
            None => Err(type_error_text(Json::Null, "f32"@)),
        },
        _ => Err(type_error_text(v, "f32"@)),
    }
}

fn read_single_value(v: &JsonValue) -> (r: Result<u32, String>)
    ensures
        match r {
            Ok(bits) => single_of(v@) == Ok::<u32, Seq<char>>(bits),
            Err(e) => single_of(v@) == Err::<u32, Seq<char>>(e@),
        },
{
    match v {
        JsonValue::Number(n) => match read_single(n) {
            Some(bits) => Ok(bits),
            None => Err(type_error(&JsonValue::Null, "f32")),
        },
        _ => Err(type_error(v, "f32")),
    }
}

/// A list read as single-precision numbers, up to the first that is none.
pub open spec fn singles_of(v: Seq<Json>) -> Result<Seq<u32>, Seq<char>>
    decreases v.len(),
{
    if v.len() == 0 {
        Ok(Seq::empty())
    } else {
        match singles_of(v.drop_last()) {
            Err(e) => Err(e),
            Ok(rest) => match single_of(v.last()) {
                Ok(bits) => Ok(rest.push(bits)),
                Err(e) => Err(e),
            },
        }
    }
}

/// A value read as a dense vector.
pub open spec fn dense_of(v: Json) -> Result<Seq<u32>, Seq<char>> {
    match v {
        Json::Array(a) => singles_of(a),
        _ => Err(type_error_text(v, "a sequence"@)),
    }
}

proof fn lemma_singles_fail(v: Seq<Json>, n: int)
    requires
        0 <= n <= v.len(),
        singles_of(v.take(n)) is Err,
    ensures
        singles_of(v) == singles_of(v.take(n)),
    decreases v.len(),
{
    if n < v.len() {
        assert(v.drop_last().take(n) =~= v.take(n));
        lemma_singles_fail(v.drop_last(), n);
    } else {
        assert(v.take(n) =~= v);
    }
}

/// Reads a dense vector.
pub fn read_dense(v: &JsonValue) -> (r: Result<Vec<u32>, String>)
    ensures
        match r {
            Ok(bits) => dense_of(v@) == Ok::<Seq<u32>, Seq<char>>(bits@),
            Err(e) => dense_of(v@) == Err::<Seq<u32>, Seq<char>>(e@),
        },
{
    let items = match v {
        JsonValue::Array(items) => items,
        _ => {
            return Err(type_error(v, "a sequence"));
        },
    };
    let ghost all = json::values(items@);
    proof {
        JsonValue::array_view(*items);
        assert(all.take(0) =~= Seq::empty());
    }
    let mut out: Vec<u32> = Vec::new();
    let mut i: usize = 0;
    assert(out@ =~= Seq::empty());
    while i < items.len()
        invariant
            i <= items@.len(),
            all == json::values(items@),
            v@ == Json::Array(all),
            singles_of(all.take(i as int)) == Ok::<Seq<u32>, Seq<char>>(out@),
        decreases items.len() - i,
    {
        proof {
            let next = all.take(i as int + 1);
            assert(next.drop_last() =~= all.take(i as int));
            assert(next.last() == items@[i as int]@);
        }
        match read_single_value(&items[i]) {
            Ok(bits) => {
                out.push(bits);
            },
            Err(e) => {
                proof {
                    lemma_singles_fail(all, i as int + 1);
                }
                return Err(e);
            },
        }
        i += 1;
    }
    assert(all.take(all.len() as int) =~= all);
    Ok(out)
}

/// A value read as an index.
pub open spec fn index_of(v: Json) -> Result<u32, Seq<char>> {
    match v {
        Json::Number(JsonNumber::Unsigned(n, _)) => if n <= u32::MAX {
            Ok(n as u32)
        } else {
            Err("invalid value: integer `"@ + text::decimal(n as nat) + "`, expected "@ + "u32"@)
        },
        Json::Number(JsonNumber::Negative(n, _)) => if 0 <= n <= u32::MAX {
            Ok(n as u32)
        } else {
            Err(
                "invalid value: integer `"@ + text::signed_decimal(n as int) + "`, expected "@
                    + "u32"@,
            )
        },
        _ => Err(type_error_text(v, "u32"@)),
    }
}

fn read_index(v: &JsonValue) -> (r: Result<u32, String>)
    ensures
        match r {
            Ok(n) => index_of(v@) == Ok::<u32, Seq<char>>(n),
            Err(e) => index_of(v@) == Err::<u32, Seq<char>>(e@),
        },
{
    match v {
        JsonValue::Number(JsonNumber::Unsigned(n, _)) => if *n <= u32::MAX as u64 {
            Ok(*n as u32)
        } else {
            Err(unsigned_error(*n, "u32"))
        },
        JsonValue::Number(JsonNumber::Negative(n, _)) => if 0 <= *n && *n <= u32::MAX as i64 {
            Ok(*n as u32)
        } else {
            Err(signed_error(*n, "u32"))
        },
        _ => Err(type_error(v, "u32")),
    }
}

/// A value read as an index and a single-precision number.
pub open spec fn pair_of(v: Json) -> Result<(u32, u32), Seq<char>> {
    match v {
        Json::Array(a) => if a.len() == 0 {
            Err(length_words(0, "a tuple of size 2"@))
        } else {
            match index_of(a[0]) {
                Err(e) => Err(e),
                Ok(index) => if a.len() == 1 {
                    Err(length_words(1, "a tuple of size 2"@))
                } else {
                    match single_of(a[1]) {
                        Err(e) => Err(e),
                        Ok(bits) => if a.len() > 2 {
                            Err(length_words(a.len(), "fewer elements in array"@))
                        } else {
                            Ok((index, bits))
                        },
                    }
                },
            }
        },
        _ => Err(type_error_text(v, "a tuple of size 2"@)),
    }
}

fn read_pair(v: &JsonValue) -> (r: Result<(u32, u32), String>)
    ensures
        match r {
            Ok(p) => pair_of(v@) == Ok::<(u32, u32), Seq<char>>(p),
            Err(e) => pair_of(v@) == Err::<(u32, u32), Seq<char>>(e@),
        },
{
    let items = match v {
        JsonValue::Array(items) => items,
        _ => {
            return Err(type_error(v, "a tuple of size 2"));
        },
    };
    proof {
        JsonValue::array_view(*items);
    }
    if items.len() == 0 {
        return Err(length_error(0, "a tuple of size 2"));
    }
    let index = match read_index(&items[0]) {
        Ok(index) => index,
        Err(e) => {
            return Err(e);
        },
    };
    if items.len() == 1 {
        return Err(length_error(1, "a tuple of size 2"));
    }
    let bits = match read_single_value(&items[1]) {
        Ok(bits) => bits,
        Err(e) => {
            return Err(e);
        },
    };
    if items.len() > 2 {
        return Err(length_error(items.len(), "fewer elements in array"));
    }
    Ok((index, bits))
}

/// A list read as pairs, up to the first that is none: the indices and the
/// numbers.
pub open spec fn pairs_of(v: Seq<Json>) -> Result<(Seq<u32>, Seq<u32>), Seq<char>>
    decreases v.len(),
{
    if v.len() == 0 {
        Ok((Seq::empty(), Seq::empty()))
    } else {
        match pairs_of(v.drop_last()) {
            Err(e) => Err(e),
            Ok(rest) => match pair_of(v.last()) {
                Ok(p) => Ok((rest.0.push(p.0), rest.1.push(p.1))),
                Err(e) => Err(e),
            },
        }
    }
}

/// A value read as a sparse vector.
pub open spec fn sparse_of(v: Json) -> Result<(Seq<u32>, Seq<u32>), Seq<char>> {
    match v {
        Json::Array(a) => pairs_of(a),
        _ => Err(type_error_text(v, "a sequence"@)),
    }
}

proof fn lemma_pairs_fail(v: Seq<Json>, n: int)
    requires
        0 <= n <= v.len(),
        pairs_of(v.take(n)) is Err,
    ensures
        pairs_of(v) == pairs_of(v.take(n)),
    decreases v.len(),
{
    if n < v.len() {
        assert(v.drop_last().take(n) =~= v.take(n));
        lemma_pairs_fail(v.drop_last(), n);
    } else {
        assert(v.take(n) =~= v);
    }
}

/// Reads a sparse vector: a list of pairs of an index and a number.
pub fn read_sparse(v: &JsonValue) -> (r: Result<(Vec<u32>, Vec<u32>), String>)
    ensures
        match r {
            Ok(p) => sparse_of(v@) == Ok::<(Seq<u32>, Seq<u32>), Seq<char>>((p.0@, p.1@))
                && p.0@.len() == p.1@.len(),
            Err(e) => sparse_of(v@) == Err::<(Seq<u32>, Seq<u32>), Seq<char>>(e@),
        },
{
    let items = match v {
        JsonValue::Array(items) => items,
        _ => {
            return Err(type_error(v, "a sequence"));
        },
    };
    let ghost all = json::values(items@);
    proof {
        JsonValue::array_view(*items);
        assert(all.take(0) =~= Seq::empty());
    }
    let mut indices: Vec<u32> = Vec::new();
    let mut values: Vec<u32> = Vec::new();
    let mut i: usize = 0;
    assert(indices@ =~= Seq::empty() && values@ =~= Seq::empty());
    while i < items.len()
        invariant
            i <= items@.len(),
            all == json::values(items@),
            v@ == Json::Array(all),
            indices@.len() == values@.len(),
            pairs_of(all.take(i as int)) == Ok::<(Seq<u32>, Seq<u32>), Seq<char>>(
                (indices@, values@),
            ),
        decreases items.len() - i,
    {
        proof {
            let next = all.take(i as int + 1);
            assert(next.drop_last() =~= all.take(i as int));
            assert(next.last() == items@[i as int]@);
        }
        match read_pair(&items[i]) {
            Ok((index, bits)) => {
                indices.push(index);
                values.push(bits);
            },
            Err(e) => {
                proof {
                    lemma_pairs_fail(all, i as int + 1);
                }
                return Err(e);
            },
        }
        i += 1;
    }
    assert(all.take(all.len() as int) =~= all);
    Ok((indices, values))
}

/// A dense vector is read number by number, in order; what is no number cannot be
/// read.
pub proof fn dense_vectors_are_read_number_by_number(v: Seq<Json>, one: Json)
    ensures
        dense_of(Json::Array(Seq::empty())) == Ok::<Seq<u32>, Seq<char>>(Seq::empty()),
        match (dense_of(Json::Array(v)), one) {
            (Ok(rest), Json::Number(n)) => match single_reading(n) {
                Some(bits) => dense_of(Json::Array(v.push(one))) == Ok::<Seq<u32>, Seq<char>>(
                    rest.push(bits),
                ),
                None => dense_of(Json::Array(v.push(one))) is Err,
            },
            _ => dense_of(Json::Array(v.push(one))) is Err,
        },
        !(one is Array) ==> dense_of(one) is Err && sparse_of(one) is Err,
{
    assert(v.push(one).drop_last() =~= v);
}

/// A sparse vector is read pair by pair, in order: the indices and the values
/// apart. A pair is an index, a whole number of thirty-two bits, and a number.
pub proof fn sparse_vectors_are_read_pair_by_pair(
    v: Seq<Json>,
    index: Json,
    value: Json,
    other: Seq<Json>,
)
    requires
        other.len() != 2,
    ensures
        sparse_of(Json::Array(Seq::empty())) == Ok::<(Seq<u32>, Seq<u32>), Seq<char>>(
            (Seq::empty(), Seq::empty()),
        ),
        sparse_of(Json::Array(v)) matches Ok(rest) ==> (match (index, value) {
            (Json::Number(JsonNumber::Unsigned(i, _)), Json::Number(n)) => if i <= 0xffff_ffff {
                match single_reading(n) {
                    Some(bits) => sparse_of(
                        Json::Array(v.push(Json::Array(seq![index, value]))),
                    ) == Ok::<(Seq<u32>, Seq<u32>), Seq<char>>(
                        (rest.0.push(i as u32), rest.1.push(bits)),
                    ),
                    None => sparse_of(Json::Array(v.push(Json::Array(seq![index, value])))) is Err,
                }
            } else {
                sparse_of(Json::Array(v.push(Json::Array(seq![index, value])))) is Err
            },
            (Json::Number(JsonNumber::Negative(i, _)), Json::Number(n)) => i < 0 ==> sparse_of(
                Json::Array(v.push(Json::Array(seq![index, value]))),
            ) is Err,
            _ => sparse_of(Json::Array(v.push(Json::Array(seq![index, value])))) is Err,
        }),
        sparse_of(Json::Array(v.push(Json::Array(other)))) is Err,
{
    let pair = Json::Array(seq![index, value]);
    assert(v.push(pair).drop_last() =~= v);
    assert(v.push(Json::Array(other)).drop_last() =~= v);
}

} // verus!
