//! JSON values as plain data, with the mathematical value each stands for.

use vstd::prelude::*;

verus! {

/// A double-precision number, held as its IEEE 754 bit pattern.
#[derive(Debug, Clone, Copy, PartialEq, Eq, Hash, Structural)]
pub struct Double {
    pub bits: u64,
}

/// The bit pattern of the sign bit alone.
pub const SIGN_BIT: u64 = 0x8000_0000_0000_0000;

/// The bit pattern of positive infinity; larger magnitudes are not numbers.
pub const INFINITY_BITS: u64 = 0x7ff0_0000_0000_0000;

/// The bit pattern of one.
pub const ONE_BITS: u64 = 0x3ff0_0000_0000_0000;

impl Double {
    pub open spec fn zero() -> Double {
        Double { bits: 0 }
    }

    pub open spec fn one() -> Double {
        Double { bits: ONE_BITS }
    }

    /// The bit pattern without its sign.
    pub open spec fn magnitude(self) -> int {
        if self.bits >= SIGN_BIT {
            self.bits - SIGN_BIT
        } else {
            self.bits as int
        }
    }

    /// An integer that grows with the number: doubles compare as their ranks
    /// do, and the two zeros share rank zero.
    pub open spec fn rank(self) -> int {
        if self.bits >= SIGN_BIT {
            -self.magnitude()
        } else {
            self.magnitude()
        }
    }

    pub open spec fn is_nan(self) -> bool {
        self.magnitude() > INFINITY_BITS
    }

    /// Whether the number is at most `other`; nothing is comparable to NaN.
    pub open spec fn at_most(self, other: Double) -> bool {
        !self.is_nan() && !other.is_nan() && self.rank() <= other.rank()
    }

    /// Whether the number is below `other`; nothing is comparable to NaN.
    pub open spec fn below(self, other: Double) -> bool {
        !self.is_nan() && !other.is_nan() && self.rank() < other.rank()
    }

    /// Whether the two are the same number; NaN is equal to nothing.
    pub open spec fn equals(self, other: Double) -> bool {
        !self.is_nan() && !other.is_nan() && self.rank() == other.rank()
    }

    fn parts(&self) -> (r: (bool, u64))
        ensures
            r.0 == (self.bits >= SIGN_BIT),
            r.1 == self.magnitude(),
    {
        if self.bits >= SIGN_BIT {
            (true, self.bits - SIGN_BIT)
        } else {
            (false, self.bits)
        }
    }

    /// Whether the pattern is not a number.
    pub fn nan(&self) -> (r: bool)
        ensures
            r == self.is_nan(),
    {
        self.parts().1 > INFINITY_BITS
    }

    /// Whether the number is below `other`.
    pub fn lt(&self, other: &Double) -> (r: bool)
        ensures
            r == self.below(*other),
    {
        let (neg, mag) = self.parts();
        let (other_neg, other_mag) = other.parts();
        if mag > INFINITY_BITS || other_mag > INFINITY_BITS {
            false
        } else if neg && other_neg {
            mag > other_mag
        } else if neg {
            mag > 0 || other_mag > 0
        } else if other_neg {
            false
        } else {
            mag < other_mag
        }
    }

    /// Whether the pattern ranks above `other`; of numbers, whether it is the
    /// larger one.
    pub fn ranks_above(&self, other: &Double) -> (r: bool)
        ensures
            r == (self.rank() > other.rank()),
    {
        let (neg, mag) = self.parts();
        let (other_neg, other_mag) = other.parts();
        if neg && other_neg {
            mag < other_mag
        } else if neg {
            false
        } else if other_neg {
            mag > 0 || other_mag > 0
        } else {
            mag > other_mag
        }
    }

    /// Whether the number is at most `other`.
    pub fn le(&self, other: &Double) -> (r: bool)
        ensures
            r == self.at_most(*other),
    {
        !self.nan() && !other.nan() && !other.lt(self)
    }

    /// Whether the two are the same number.
    pub fn same(&self, other: &Double) -> (r: bool)
        ensures
            r == self.equals(*other),
    {
        self.le(other) && other.le(self)
    }

    /// Whether the number lies in the closed interval from `low` to `high`.
    pub fn within(&self, low: &Double, high: &Double) -> (r: bool)
        ensures
            r == (low.at_most(*self) && self.at_most(*high)),
    {
        low.le(self) && self.le(high)
    }
}

/// A double that is not NaN is below, equal to or above any other such double,
/// and never two of these.
pub proof fn doubles_are_ordered(a: Double, b: Double)
    requires
        !a.is_nan(),
        !b.is_nan(),
    ensures
        a.below(b) || a.equals(b) || b.below(a),
        a.below(b) ==> !a.equals(b) && !b.below(a),
        a.at_most(b) <==> a.below(b) || a.equals(b),
{
}

/// A JSON number: an integer with its nearest double, or a double.
#[derive(Debug, Clone, Copy, PartialEq, Eq, Structural)]
pub enum JsonNumber {
    Unsigned(u64, Double),
    Negative(i64, Double),
    Float(Double),
}

impl JsonNumber {
    /// Whether the number is an integer of 64 bits, signed or unsigned.
    pub open spec fn is_integer(self) -> bool {
        !(self is Float)
    }

    /// The number as a signed 64-bit integer, where it is one.
    pub open spec fn as_i64_spec(self) -> Option<i64> {
        match self {
            JsonNumber::Unsigned(n, _) => if n <= i64::MAX {
                Some(n as i64)
            } else {
                None
            },
            JsonNumber::Negative(n, _) => Some(n),
            JsonNumber::Float(_) => None,
        }
    }

    /// The double nearest to the number.
    pub open spec fn nearest(self) -> Double {
        match self {
            JsonNumber::Unsigned(_, d) => d,
            JsonNumber::Negative(_, d) => d,
            JsonNumber::Float(d) => d,
        }
    }

    /// JSON equality: integers by value, doubles as numbers, never across.
    pub open spec fn equals(self, other: JsonNumber) -> bool {
        match (self, other) {
            (JsonNumber::Unsigned(a, _), JsonNumber::Unsigned(b, _)) => a == b,
            (JsonNumber::Negative(a, _), JsonNumber::Negative(b, _)) => a == b,
            (JsonNumber::Float(a), JsonNumber::Float(b)) => a.equals(b),
            _ => false,
        }
    }

    pub fn is_int(&self) -> (r: bool)
        ensures
            r == self.is_integer(),
    {
        !matches!(self, JsonNumber::Float(_))
    }

    pub fn as_i64(&self) -> (r: Option<i64>)
        ensures
            r == self.as_i64_spec(),
    {
        match self {
            JsonNumber::Unsigned(n, _) => if *n <= i64::MAX as u64 {
                Some(*n as i64)
            } else {
                None
            },
            JsonNumber::Negative(n, _) => Some(*n),
            JsonNumber::Float(_) => None,
        }
    }

    pub fn as_double(&self) -> (r: Double)
        ensures
            r == self.nearest(),
    {
        match self {
            JsonNumber::Unsigned(_, d) => *d,
            JsonNumber::Negative(_, d) => *d,
            JsonNumber::Float(d) => *d,
        }
    }

    pub fn same(&self, other: &JsonNumber) -> (r: bool)
        ensures
            r == self.equals(*other),
    {
        match (self, other) {
            (JsonNumber::Unsigned(a, _), JsonNumber::Unsigned(b, _)) => *a == *b,
            (JsonNumber::Negative(a, _), JsonNumber::Negative(b, _)) => *a == *b,
            (JsonNumber::Float(a), JsonNumber::Float(b)) => a.same(b),
            _ => false,
        }
    }
}

/// A JSON value. The members of an object stand in the order of their keys.
#[derive(Debug, PartialEq, Eq)]
pub enum JsonValue {
    Null,
    Bool(bool),
    Number(JsonNumber),
    Text(String),
    Array(Vec<JsonValue>),
    Object(Vec<(String, JsonValue)>),
}

/// The mathematical value of a `JsonValue`.
#[verifier::ext_equal]
pub enum Json {
    Null,
    Bool(bool),
    Number(JsonNumber),
    Text(Seq<char>),
    Array(Seq<Json>),
    Object(Seq<(Seq<char>, Json)>),
}

/// The mathematical value of an object's members.
pub open spec fn members(v: Seq<(String, JsonValue)>) -> Seq<(Seq<char>, Json)> {
    Seq::new(v.len(), |i: int| (v[i].0@, v[i].1@))
}

/// The mathematical values of a list of values.
pub open spec fn values(v: Seq<JsonValue>) -> Seq<Json> {
    Seq::new(v.len(), |i: int| v[i]@)
}

/// The mathematical value of an optional value.
pub open spec fn opt_json(v: Option<JsonValue>) -> Option<Json> {
    match v {
        Some(j) => Some(j@),
        None => None,
    }
}

/// Whether two optional values are both absent, or equal as JSON.
pub open spec fn opt_equals(a: Option<Json>, b: Option<Json>) -> bool {
    match (a, b) {
        (None, None) => true,
        (Some(x), Some(y)) => x.equals(y),
        _ => false,
    }
}

/// The position of the first member with the key, or the number of members.
pub open spec fn member_index(m: Seq<(Seq<char>, Json)>, key: Seq<char>) -> int
    decreases m.len(),
{
    if m.len() == 0 || m[0].0 == key {
        0
    } else {
        1 + member_index(m.drop_first(), key)
    }
}

/// The value of the first member with the key.
pub open spec fn member(m: Seq<(Seq<char>, Json)>, key: Seq<char>) -> Option<Json> {
    let i = member_index(m, key);
    if 0 <= i < m.len() {
        Some(m[i].1)
    } else {
        None
    }
}

/// `member_index` is the first position of the key, if it has one.
pub proof fn member_index_is_first(m: Seq<(Seq<char>, Json)>, key: Seq<char>)
    ensures
        0 <= member_index(m, key) <= m.len(),
        forall|k: int| 0 <= k < member_index(m, key) ==> (#[trigger] m[k]).0 != key,
        member_index(m, key) < m.len() ==> m[member_index(m, key)].0 == key,
    decreases m.len(),
{
    if m.len() > 0 && m[0].0 != key {
        member_index_is_first(m.drop_first(), key);
        assert forall|k: int| 0 <= k < member_index(m, key) implies (#[trigger] m[k]).0 != key by {
            if k > 0 {
                assert(m.drop_first()[k - 1].0 != key);
            }
        }
    }
}

impl Json {
    pub open spec fn kind_name(self) -> Seq<char> {
        match self {
            Json::Null => "null"@,
            Json::Bool(_) => "bool"@,
            Json::Number(n) => if n.is_integer() {
                "int"@
            } else {
                "float"@
            },
            Json::Text(_) => "str"@,
            Json::Array(_) => "list"@,
            Json::Object(_) => "dict"@,
        }
    }

    /// JSON equality: as structural equality, but with doubles compared as
    /// numbers and integers without regard to their nearest double.
    pub open spec fn equals(self, other: Json) -> bool
        decreases self,
    {
        match (self, other) {
            (Json::Null, Json::Null) => true,
            (Json::Bool(a), Json::Bool(b)) => a == b,
            (Json::Number(a), Json::Number(b)) => a.equals(b),
            (Json::Text(a), Json::Text(b)) => a == b,
            (Json::Array(a), Json::Array(b)) => a.len() == b.len() && forall|i: int|
                0 <= i < a.len() ==> (#[trigger] a[i]).equals(b[i]),
            (Json::Object(a), Json::Object(b)) => a.len() == b.len() && forall|i: int|
                0 <= i < a.len() ==> (#[trigger] a[i]).0 == b[i].0 && a[i].1.equals(b[i].1),
            _ => false,
        }
    }
}

/// JSON equality holds both ways.
pub proof fn equality_is_symmetric(a: Json, b: Json)
    requires
        a.equals(b),
    ensures
        b.equals(a),
    decreases a,
{
    match (a, b) {
        (Json::Array(x), Json::Array(y)) => {
            assert forall|i: int| 0 <= i < y.len() implies (#[trigger] y[i]).equals(x[i]) by {
                assert(x[i].equals(y[i]));
                equality_is_symmetric(x[i], y[i]);
            }
        },
        (Json::Object(x), Json::Object(y)) => {
            assert forall|i: int| 0 <= i < y.len() implies (#[trigger] y[i]).0 == x[i].0
                && y[i].1.equals(x[i].1) by {
                assert(x[i].0 == y[i].0);
                equality_is_symmetric(x[i].1, y[i].1);
            }
        },
        _ => {},
    }
}

/// JSON equality carries over.
pub proof fn equality_is_transitive(a: Json, b: Json, c: Json)
    requires
        a.equals(b),
        b.equals(c),
    ensures
        a.equals(c),
    decreases a,
{
    match (a, b, c) {
        (Json::Array(x), Json::Array(y), Json::Array(z)) => {
            assert forall|i: int| 0 <= i < x.len() implies (#[trigger] x[i]).equals(z[i]) by {
                assert(y[i].equals(z[i]));
                equality_is_transitive(x[i], y[i], z[i]);
            }
        },
        (Json::Object(x), Json::Object(y), Json::Object(z)) => {
            assert forall|i: int| 0 <= i < x.len() implies (#[trigger] x[i]).0 == z[i].0
                && x[i].1.equals(z[i].1) by {
                assert(y[i].0 == z[i].0);
                equality_is_transitive(x[i].1, y[i].1, z[i].1);
            }
        },
        _ => {},
    }
}

impl JsonValue {
    pub open spec fn view(&self) -> Json
        decreases self,
    {
        match self {
            JsonValue::Null => Json::Null,
            JsonValue::Bool(b) => Json::Bool(*b),
            JsonValue::Number(n) => Json::Number(*n),
            JsonValue::Text(s) => Json::Text(s@),
            JsonValue::Array(v) => Json::Array(
                Seq::new(
                    v@.len(),
                    |i: int|
                        if 0 <= i < v@.len() {
                            v@[i].view()
                        } else {
                            Json::Null
                        },
                ),
            ),
            JsonValue::Object(v) => Json::Object(
                Seq::new(
                    v@.len(),
                    |i: int|
                        if 0 <= i < v@.len() {
                            (v@[i].0@, v@[i].1.view())
                        } else {
                            (Seq::empty(), Json::Null)
                        },
                ),
            ),
        }
    }

    /// The value of an object is that of its members.
    pub proof fn object_view(v: Vec<(String, JsonValue)>)
        ensures
            JsonValue::Object(v)@ == Json::Object(members(v@)),
    {
        assert(JsonValue::Object(v)@->Object_0 =~= members(v@));
    }

    /// The value of an array is that of its elements.
    pub proof fn array_view(v: Vec<JsonValue>)
        ensures
            JsonValue::Array(v)@ == Json::Array(values(v@)),
    {
        assert(JsonValue::Array(v)@->Array_0 =~= values(v@));
    }

    /// A copy of the value.
    pub fn duplicate(&self) -> (r: JsonValue)
        ensures
            r@ == self@,
        decreases self,
    {
        match self {
            JsonValue::Null => JsonValue::Null,
            JsonValue::Bool(b) => JsonValue::Bool(*b),
            JsonValue::Number(n) => JsonValue::Number(*n),
            JsonValue::Text(s) => JsonValue::Text(s.clone()),
            JsonValue::Array(v) => {
                let mut out: Vec<JsonValue> = Vec::new();
                let mut i: usize = 0;
                while i < v.len()
                    invariant
                        i <= v.len(),
                        out.len() == i,
                        forall|k: int| 0 <= k < i ==> (#[trigger] out@[k])@ == v@[k]@,
                        decreases_to!(self => v),
                    decreases v.len() - i,
                {
                    assert(decreases_to!(v => v@[i as int]));
                    out.push(v[i].duplicate());
                    i += 1;
                }
                proof {
                    Self::array_view(*v);
                    Self::array_view(out);
                    assert(values(out@) =~= values(v@));
                }
                JsonValue::Array(out)
            },
            JsonValue::Object(v) => {
                let mut out: Vec<(String, JsonValue)> = Vec::new();
                let mut i: usize = 0;
                while i < v.len()
                    invariant
                        i <= v.len(),
                        out.len() == i,
                        forall|k: int|
                            0 <= k < i ==> (#[trigger] out@[k]).1@ == v@[k].1@ && out@[k].0@
                                == v@[k].0@,
                        decreases_to!(self => v),
                    decreases v.len() - i,
                {
                    assert(decreases_to!(v => v@[i as int]));
                    assert(decreases_to!(v@[i as int] => v@[i as int].1));
                    out.push((v[i].0.clone(), v[i].1.duplicate()));
                    i += 1;
                }
                proof {
                    Self::object_view(*v);
                    Self::object_view(out);
                    assert(members(out@) =~= members(v@));
                }
                JsonValue::Object(out)
            },
        }
    }

    /// JSON equality of two values.
    pub fn same(&self, other: &JsonValue) -> (r: bool)
        ensures
            r == self@.equals(other@),
        decreases self,
    {
        match (self, other) {
            (JsonValue::Null, JsonValue::Null) => true,
            (JsonValue::Bool(a), JsonValue::Bool(b)) => *a == *b,
            (JsonValue::Number(a), JsonValue::Number(b)) => a.same(b),
            (JsonValue::Text(a), JsonValue::Text(b)) => *a == *b,
            (JsonValue::Array(a), JsonValue::Array(b)) => {
                proof {
                    Self::array_view(*a);
                    Self::array_view(*b);
                }
                if a.len() != b.len() {
                    return false;
                }
                let mut i: usize = 0;
                while i < a.len()
                    invariant
                        i <= a.len(),
                        a.len() == b.len(),
                        self@ == Json::Array(values(a@)),
                        other@ == Json::Array(values(b@)),
                        forall|k: int| 0 <= k < i ==> (#[trigger] values(a@)[k]).equals(values(b@)[k]),
                        decreases_to!(self => a),
                    decreases a.len() - i,
                {
                    assert(decreases_to!(a => a@[i as int]));
                    if !a[i].same(&b[i]) {
                        assert(!values(a@)[i as int].equals(values(b@)[i as int]));
                        return false;
                    }
                    i += 1;
                }
                true
            },
            (JsonValue::Object(a), JsonValue::Object(b)) => {
                proof {
                    Self::object_view(*a);
                    Self::object_view(*b);
                }
                if a.len() != b.len() {
                    return false;
                }
                let mut i: usize = 0;
                while i < a.len()
                    invariant
                        i <= a.len(),
                        a.len() == b.len(),
                        self@ == Json::Object(members(a@)),
                        other@ == Json::Object(members(b@)),
                        forall|k: int|
                            0 <= k < i ==> (#[trigger] members(a@)[k]).0 == members(b@)[k].0
                                && members(a@)[k].1.equals(members(b@)[k].1),
                        decreases_to!(self => a),
                    decreases a.len() - i,
                {
                    assert(decreases_to!(a => a@[i as int]));
                    assert(decreases_to!(a@[i as int] => a@[i as int].1));
                    if !(a[i].0 == b[i].0) || !a[i].1.same(&b[i].1) {
                        assert(!(members(a@)[i as int].0 == members(b@)[i as int].0
                            && members(a@)[i as int].1.equals(members(b@)[i as int].1)));
                        return false;
                    }
                    i += 1;
                }
                true
            },
            _ => false,
        }
    }

    /// The JSON type's name in messages.
    pub fn kind_name(&self) -> (r: &'static str)
        ensures
            r@ == self@.kind_name(),
    {
        match self {
            JsonValue::Null => "null",
            JsonValue::Bool(_) => "bool",
            JsonValue::Number(n) => if n.is_int() {
                "int"
            } else {
                "float"
            },
            JsonValue::Text(_) => "str",
            JsonValue::Array(_) => "list",
            JsonValue::Object(_) => "dict",
        }
    }

    pub fn is_null(&self) -> (r: bool)
        ensures
            r == (self@ is Null),
    {
        matches!(self, JsonValue::Null)
    }
}

impl Clone for JsonValue {
    fn clone(&self) -> (r: Self)
        ensures
            r@ == self@,
    {
        self.duplicate()
    }
}

/// The position of the first member with the key, or the number of members.
pub fn find_member(m: &Vec<(String, JsonValue)>, key: &str) -> (r: usize)
    ensures
        r == member_index(members(m@), key@),
        r <= m@.len(),
        r < m@.len() ==> m@[r as int].0@ == key@,
{
    proof {
        member_index_is_first(members(m@), key@);
    }
    let mut i: usize = 0;
    while i < m.len()
        invariant
            i <= m@.len(),
            forall|k: int| 0 <= k < i ==> (#[trigger] members(m@)[k]).0 != key@,
            0 <= member_index(members(m@), key@) <= members(m@).len(),
            forall|k: int|
                0 <= k < member_index(members(m@), key@) ==> (#[trigger] members(m@)[k]).0 != key@,
            member_index(members(m@), key@) < members(m@).len() ==> members(m@)[member_index(
                members(m@),
                key@,
            )].0 == key@,
        decreases m.len() - i,
    {
        if crate::text::same_text(m[i].0.as_str(), key) {
            assert(members(m@)[i as int].0 == key@);
            return i;
        }
        assert(members(m@)[i as int].0 != key@);
        i += 1;
    }
    i
}

/// The value of the first member with the key.
pub fn get_member<'a>(m: &'a Vec<(String, JsonValue)>, key: &str) -> (r: Option<&'a JsonValue>)
    ensures
        match r {
            Some(v) => member(members(m@), key@) == Some(v@),
            None => member(members(m@), key@) is None,
        },
{
    let i = find_member(m, key);
    if i < m.len() {
        Some(&m[i].1)
    } else {
        None
    }
}

/// The number of leading members whose keys precede `key`.
pub open spec fn insert_index(m: Seq<(Seq<char>, Json)>, key: Seq<char>) -> int
    decreases m.len(),
{
    if m.len() == 0 || !crate::text::text_precedes(m[0].0, key) {
        0
    } else {
        1 + insert_index(m.drop_first(), key)
    }
}

/// The members with `key` set to `value`: in place of the member that has the
/// key, or else inserted in the order of the keys.
pub open spec fn with_member(
    m: Seq<(Seq<char>, Json)>,
    key: Seq<char>,
    value: Json,
) -> Seq<(Seq<char>, Json)> {
    let i = member_index(m, key);
    if i < m.len() {
        m.update(i, (key, value))
    } else {
        m.insert(insert_index(m, key), (key, value))
    }
}

/// Where a member with the key is inserted, between zero and the number of
/// members.
pub proof fn insert_index_bounds(m: Seq<(Seq<char>, Json)>, key: Seq<char>)
    ensures
        0 <= insert_index(m, key) <= m.len(),
    decreases m.len(),
{
    if m.len() > 0 {
        insert_index_bounds(m.drop_first(), key);
    }
}

/// Sets the member with the key.
pub fn set_member(m: &mut Vec<(String, JsonValue)>, key: &str, value: JsonValue)
    ensures
        members(final(m)@) == with_member(members(old(m)@), key@, value@),
{
    let ghost before = members(m@);
    let i = find_member(m, key);
    if i < m.len() {
        m.set(i, (key.to_owned(), value));
        assert(members(m@) =~= before.update(i as int, (key@, value@)));
        return;
    }
    proof {
        insert_index_bounds(before, key@);
    }
    let mut at: usize = 0;
    assert(before.skip(0) =~= before);
    while at < m.len() && crate::text::text_before(m[at].0.as_str(), key)
        invariant
            at <= m@.len(),
            members(m@) == before,
            insert_index(before, key@) == at + insert_index(before.skip(at as int), key@),
        decreases m.len() - at,
    {
        assert(before[at as int].0 == m@[at as int].0@);
        assert(before.skip(at as int).drop_first() =~= before.skip(at as int + 1));
        at += 1;
    }
    assert(at < m@.len() ==> before.skip(at as int)[0] == before[at as int]);
    assert(at < m@.len() ==> before[at as int].0 == m@[at as int].0@);
    m.insert(at, (key.to_owned(), value));
    assert(members(m@) =~= before.insert(at as int, (key@, value@)));
}

/// Numbers compare by sign and magnitude: of two without the sign bit that with
/// the larger bits is larger, of two with it that with the smaller ones, and one
/// with it is below one without unless both are zero. What is beyond infinity
/// is no number and compares with nothing.
pub proof fn doubles_compare_by_their_bits(a: Double, b: Double)
    ensures
        a.bits <= 0x7ff0_0000_0000_0000 && b.bits <= 0x7ff0_0000_0000_0000 ==> (a.below(b)
            <==> a.bits < b.bits) && (a.at_most(b) <==> a.bits <= b.bits) && (a.equals(b)
            <==> a.bits == b.bits),
        0x8000_0000_0000_0000 <= a.bits <= 0xfff0_0000_0000_0000 && 0x8000_0000_0000_0000 <= b.bits
            <= 0xfff0_0000_0000_0000 ==> (a.below(b) <==> a.bits > b.bits) && (a.at_most(b)
            <==> a.bits >= b.bits) && (a.equals(b) <==> a.bits == b.bits),
        0x8000_0000_0000_0000 <= a.bits <= 0xfff0_0000_0000_0000 && b.bits
            <= 0x7ff0_0000_0000_0000 ==> a.at_most(b) && !b.below(a) && (a.equals(b) <==> a.bits
            == 0x8000_0000_0000_0000 && b.bits == 0),
        0x7ff0_0000_0000_0000 < a.bits < 0x8000_0000_0000_0000 || a.bits > 0xfff0_0000_0000_0000
            ==> a.is_nan() && !a.below(b) && !b.below(a) && !a.at_most(b) && !b.at_most(a)
            && !a.equals(b),
        a.bits <= 0x7ff0_0000_0000_0000 || 0x8000_0000_0000_0000 <= a.bits <= 0xfff0_0000_0000_0000
            ==> !a.is_nan(),
        Double::zero().bits == 0,
        Double::one().bits == 0x3ff0_0000_0000_0000,
{
}

/// Plain values are equal exactly if they are of one kind and the same; an
/// integer is not equal to a number with a fraction.
pub proof fn plain_values_equal_by_content(
    a: bool,
    b: bool,
    s: Seq<char>,
    t: Seq<char>,
    m: JsonNumber,
    n: JsonNumber,
)
    ensures
        Json::Null.equals(Json::Null),
        Json::Bool(a).equals(Json::Bool(b)) <==> a == b,
        Json::Text(s).equals(Json::Text(t)) <==> s == t,
        Json::Number(m).equals(Json::Number(n)) <==> match (m, n) {
            (JsonNumber::Unsigned(x, _), JsonNumber::Unsigned(y, _)) => x == y,
            (JsonNumber::Negative(x, _), JsonNumber::Negative(y, _)) => x == y,
            (JsonNumber::Float(x), JsonNumber::Float(y)) => x.equals(y),
            _ => false,
        },
        !Json::Null.equals(Json::Bool(b)),
        !Json::Null.equals(Json::Text(t)),
        !Json::Null.equals(Json::Number(n)),
        !Json::Bool(a).equals(Json::Text(t)),
        !Json::Bool(a).equals(Json::Number(n)),
        !Json::Text(s).equals(Json::Number(n)),
{
}

/// Lists are equal exactly if they are equally long and equal at every place.
pub proof fn lists_equal_by_place(a: Seq<Json>, b: Seq<Json>)
    ensures
        Json::Array(a).equals(Json::Array(b)) <==> a.len() == b.len() && forall|i: int|
            0 <= i < a.len() ==> (#[trigger] a[i]).equals(b[i]),
{
}

/// A number's integer is what it holds, where that fits; one with a fraction
/// has none. Every number has the double beside it as its nearest.
pub proof fn numbers_say_their_integers(u: u64, i: i64, d: Double)
    ensures
        JsonNumber::Unsigned(u, d).is_integer(),
        JsonNumber::Negative(i, d).is_integer(),
        !JsonNumber::Float(d).is_integer(),
        u <= 0x7fff_ffff_ffff_ffff ==> JsonNumber::Unsigned(u, d).as_i64_spec() == Some(u as i64),
        u > 0x7fff_ffff_ffff_ffff ==> JsonNumber::Unsigned(u, d).as_i64_spec() is None,
        JsonNumber::Negative(i, d).as_i64_spec() == Some(i),
        JsonNumber::Float(d).as_i64_spec() is None,
        JsonNumber::Unsigned(u, d).nearest() == d,
        JsonNumber::Negative(i, d).nearest() == d,
        JsonNumber::Float(d).nearest() == d,
{
}

/// Plain values stand for what they hold.
pub proof fn plain_values_say_their_content(b: bool, n: JsonNumber, s: String)
    ensures
        JsonValue::Null@ == Json::Null,
        JsonValue::Bool(b)@ == Json::Bool(b),
        JsonValue::Number(n)@ == Json::Number(n),
        JsonValue::Text(s)@ == Json::Text(s@),
{
}

/// The value of a key is that of the first member with it; without one there is
/// no value.
pub proof fn the_first_member_counts(m: Seq<(Seq<char>, Json)>, key: Seq<char>, i: int)
    ensures
        0 <= i < m.len() && m[i].0 == key && (forall|k: int| 0 <= k < i ==> (#[trigger] m[k]).0
            != key) ==> member(m, key) == Some(m[i].1),
        (forall|k: int| 0 <= k < m.len() ==> (#[trigger] m[k]).0 != key) ==> member(m, key) is None,
{
    member_index_is_first(m, key);
    let j = member_index(m, key);
    if 0 <= i < m.len() && m[i].0 == key {
        assert(j <= i);
        if j < i {
            assert(m[j].0 == key);
        }
    }
}

/// A member that is set is read back, and the other members stay.
pub proof fn set_members_are_read_back(
    m: Seq<(Seq<char>, Json)>,
    key: Seq<char>,
    value: Json,
    other: Seq<char>,
)
    ensures
        member(with_member(m, key, value), key) == Some(value),
        other != key ==> member(with_member(m, key, value), other) == member(m, other),
{
    let n = with_member(m, key, value);
    member_index_is_first(m, key);
    member_index_is_first(m, other);
    insert_index_bounds(m, key);
    let i = member_index(m, key);
    let at = insert_index(m, key);
    let o = member_index(m, other);
    if i < m.len() {
        assert(forall|k: int| 0 <= k < m.len() && k != i ==> #[trigger] n[k] == m[k]);
        assert(n[i] == (key, value));
        the_first_member_counts(n, key, i);
        the_first_member_counts(n, other, o);
    } else {
        assert(n[at] == (key, value));
        assert(forall|k: int| 0 <= k < at ==> #[trigger] n[k] == m[k]);
        assert(forall|k: int| at < k < n.len() ==> #[trigger] n[k] == m[k - 1]);
        assert(forall|k: int| 0 <= k < m.len() ==> (#[trigger] m[k]).0 != key);
        the_first_member_counts(n, key, at);
        if other != key {
            if o < m.len() {
                if o < at {
                    the_first_member_counts(n, other, o);
                } else {
                    assert(n[o + 1] == m[o]);
                    the_first_member_counts(n, other, o + 1);
                }
            } else {
                assert(forall|k: int| 0 <= k < m.len() ==> (#[trigger] m[k]).0 != other);
                the_first_member_counts(n, other, 0);
            }
        }
    }
}

} // verus!
