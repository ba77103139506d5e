//! Faceting: how often each value of an indexed metadata key occurs among the
//! candidates of a search.

use vstd::prelude::*;
use crate::common::SearchExcludeField;
use crate::filter_parser;
use crate::indices;
use crate::ingress;
use crate::ingress::group_by_name;
use crate::json::{Double, INFINITY_BITS, SIGN_BIT};
use crate::payload;
use crate::payload::{get_field, StoredValue};
use crate::ranking;
use crate::ranking::{sort_ranked, Ranked};
use crate::text;
use crate::text::{same_text, signed_text, text_before};

verus! {

/// The fields that must be fetched for facets: the metadata, if facets are
/// asked for.
pub open spec fn facet_fields(facets_enabled: bool) -> Seq<SearchExcludeField> {
    if facets_enabled {
        seq![SearchExcludeField::Metadata]
    } else {
        Seq::empty()
    }
}

/// The fields that must be fetched for facets, whatever a query excludes.
pub fn required_fields_for_facets(facets_enabled: bool) -> (r: Vec<SearchExcludeField>)
    ensures
        r@ == facet_fields(facets_enabled),
{
    let mut r: Vec<SearchExcludeField> = Vec::new();
    if facets_enabled {
        r.push(SearchExcludeField::Metadata);
    }
    assert(r@ =~= facet_fields(facets_enabled));
    r
}

/// The number of bits in a double's fraction.
pub const FRACTION_UNIT: u64 = 0x10_0000_0000_0000;

/// The magnitude of a finite double of at least one, rounded down.
pub open spec fn whole_magnitude(d: Double) -> nat {
    let e = d.magnitude() / (FRACTION_UNIT as int);
    let m = d.magnitude() % (FRACTION_UNIT as int) + FRACTION_UNIT;
    if e >= 1075 {
        m as nat * vstd::arithmetic::power2::pow2((e - 1075) as nat)
    } else {
        m as nat / vstd::arithmetic::power2::pow2((1075 - e) as nat)
    }
}

/// A double as a signed integer of 64 bits: without its fraction, at the
/// nearest end of the range if it lies beyond, and zero if it is no number.
pub open spec fn truncated(d: Double) -> int {
    let e = d.magnitude() / (FRACTION_UNIT as int);
    if d.is_nan() || e < 1023 {
        0
    } else if e >= 1086 {
        if d.bits >= SIGN_BIT {
            i64::MIN as int
        } else {
            i64::MAX as int
        }
    } else if d.bits >= SIGN_BIT {
        -(whole_magnitude(d) as int)
    } else {
        whole_magnitude(d) as int
    }
}

fn scale_up(m: u64, n: u64) -> (r: u64)
    requires
        m < 0x20_0000_0000_0000,
        n <= 10,
    ensures
        r == m * vstd::arithmetic::power2::pow2(n as nat),
        r < 0x8000_0000_0000_0000,
{
    let mut r: u64 = m;
    let mut k: u64 = 0;
    proof {
        vstd::arithmetic::power2::lemma2_to64();
        assert(m * 1 == m);
    }
    let ghost mut cap: int = 0x20_0000_0000_0000;
    while k < n
        invariant
            k <= n <= 10,
            r == m * vstd::arithmetic::power2::pow2(k as nat),
            r < cap,
            cap == 0x20_0000_0000_0000 * vstd::arithmetic::power2::pow2(k as nat),
            cap <= 0x8000_0000_0000_0000,
            m < 0x20_0000_0000_0000,
        decreases n - k,
    {
        proof {
            vstd::arithmetic::power2::lemma_pow2_unfold((k + 1) as nat);
            assert(vstd::arithmetic::power2::pow2((k + 1) as nat) == 2 * vstd::arithmetic::power2::pow2(k as nat));
            assert(m * (2 * vstd::arithmetic::power2::pow2(k as nat)) == 2 * (m * vstd::arithmetic::power2::pow2(k as nat))) by (nonlinear_arith);
            vstd::arithmetic::power2::lemma2_to64();
            if k + 1 <= 10 {
                vstd::arithmetic::power2::lemma_pow2_strictly_increases(k as nat, 10);
                assert(vstd::arithmetic::power2::pow2(k as nat) <= 512) by {
                    if k < 9 {
                        vstd::arithmetic::power2::lemma_pow2_strictly_increases(k as nat, 9);
                    }
                }
            }
            cap = cap * 2;
        }
        r = r * 2;
        k += 1;
    }
    r
}

fn scale_down(m: u64, n: u64) -> (r: u64)
    ensures
        r == m as nat / vstd::arithmetic::power2::pow2(n as nat),
{
    let mut r: u64 = m;
    let mut k: u64 = 0;
    proof {
        vstd::arithmetic::power2::lemma2_to64();
        assert(m as nat / 1 == m);
    }
    while k < n
        invariant
            k <= n,
            r == m as nat / vstd::arithmetic::power2::pow2(k as nat),
        decreases n - k,
    {
        proof {
            vstd::arithmetic::power2::lemma_pow2_unfold((k + 1) as nat);
            vstd::arithmetic::power2::lemma_pow2_pos(k as nat);
            vstd::arithmetic::div_mod::lemma_div_denominator(
                m as int,
                vstd::arithmetic::power2::pow2(k as nat) as int,
                2,
            );
            assert(vstd::arithmetic::power2::pow2(k as nat) * 2 == 2 * vstd::arithmetic::power2::pow2(k as nat));
        }
        r = r / 2;
        k += 1;
    }
    r
}

fn truncate_double(d: Double) -> (r: i64)
    ensures
        r == truncated(d),
{
    let negative = d.bits >= SIGN_BIT;
    let mag: u64 = if negative {
        d.bits - SIGN_BIT
    } else {
        d.bits
    };
    let e: u64 = mag / FRACTION_UNIT;
    if mag > INFINITY_BITS || e < 1023 {
        return 0;
    }
    if e >= 1086 {
        return if negative {
            i64::MIN
        } else {
            i64::MAX
        };
    }
    let m: u64 = mag % FRACTION_UNIT + FRACTION_UNIT;
    let whole: u64 = if e >= 1075 {
        scale_up(m, e - 1075)
    } else {
        let r: u64 = scale_down(m, 1075 - e);
        proof {
            vstd::arithmetic::power2::lemma_pow2_pos((1075 - e) as nat);
            vstd::arithmetic::div_mod::lemma_div_is_ordered_by_denominator(
                m as int,
                1,
                vstd::arithmetic::power2::pow2((1075 - e) as nat) as int,
            );
            assert(m as int / 1 == m);
        }
        r
    };
    if negative {
        -(whole as i64)
    } else {
        whole as i64
    }
}

/// What `{:?}` prints for a double.
pub uninterp spec fn double_debug(bits: u64) -> Seq<char>;

/// Formats with `{:?}` the double with the given bits, which
/// `bytes::Buf::get_f64` reads from them.
#[verifier::external_body]
fn double_to_debug(bits: u64) -> (r: String)
    ensures
        r@ == double_debug(bits),
{
    let pattern = bits.to_be_bytes();
    let mut rest = &pattern[..];
    format!("{:?}", bytes::Buf::get_f64(&mut rest))
}

/// The text under which a value of a declared type is counted; a value of
/// another kind is not counted.
pub open spec fn facet_key(v: StoredValue, idx_type: Seq<char>) -> Option<Seq<char>> {
    if idx_type == "integer"@ {
        match v {
            StoredValue::Integer(i, _) => Some(text::signed_decimal(i as int)),
            StoredValue::Number(d) => Some(text::signed_decimal(truncated(d))),
            _ => None,
        }
    } else if idx_type == "float"@ {
        match v {
            StoredValue::Integer(_, d) => Some(double_debug(d.bits)),
            StoredValue::Number(d) => Some(double_debug(d.bits)),
            _ => None,
        }
    } else if idx_type == "boolean"@ {
        match v {
            StoredValue::Bool(b) => Some(
                if b {
                    "true"@
                } else {
                    "false"@
                },
            ),
            _ => None,
        }
    } else {
        match v {
            StoredValue::Text(s) => Some(s@),
            _ => None,
        }
    }
}

/// The text under which a value of a declared type is counted.
pub fn facet_value_key(value: &StoredValue, idx_type: &str) -> (r: Option<String>)
    ensures
        text::opt_view(r) == facet_key(*value, idx_type@),
{
    if same_text(idx_type, "integer") {
        match value {
            StoredValue::Integer(i, _) => Some(signed_text(*i)),
            StoredValue::Number(d) => Some(signed_text(truncate_double(*d))),
            _ => None,
        }
    } else if same_text(idx_type, "float") {
        match value {
            StoredValue::Integer(_, d) => Some(double_to_debug(d.bits)),
            StoredValue::Number(d) => Some(double_to_debug(d.bits)),
            _ => None,
        }
    } else if same_text(idx_type, "boolean") {
        match value {
            StoredValue::Bool(b) => if *b {
                Some("true".to_owned())
            } else {
                Some("false".to_owned())
            },
            _ => None,
        }
    } else {
        match value {
            StoredValue::Text(s) => Some(s.as_str().to_owned()),
            _ => None,
        }
    }
}

/// How often a value occurs.
#[derive(Debug, PartialEq, Eq)]
pub struct FacetCount {
    pub value: String,
    pub count: u64,
}

impl Ranked for FacetCount {
    /// The more frequent value comes first; of equally frequent ones the lower.
    open spec fn precedes(&self, other: &Self) -> bool {
        if self.count != other.count {
            self.count > other.count
        } else {
            text::text_precedes(self.value@, other.value@)
        }
    }

    proof fn precedes_asymmetric(a: &Self, b: &Self) {
        if text::text_precedes(a.value@, b.value@) && text::text_precedes(b.value@, a.value@) {
            text::text_precedes_transitive(a.value@, b.value@, a.value@);
            text::text_precedes_irreflexive(a.value@);
        }
    }

    proof fn not_precedes_transitive(a: &Self, b: &Self, c: &Self) {
        if !a.precedes(b) && !b.precedes(c) && a.precedes(c) {
            text::text_precedes_total(a.value@, b.value@);
            text::text_precedes_total(b.value@, c.value@);
            if a.value@ != b.value@ && b.value@ != c.value@ && text::text_precedes(
                c.value@,
                b.value@,
            ) && text::text_precedes(b.value@, a.value@) && text::text_precedes(
                a.value@,
                c.value@,
            ) {
                text::text_precedes_transitive(c.value@, b.value@, a.value@);
                text::text_precedes_transitive(a.value@, c.value@, a.value@);
                text::text_precedes_irreflexive(a.value@);
            }
        }
    }

    fn before(&self, other: &Self) -> (r: bool) {
        if self.count != other.count {
            self.count > other.count
        } else {
            text_before(self.value.as_str(), other.value.as_str())
        }
    }
}

/// The value of a metadata key in a point's payload.
pub open spec fn metadata_field(
    payload: Seq<(String, StoredValue)>,
    key: Seq<char>,
) -> Option<StoredValue> {
    match payload::stored_field(payload, "metadata"@) {
        Some(StoredValue::Struct(meta)) => payload::stored_field(meta@, key),
        _ => None,
    }
}

/// The texts under which the first points count for a key.
pub open spec fn facet_keys(
    points: Seq<Vec<(String, StoredValue)>>,
    key: Seq<char>,
    idx_type: Seq<char>,
    n: int,
) -> Seq<Seq<char>>
    decreases n,
{
    if n <= 0 {
        Seq::empty()
    } else {
        let rest = facet_keys(points, key, idx_type, n - 1);
        match metadata_field(points[n - 1]@, key) {
            Some(v) => match facet_key(v, idx_type) {
                Some(t) => rest.push(t),
                None => rest,
            },
            None => rest,
        }
    }
}

/// How often a text occurs.
pub open spec fn occurrences(values: Seq<Seq<char>>, t: Seq<char>) -> int {
    indices::picked(values.len() as int, |i: int| values[i] == t).len() as int
}

/// Whether the counts are those of the values: every value once, with the
/// number of its occurrences.
pub open spec fn tallies(values: Seq<Seq<char>>, s: Seq<FacetCount>) -> bool {
    &&& forall|i: int|
        0 <= i < s.len() ==> (#[trigger] s[i]).count == occurrences(values, s[i].value@)
            && values.contains(s[i].value@)
    &&& forall|i: int, j: int|
        #![trigger s[i], s[j]]
        0 <= i < j < s.len() ==> s[i].value@ != s[j].value@
    &&& forall|k: int|
        0 <= k < values.len() ==> has_count(s, #[trigger] values[k])
}

/// Whether one of the counts is that of the value.
pub open spec fn has_count(s: Seq<FacetCount>, value: Seq<char>) -> bool {
    exists|i: int| 0 <= i < s.len() && (#[trigger] s[i]).value@ == value
}

/// Whether `r` are the first `max_values` of the values' counts, the most
/// frequent first.
pub open spec fn top_counts(values: Seq<Seq<char>>, max_values: nat, r: Seq<FacetCount>) -> bool {
    exists|s: Seq<FacetCount>|
        {
            &&& #[trigger] ranking::in_rank_order(s)
            &&& tallies(values, s)
            &&& r == s.take(
                if max_values < s.len() {
                    max_values as int
                } else {
                    s.len() as int
                },
            )
        }
}

proof fn lemma_tallies_sorted(values: Seq<Seq<char>>, a: Seq<FacetCount>, b: Seq<FacetCount>)
    requires
        tallies(values, a),
        a.to_multiset() == b.to_multiset(),
    ensures
        tallies(values, b),
{
    ranking::same_elements(a, b);
    assert(a.no_duplicates());
    a.lemma_multiset_has_no_duplicates();
    b.lemma_multiset_has_no_duplicates_conv();
    assert forall|i: int| 0 <= i < b.len() implies (#[trigger] b[i]).count == occurrences(
        values,
        b[i].value@,
    ) && values.contains(b[i].value@) by {
        assert(a.contains(b[i]));
    }
    assert forall|i: int, j: int|
        #![trigger b[i], b[j]]
        0 <= i < j < b.len() implies b[i].value@ != b[j].value@ by {
        assert(a.contains(b[i]) && a.contains(b[j]));
        let x = choose|x: int| 0 <= x < a.len() && a[x] == b[i];
        let y = choose|y: int| 0 <= y < a.len() && a[y] == b[j];
        assert(b[i] != b[j]);
        assert(x != y);
        if x < y {
            assert(a[x].value@ != a[y].value@);
        } else {
            assert(a[y].value@ != a[x].value@);
        }
    }
    assert forall|k: int| 0 <= k < values.len() implies has_count(b, #[trigger] values[k]) by {
        assert(has_count(a, values[k]));
        let i = choose|i: int| 0 <= i < a.len() && (#[trigger] a[i]).value@ == values[k];
        assert(b.contains(a[i]));
        let j = choose|j: int| 0 <= j < b.len() && b[j] == a[i];
        assert(b[j].value@ == values[k]);
    }
}

/// Counts values and keeps the most frequent ones.
fn count_values(values: &Vec<String>, max_values: usize) -> (r: Vec<FacetCount>)
    ensures
        top_counts(text::views(values@), max_values as nat, r@),
{
    let ghost all = text::views(values@);
    let groups = group_by_name(values);
    let mut counts: Vec<FacetCount> = Vec::new();
    let mut g: usize = 0;
    while g < groups.len()
        invariant
            g <= groups@.len(),
            all == text::views(values@),
            all.len() == values@.len(),
            ingress::gathers(all, values@.len() as int, groups@),
            counts@.len() == g,
            forall|k: int|
                0 <= k < g ==> (#[trigger] counts@[k]).value@ == groups@[k].name@
                    && counts@[k].count == occurrences(all, groups@[k].name@) && all.contains(
                    groups@[k].name@,
                ),
        decreases groups.len() - g,
    {
        proof {
            let name = groups@[g as int].name@;
            let p = |i: int| all[i] == name;
            let q = |i: int| all[i] == groups@[g as int].name@;
            indices::same_picks(all.len() as int, q, p);
            indices::picked_is_exact(all.len() as int, p);
            assert(indices::positions(groups@[g as int].members@) == indices::picked(
                all.len() as int,
                q,
            ));
            assert(indices::positions(groups@[g as int].members@) == indices::picked(
                all.len() as int,
                p,
            ));
            assert(indices::positions(groups@[g as int].members@).len()
                == groups@[g as int].members@.len());
            let x = indices::picked(all.len() as int, p)[0];
            assert(p(x));
            assert(all[x] == name);
            assert(occurrences(all, name) == indices::picked(all.len() as int, p).len());
            assert(0 <= x < all.len());
            assert(all.contains(name));
            assert(groups@[g as int].members@.len() == occurrences(all, name));
        }
        let value = groups[g].name.as_str().to_owned();
        let count: u64 = groups[g].members.len() as u64;
        assert(value@ == groups@[g as int].name@);
        assert(count == occurrences(all, groups@[g as int].name@));
        let ghost before = counts@;
        counts.push(FacetCount { value, count });
        proof {
            assert forall|k: int| 0 <= k < g + 1 implies (#[trigger] counts@[k]).value@
                == groups@[k].name@ && counts@[k].count == occurrences(all, groups@[k].name@)
                && all.contains(groups@[k].name@) by {
                if k < g {
                    assert(counts@[k] == before[k]);
                }
            }
        }
        g += 1;
    }
    let ghost unsorted = counts@;
    proof {
        assert forall|i: int, j: int|
            #![trigger unsorted[i], unsorted[j]]
            0 <= i < j < unsorted.len() implies unsorted[i].value@ != unsorted[j].value@ by {
            assert(groups@[i].name@ != groups@[j].name@);
        }
        assert forall|k: int| 0 <= k < all.len() implies has_count(
            unsorted,
            #[trigger] all[k],
        ) by {
            assert(ingress::has_group(groups@, all[k]));
            let h = choose|h: int| 0 <= h < groups@.len() && (#[trigger] groups@[h]).name@
                == all[k];
            assert(unsorted[h].value@ == all[k]);
        }
        assert(tallies(all, unsorted));
    }
    let mut sorted = sort_ranked(counts);
    let ghost s = sorted@;
    proof {
        lemma_tallies_sorted(all, unsorted, s);
        assert(ranking::in_rank_order(s));
    }
    if max_values < sorted.len() {
        sorted.truncate(max_values);
        assert(sorted@ =~= s.take(max_values as int));
    } else {
        assert(sorted@ =~= s.take(s.len() as int));
    }
    sorted
}

/// The counts of a metadata key's values.
#[derive(Debug, PartialEq, Eq)]
pub struct FieldFacets {
    pub key: String,
    pub counts: Vec<FacetCount>,
}

/// Whether a key is declared again behind a position.
pub open spec fn declared_again(fields: Seq<(String, String)>, i: int) -> bool {
    exists|j: int| i < j < fields.len() && (#[trigger] fields[j]).0@ == fields[i].0@
}

/// The positions of the declarations that count: of a key declared more than
/// once, the last.
pub open spec fn counted_fields(fields: Seq<(String, String)>, n: int) -> Seq<int> {
    indices::picked(n, |i: int| !declared_again(fields, i))
}

fn collect_keys(points: &Vec<Vec<(String, StoredValue)>>, key: &str, idx_type: &str) -> (r: Vec<
    String,
>)
    ensures
        text::views(r@) == facet_keys(points@, key@, idx_type@, points@.len() as int),
{
    let mut out: Vec<String> = Vec::new();
    let mut i: usize = 0;
    assert(text::views(out@) =~= Seq::empty());
    while i < points.len()
        invariant
            i <= points@.len(),
            text::views(out@) == facet_keys(points@, key@, idx_type@, i as int),
        decreases points.len() - i,
    {
        if let Some(StoredValue::Struct(meta)) = get_field(&points[i], "metadata") {
            if let Some(v) = get_field(meta, key) {
                if let Some(t) = facet_value_key(v, idx_type) {
                    let ghost before = text::views(out@);
                    let ghost view = t@;
                    out.push(t);
                    assert(text::views(out@) =~= before.push(view));
                }
            }
        }
        i += 1;
    }
    out
}

/// Counts the values of the indexed keys over the payloads of a search's
/// candidates. The fields are pairs of a key and its declared type.
pub fn compute_facet_counts(
    points: &Vec<Vec<(String, StoredValue)>>,
    indexed_fields: &Vec<(String, String)>,
    max_values: usize,
) -> (r: Vec<FieldFacets>)
    ensures
        r@.len() == counted_fields(indexed_fields@, indexed_fields@.len() as int).len(),
        forall|k: int|
            0 <= k < r@.len() ==> {
                let f = indexed_fields@[counted_fields(
                    indexed_fields@,
                    indexed_fields@.len() as int,
                )[k]];
                &&& (#[trigger] r@[k]).key@ == f.0@
                &&& top_counts(
                    facet_keys(points@, f.0@, f.1@, points@.len() as int),
                    max_values as nat,
                    r@[k].counts@,
                )
            },
{
    let mut out: Vec<FieldFacets> = Vec::new();
    let mut i: usize = 0;
    let n: usize = indexed_fields.len();
    while i < n
        invariant
            i <= n,
            n == indexed_fields@.len(),
            out@.len() == counted_fields(indexed_fields@, i as int).len(),
            forall|k: int|
                0 <= k < out@.len() ==> {
                    let f = indexed_fields@[counted_fields(indexed_fields@, i as int)[k]];
                    &&& (#[trigger] out@[k]).key@ == f.0@
                    &&& top_counts(
                        facet_keys(points@, f.0@, f.1@, points@.len() as int),
                        max_values as nat,
                        out@[k].counts@,
                    )
                },
        decreases n - i,
    {
        let mut again = false;
        let mut j: usize = i + 1;
        while j < n
            invariant
                i < j <= n,
                n == indexed_fields@.len(),
                again <==> exists|x: int|
                    i < x < j && (#[trigger] indexed_fields@[x]).0@
                        == indexed_fields@[i as int].0@,
            decreases n - j,
        {
            if same_text(indexed_fields[j].0.as_str(), indexed_fields[i].0.as_str()) {
                assert(indexed_fields@[j as int].0@ == indexed_fields@[i as int].0@);
                again = true;
            }
            j += 1;
        }
        if !again {
            let key = indexed_fields[i].0.as_str();
            let values = collect_keys(points, key, indexed_fields[i].1.as_str());
            let counts = count_values(&values, max_values);
            out.push(FieldFacets { key: key.to_owned(), counts });
        }
        i += 1;
    }
    out
}

/// What is kept of a key's values is the most frequent: a value that is left
/// out comes behind all that are kept, and only where no more were wanted.
pub proof fn facets_keep_the_most_frequent(
    values: Seq<Seq<char>>,
    max_values: nat,
    r: Seq<FacetCount>,
    k: int,
)
    requires
        top_counts(values, max_values, r),
        0 <= k < values.len(),
        !has_count(r, values[k]),
    ensures
        r.len() == max_values,
        forall|i: int|
            0 <= i < r.len() ==> occurrences(values, values[k]) <= (#[trigger] r[i]).count,
{
    let s = choose|s: Seq<FacetCount>|
        {
            &&& #[trigger] ranking::in_rank_order(s)
            &&& tallies(values, s)
            &&& r == s.take(
                if max_values < s.len() {
                    max_values as int
                } else {
                    s.len() as int
                },
            )
        };
    assert(has_count(s, values[k]));
    let j = choose|j: int| 0 <= j < s.len() && (#[trigger] s[j]).value@ == values[k];
    if j < r.len() {
        assert(r[j].value@ == values[k]);
    }
    assert forall|i: int| 0 <= i < r.len() implies occurrences(values, values[k]) <= (
    #[trigger] r[i]).count by {
        assert(r[i] == s[i]);
        assert(!s[j].precedes(&s[i]));
    }
}

/// Whether a value is of the type that a key is declared with: a truth value, a
/// number, or a text.
pub open spec fn has_declared_type(v: StoredValue, idx_type: Seq<char>) -> bool {
    if idx_type == "boolean"@ {
        v is Bool
    } else if idx_type == "integer"@ || idx_type == "float"@ {
        v is Integer || v is Number
    } else {
        v is Text
    }
}

proof fn lemma_type_names()
    ensures
        "boolean"@ != "integer"@,
        "boolean"@ != "float"@,
        "integer"@ != "float"@,
        "true"@ != "false"@,
{
    reveal_strlit("boolean");
    reveal_strlit("integer");
    reveal_strlit("float");
    reveal_strlit("true");
    reveal_strlit("false");
    assert("boolean"@[0] != "integer"@[0]);
    assert("float"@.len() != "boolean"@.len());
    assert("float"@.len() != "integer"@.len());
    assert("true"@.len() != "false"@.len());
}

/// A value is counted exactly if it is of the key's declared type.
pub proof fn values_of_the_declared_type_are_counted(v: StoredValue, idx_type: Seq<char>)
    ensures
        facet_key(v, idx_type) is Some <==> has_declared_type(v, idx_type),
{
    lemma_type_names();
}

/// Different truth values are counted apart, and so are different texts.
pub proof fn different_values_are_counted_apart(a: StoredValue, b: StoredValue, idx_type: Seq<char>)
    requires
        facet_key(a, idx_type) is Some,
        facet_key(a, idx_type) == facet_key(b, idx_type),
    ensures
        a is Bool ==> (b is Bool && a->Bool_0 == b->Bool_0),
        a is Text ==> (b is Text && a->Text_0@ == b->Text_0@ && facet_key(a, idx_type) == Some(
            a->Text_0@,
        )),
        idx_type == "integer"@ && a is Integer && b is Integer ==> a->Integer_0 == b->Integer_0,
{
    lemma_type_names();
    if idx_type == "integer"@ && a is Integer && b is Integer {
        filter_parser::written_integers_read_back(a->Integer_0 as int);
        filter_parser::written_integers_read_back(b->Integer_0 as int);
    }
}

/// What a candidate is counted under for a key, if it is counted.
pub open spec fn candidate_key(
    point: Seq<(String, StoredValue)>,
    key: Seq<char>,
    idx_type: Seq<char>,
) -> Option<Seq<char>> {
    match metadata_field(point, key) {
        Some(v) => facet_key(v, idx_type),
        None => None,
    }
}

proof fn lemma_occurrences(values: Seq<Seq<char>>, t: Seq<char>, p: spec_fn(int) -> bool)
    requires
        forall|i: int| 0 <= i < values.len() ==> #[trigger] p(i) == (values[i] == t),
    ensures
        occurrences(values, t) == indices::count_where(values.len() as int, p),
{
    let named = |i: int| values[i] == t;
    let other = choose|f: spec_fn(int) -> bool|
        (forall|i: int| #[trigger] f(i) == (values[i] == t)) && occurrences(values, t)
            == indices::picked(values.len() as int, f).len();
    indices::same_picks(values.len() as int, other, named);
    assert(occurrences(values, t) == indices::picked(values.len() as int, named).len() as int);
    indices::picks_are_counted(values.len() as int, named);
    assert forall|i: int| 0 <= i < values.len() implies #[trigger] named(i) == p(i) by {
        assert(p(i) == (values[i] == t));
    }
    indices::same_counts(values.len() as int, named, p);
}

proof fn lemma_key_occurrences(
    points: Seq<Vec<(String, StoredValue)>>,
    key: Seq<char>,
    idx_type: Seq<char>,
    n: int,
    t: Seq<char>,
)
    requires
        0 <= n <= points.len(),
    ensures
        facet_keys(points, key, idx_type, n).len() == indices::count_where(
            n,
            |i: int| candidate_key(points[i]@, key, idx_type) is Some,
        ),
        occurrences(facet_keys(points, key, idx_type, n), t) == indices::count_where(
            n,
            |i: int| candidate_key(points[i]@, key, idx_type) == Some(t),
        ),
    decreases n,
{
    let keys = facet_keys(points, key, idx_type, n);
    let p = |i: int| keys[i] == t;
    let counted = |i: int| candidate_key(points[i]@, key, idx_type) == Some(t);
    indices::picks_are_counted(keys.len() as int, p);
    lemma_occurrences(keys, t, p);
    if n > 0 {
        lemma_key_occurrences(points, key, idx_type, n - 1, t);
        let rest = facet_keys(points, key, idx_type, n - 1);
        let q = |i: int| rest[i] == t;
        indices::picks_are_counted(rest.len() as int, q);
        lemma_occurrences(rest, t, q);
        assert(indices::count_where(n - 1, counted) == indices::count_where(rest.len() as int, q));
        match candidate_key(points[n - 1]@, key, idx_type) {
            Some(k) => {
                assert(keys == rest.push(k));
                assert(p(rest.len() as int) == counted(n - 1));
                indices::same_counts(rest.len() as int, q, p);
            },
            None => {
                assert(keys == rest);
                assert(!counted(n - 1));
                indices::same_counts(rest.len() as int, q, p);
            },
        }
        assert(indices::count_where(n, counted) == indices::count_where(keys.len() as int, p));
    }
}

/// A text's count is the number of candidates that are counted under it.
pub proof fn counts_are_numbers_of_candidates(
    points: Seq<Vec<(String, StoredValue)>>,
    key: Seq<char>,
    idx_type: Seq<char>,
    max_values: nat,
    r: Seq<FacetCount>,
    j: int,
)
    requires
        top_counts(facet_keys(points, key, idx_type, points.len() as int), max_values, r),
        0 <= j < r.len(),
    ensures
        r[j].count == indices::count_where(
            points.len() as int,
            |i: int| candidate_key(points[i]@, key, idx_type) == Some(r[j].value@),
        ),
        r[j].count > 0,
{
    let values = facet_keys(points, key, idx_type, points.len() as int);
    let s = choose|s: Seq<FacetCount>|
        {
            &&& #[trigger] ranking::in_rank_order(s)
            &&& tallies(values, s)
            &&& r == s.take(
                if max_values < s.len() {
                    max_values as int
                } else {
                    s.len() as int
                },
            )
        };
    assert(r[j] == s[j]);
    lemma_key_occurrences(points, key, idx_type, points.len() as int, r[j].value@);
    let p = |i: int| values[i] == s[j].value@;
    indices::picked_is_exact(values.len() as int, p);
    let k = choose|k: int| 0 <= k < values.len() && values[k] == s[j].value@;
    assert(p(k));
    assert(indices::picked(values.len() as int, p).contains(k));
}

/// The sum of counts.
pub open spec fn counted_total(s: Seq<FacetCount>) -> int
    decreases s.len(),
{
    if s.len() == 0 {
        0
    } else {
        counted_total(s.drop_last()) + s.last().count
    }
}

proof fn lemma_tally_total(values: Seq<Seq<char>>, s: Seq<FacetCount>, n: int)
    requires
        tallies(values, s),
        0 <= n <= s.len(),
    ensures
        counted_total(s.take(n)) == indices::count_where(
            values.len() as int,
            |i: int| has_count(s.take(n), values[i]),
        ),
    decreases n,
{
    let either = |i: int| has_count(s.take(n), values[i]);
    let len = values.len() as int;
    if n == 0 {
        indices::none_picked(len, either);
        indices::picks_are_counted(len, either);
    } else {
        lemma_tally_total(values, s, n - 1);
        let p = |i: int| has_count(s.take(n - 1), values[i]);
        let q = |i: int| values[i] == s[n - 1].value@;
        assert(s.take(n).drop_last() =~= s.take(n - 1));
        assert forall|i: int| 0 <= i < len implies #[trigger] either(i) == (p(i) || q(i)) by {
            if either(i) {
                let k = choose|k: int| 0 <= k < s.take(n).len() && (#[trigger] s.take(n)[k]).value@
                    == values[i];
                if k < n - 1 {
                    assert(s.take(n - 1)[k].value@ == values[i]);
                }
            }
            if p(i) {
                let k = choose|k: int|
                    0 <= k < s.take(n - 1).len() && (#[trigger] s.take(n - 1)[k]).value@
                        == values[i];
                assert(s.take(n)[k].value@ == values[i]);
            }
            if q(i) {
                assert(s.take(n)[n - 1].value@ == values[i]);
            }
        }
        assert forall|i: int| 0 <= i < len implies !(#[trigger] p(i) && q(i)) by {
            if p(i) && q(i) {
                let k = choose|k: int|
                    0 <= k < s.take(n - 1).len() && (#[trigger] s.take(n - 1)[k]).value@
                        == values[i];
                assert(s[k].value@ != s[n - 1].value@);
            }
        }
        indices::counts_add_up(len, p, q, either);
        indices::picks_are_counted(len, q);
        let named = |i: int| values[i] == s[n - 1].value@;
        assert(occurrences(values, s[n - 1].value@) == indices::picked(len, named).len());
        indices::picks_are_counted(len, named);
        indices::same_counts(len, named, q);
    }
}

/// The counts of a key, unless they are cut, sum to the number of candidates
/// whose value is of the key's declared type.
pub proof fn facet_counts_sum_to_the_candidates(
    points: Seq<Vec<(String, StoredValue)>>,
    key: Seq<char>,
    idx_type: Seq<char>,
    max_values: nat,
    r: Seq<FacetCount>,
)
    requires
        top_counts(facet_keys(points, key, idx_type, points.len() as int), max_values, r),
        r.len() < max_values,
    ensures
        counted_total(r) == indices::count_where(
            points.len() as int,
            |i: int|
                metadata_field(points[i]@, key) is Some && has_declared_type(
                    metadata_field(points[i]@, key)->0,
                    idx_type,
                ),
        ),
{
    let values = facet_keys(points, key, idx_type, points.len() as int);
    let s = choose|s: Seq<FacetCount>|
        {
            &&& #[trigger] ranking::in_rank_order(s)
            &&& tallies(values, s)
            &&& r == s.take(
                if max_values < s.len() {
                    max_values as int
                } else {
                    s.len() as int
                },
            )
        };
    assert(r =~= s);
    assert(s.take(s.len() as int) =~= s);
    lemma_tally_total(values, s, s.len() as int);
    let listed = |i: int| has_count(s.take(s.len() as int), values[i]);
    assert forall|i: int| 0 <= i < values.len() implies #[trigger] listed(i) by {
        assert(has_count(s, values[i]));
    }
    indices::all_are_counted(values.len() as int, listed);
    lemma_key_occurrences(points, key, idx_type, points.len() as int, Seq::empty());
    let counted = |i: int| candidate_key(points[i]@, key, idx_type) is Some;
    let typed = |i: int|
        metadata_field(points[i]@, key) is Some && has_declared_type(
            metadata_field(points[i]@, key)->0,
            idx_type,
        );
    assert forall|i: int| 0 <= i < points.len() implies #[trigger] counted(i) == typed(i) by {
        if let Some(v) = metadata_field(points[i]@, key) {
            values_of_the_declared_type_are_counted(v, idx_type);
        }
    }
    indices::same_counts(points.len() as int, counted, typed);
}

/// The value that a candidate is counted by is what stands under the key in its
/// metadata.
pub proof fn candidates_are_counted_by_their_metadata(
    payload: Seq<(String, StoredValue)>,
    m: int,
    meta: Seq<(String, StoredValue)>,
    k: int,
    key: Seq<char>,
)
    requires
        0 <= m < payload.len(),
        payload[m].0@ == "metadata"@,
        payload[m].1 is Struct,
        payload[m].1->Struct_0@ == meta,
        forall|i: int| 0 <= i < payload.len() && i != m ==> (#[trigger] payload[i]).0@ != "metadata"@,
        0 <= k < meta.len(),
        meta[k].0@ == key,
        forall|i: int| 0 <= i < meta.len() && i != k ==> (#[trigger] meta[i]).0@ != key,
    ensures
        metadata_field(payload, key) == Some(meta[k].1),
{
    payload::only_fields_are_found(payload, "metadata"@, m);
    payload::only_fields_are_found(meta, key, k);
}

/// Every declared key has one list of counts, by the type of its last
/// declaration.
pub proof fn every_declared_key_is_counted_once(fields: Seq<(String, String)>, i: int)
    requires
        0 <= i < fields.len(),
    ensures
        counted_fields(fields, fields.len() as int).contains(i) <==> forall|j: int|
            i < j < fields.len() ==> (#[trigger] fields[j]).0@ != fields[i].0@,
{
    let p = |i: int| !declared_again(fields, i);
    indices::picked_is_exact(fields.len() as int, p);
    assert(counted_fields(fields, fields.len() as int) == indices::picked(fields.len() as int, p));
    assert(p(i) == !declared_again(fields, i));
}

/// A value is counted under its text: a truth value under its word, a whole number
/// under its digits, and a text under itself.
pub proof fn values_are_counted_under_their_text(i: i64, d: Double, s: String, idx_type: Seq<char>)
    ensures
        facet_key(StoredValue::Bool(true), "boolean"@) == Some("true"@),
        facet_key(StoredValue::Bool(false), "boolean"@) == Some("false"@),
        facet_key(StoredValue::Integer(i, d), "integer"@) == Some(text::signed_decimal(i as int)),
        facet_key(StoredValue::Number(d), "integer"@) == Some(text::signed_decimal(truncated(d))),
        facet_key(StoredValue::Integer(i, d), "float"@) == Some(double_debug(d.bits)),
        facet_key(StoredValue::Number(d), "float"@) == Some(double_debug(d.bits)),
        facet_key(StoredValue::Text(s), "string"@) == Some(s@),
        facet_key(StoredValue::Text(s), "datetime"@) == Some(s@),
{
    reveal_strlit("boolean");
    reveal_strlit("integer");
    reveal_strlit("float");
    reveal_strlit("string");
    reveal_strlit("datetime");
    assert("boolean"@[0] != "integer"@[0]);
    assert("boolean"@.len() == 7 && "integer"@.len() == 7 && "float"@.len() == 5 && "string"@.len()
        == 6 && "datetime"@.len() == 8);
}

/// The whole part of a number: nothing below one, the number itself where it has
/// no fraction, the bounds of whole numbers beyond them, and the opposite for the
/// opposite number.
pub proof fn whole_parts_are_cut_off(d: Double, e: Double)
    ensures
        d.bits < 0x3ff0_0000_0000_0000 ==> truncated(d) == 0,
        d.bits == 0x3ff0_0000_0000_0000 ==> truncated(d) == 1,
        0x4330_0000_0000_0000 <= d.bits < 0x4340_0000_0000_0000 ==> truncated(d) == d.bits
            - 0x4330_0000_0000_0000 + 0x10_0000_0000_0000,
        0x43e0_0000_0000_0000 <= d.bits <= 0x7ff0_0000_0000_0000 ==> truncated(d)
            == 0x7fff_ffff_ffff_ffff,
        0x7ff0_0000_0000_0000 < d.bits < 0x8000_0000_0000_0000 ==> truncated(d) == 0,
        d.bits < 0x43e0_0000_0000_0000 && e.bits == d.bits + 0x8000_0000_0000_0000 ==> truncated(e)
            == -truncated(d),
        0xc3e0_0000_0000_0000 <= d.bits <= 0xfff0_0000_0000_0000 ==> truncated(d)
            == -0x8000_0000_0000_0000,
{
    vstd::arithmetic::power2::lemma2_to64();
    vstd::arithmetic::power2::lemma2_to64_rest();
    if 0x4330_0000_0000_0000 <= d.bits < 0x4340_0000_0000_0000 {
        assert(d.magnitude() / 0x10_0000_0000_0000 == 1075);
        assert(vstd::arithmetic::power2::pow2(0) == 1);
        let m = d.magnitude() % 0x10_0000_0000_0000 + 0x10_0000_0000_0000;
        assert(m * 1 == m) by (nonlinear_arith);
    }
    if d.bits == 0x3ff0_0000_0000_0000 {
        assert(d.magnitude() / 0x10_0000_0000_0000 == 1023);
        let q: nat = vstd::arithmetic::power2::pow2(52);
        let m: nat = 0x10_0000_0000_0000;
        assert(d.magnitude() % 0x10_0000_0000_0000 == 0);
        assert(m / q == 1) by (nonlinear_arith)
            requires
                m == 0x10_0000_0000_0000,
                q == 0x10_0000_0000_0000,
        ;
    }
}

/// The more frequent value comes first, and of equally frequent ones the lower.
pub proof fn frequent_values_come_first(r: Seq<FacetCount>, i: int, j: int)
    requires
        ranking::in_rank_order(r),
        0 <= i < j < r.len(),
    ensures
        r[i].count >= r[j].count,
        r[i].count == r[j].count ==> !text::text_precedes(r[j].value@, r[i].value@),
{
    assert(!r[j].precedes(&r[i]));
}

/// The whole part of a number from one on lies below the number by less than one:
/// the number is its significand over a power of two.
pub proof fn whole_parts_lie_just_below(d: Double, e: int, m: int)
    requires
        0x10_0000_0000_0000 <= m < 0x20_0000_0000_0000,
        1023 <= e < 1075,
        d.bits == e * 0x10_0000_0000_0000 + (m - 0x10_0000_0000_0000),
    ensures
        truncated(d) * vstd::arithmetic::power2::pow2((1075 - e) as nat) <= m,
        m < (truncated(d) + 1) * vstd::arithmetic::power2::pow2((1075 - e) as nat),
{
    let q: int = vstd::arithmetic::power2::pow2((1075 - e) as nat) as int;
    vstd::arithmetic::power2::lemma_pow2_pos((1075 - e) as nat);
    assert(d.magnitude() / 0x10_0000_0000_0000 == e);
    assert(d.magnitude() % 0x10_0000_0000_0000 == m - 0x10_0000_0000_0000);
    let t: int = m / q;
    assert(truncated(d) == t);
    assert(t * q <= m < (t + 1) * q) by (nonlinear_arith)
        requires
            q > 0,
            t == m / q,
    ;
}

} // verus!
