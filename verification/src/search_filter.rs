//! The filter that a search hands to the database, made of the query's tags
//! and of its metadata filter.

use vstd::prelude::*;
use crate::datetime_parse;
use crate::datetime_parse::{parse_datetime_as_utc, Timestamp};
use crate::encoder;
use crate::filters;
use crate::filters::FilterView;
use crate::json;
use crate::json::{Double, Json, JsonNumber, JsonValue};
use crate::models::{MetadataFilter, MetadataIndex, SearchQuerySettings};
use crate::search_join;
use crate::text;
use crate::text::{copy_texts, same_text, text3};

verus! {

/// A bound of a range.
#[derive(Debug, Clone, Copy, PartialEq, Eq, Structural)]
pub enum RangeOp {
    Gt,
    Gte,
    Lt,
    Lte,
}

/// A condition on a stored document: on the value at a path of its payload, or
/// a combination of conditions.
#[derive(Debug, PartialEq, Eq)]
pub enum Condition {
    Keyword { key: String, text: String },
    Keywords { key: String, texts: Vec<String> },
    Boolean { key: String, flag: bool },
    Integer { key: String, number: i64 },
    Range { key: String, op: RangeOp, bound: Double },
    /// A range of instants; without an instant it has no bound.
    DatetimeRange { key: String, op: RangeOp, instant: Option<Timestamp> },
    Nested { must: Vec<Condition>, should: Vec<Condition>, must_not: Vec<Condition> },
}

/// A combination of conditions: all that must hold, some that should, none
/// that must not.
#[derive(Debug, PartialEq, Eq)]
pub struct StoreFilter {
    pub must: Vec<Condition>,
    pub should: Vec<Condition>,
    pub must_not: Vec<Condition>,
}

/// What a `Condition` says.
#[verifier::ext_equal]
pub ghost enum CondView {
    Keyword(Seq<char>, Seq<char>),
    Keywords(Seq<char>, Seq<Seq<char>>),
    Boolean(Seq<char>, bool),
    Integer(Seq<char>, i64),
    Range(Seq<char>, RangeOp, Double),
    DatetimeRange(Seq<char>, RangeOp, Option<Timestamp>),
    Nested(Seq<CondView>, Seq<CondView>, Seq<CondView>),
}

impl Condition {
    pub open spec fn view(&self) -> CondView
        decreases self,
    {
        match self {
            Condition::Keyword { key, text } => CondView::Keyword(key@, text@),
            Condition::Keywords { key, texts } => CondView::Keywords(key@, text::views(texts@)),
            Condition::Boolean { key, flag } => CondView::Boolean(key@, *flag),
            Condition::Integer { key, number } => CondView::Integer(key@, *number),
            Condition::Range { key, op, bound } => CondView::Range(key@, *op, *bound),
            Condition::DatetimeRange { key, op, instant } => CondView::DatetimeRange(
                key@,
                *op,
                *instant,
            ),
            Condition::Nested { must, should, must_not } => CondView::Nested(
                Seq::new(
                    must@.len(),
                    |i: int|
                        if 0 <= i < must@.len() {
                            must@[i].view()
                        } else {
                            CondView::Boolean(Seq::empty(), false)
                        },
                ),
                Seq::new(
                    should@.len(),
                    |i: int|
                        if 0 <= i < should@.len() {
                            should@[i].view()
                        } else {
                            CondView::Boolean(Seq::empty(), false)
                        },
                ),
                Seq::new(
                    must_not@.len(),
                    |i: int|
                        if 0 <= i < must_not@.len() {
                            must_not@[i].view()
                        } else {
                            CondView::Boolean(Seq::empty(), false)
                        },
                ),
            ),
        }
    }

    /// What a combination says, in terms of its parts.
    pub proof fn nested_view(must: Vec<Condition>, should: Vec<Condition>, must_not: Vec<Condition>)
        ensures
            (Condition::Nested { must, should, must_not })@ == CondView::Nested(
                conditions(must@),
                conditions(should@),
                conditions(must_not@),
            ),
    {
        let v = (Condition::Nested { must, should, must_not })@;
        assert(v->Nested_0 =~= conditions(must@));
        assert(v->Nested_1 =~= conditions(should@));
        assert(v->Nested_2 =~= conditions(must_not@));
    }
}

/// What a list of conditions says.
pub open spec fn conditions(v: Seq<Condition>) -> Seq<CondView> {
    Seq::new(v.len(), |i: int| v[i]@)
}

impl StoreFilter {
    /// What the filter says, as a combination.
    pub open spec fn view(&self) -> CondView {
        CondView::Nested(
            conditions(self.must@),
            conditions(self.should@),
            conditions(self.must_not@),
        )
    }
}

/// What an optional filter says.
pub open spec fn opt_store_filter(f: Option<StoreFilter>) -> Option<CondView> {
    match f {
        Some(f) => Some(f@),
        None => None,
    }
}

/// The bound that an operator names.
pub open spec fn range_op(op: Seq<char>) -> Option<RangeOp> {
    if op == "gt"@ {
        Some(RangeOp::Gt)
    } else if op == "gte"@ {
        Some(RangeOp::Gte)
    } else if op == "lt"@ {
        Some(RangeOp::Lt)
    } else if op == "lte"@ {
        Some(RangeOp::Lte)
    } else {
        None
    }
}

fn read_range_op(op: &str) -> (r: Option<RangeOp>)
    ensures
        r == range_op(op@),
{
    if same_text(op, "gt") {
        Some(RangeOp::Gt)
    } else if same_text(op, "gte") {
        Some(RangeOp::Gte)
    } else if same_text(op, "lt") {
        Some(RangeOp::Lt)
    } else if same_text(op, "lte") {
        Some(RangeOp::Lte)
    } else {
        None
    }
}

/// The instant that a filter's value names.
pub open spec fn filter_instant(value: Option<Json>) -> Option<Timestamp> {
    match value {
        Some(Json::Text(s)) => match datetime_parse::filter_datetime(s) {
            Ok(t) => Some(t),
            Err(_) => None,
        },
        _ => None,
    }
}

/// The number that a filter's value is, or zero.
pub open spec fn filter_number(value: Option<Json>) -> Double {
    match value {
        Some(Json::Number(n)) => n.nearest(),
        _ => Double::zero(),
    }
}

/// Whether the key is declared to hold datetimes.
pub open spec fn is_datetime_key(indexes: Seq<MetadataIndex>, key: Seq<char>) -> bool {
    exists|i: int|
        0 <= i < indexes.len() && (#[trigger] indexes[i]).key@ == key && indexes[i].value_type@
            == "datetime"@
}

/// Where the value of a metadata key stands in a document's payload.
pub open spec fn value_path(key: Seq<char>) -> Seq<char> {
    "metadata."@ + key + ".value"@
}

/// The condition that a comparison stands for, if it stands for one.
pub open spec fn comparison_condition(
    key: Seq<char>,
    op: Seq<char>,
    value: Option<Json>,
    indexes: Seq<MetadataIndex>,
) -> Option<CondView> {
    let path = value_path(key);
    if op == "eq"@ {
        match value {
            Some(Json::Text(s)) => Some(CondView::Keyword(path, s)),
            Some(Json::Bool(b)) => Some(CondView::Boolean(path, b)),
            Some(Json::Number(n)) => Some(
                CondView::Integer(
                    path,
                    match n.as_i64_spec() {
                        Some(i) => i,
                        None => 0,
                    },
                ),
            ),
            _ => None,
        }
    } else {
        match range_op(op) {
            None => None,
            Some(o) => if is_datetime_key(indexes, key) {
                Some(CondView::DatetimeRange(path, o, filter_instant(value)))
            } else {
                Some(CondView::Range(path, o, filter_number(value)))
            },
        }
    }
}

/// The condition that a filter stands for, if it stands for one: a comparison,
/// or the combination of the conditions of its parts.
pub open spec fn node_condition(f: FilterView, indexes: Seq<MetadataIndex>) -> Option<CondView>
    decreases f,
{
    match f.key {
        Some(key) => comparison_condition(
            key,
            match f.op {
                Some(op) => op,
                None => Seq::empty(),
            },
            f.value,
            indexes,
        ),
        None => {
            let must = match f.and_ {
                Some(fs) => node_conditions(fs, indexes),
                None => Seq::empty(),
            };
            let should = match f.or_ {
                Some(fs) => node_conditions(fs, indexes),
                None => Seq::empty(),
            };
            let must_not = match f.not_ {
                Some(g) => match node_condition(*g, indexes) {
                    Some(c) => seq![c],
                    None => Seq::empty(),
                },
                None => Seq::empty(),
            };
            if must.len() == 0 && should.len() == 0 && must_not.len() == 0 {
                None
            } else {
                Some(CondView::Nested(must, should, must_not))
            }
        },
    }
}

/// The conditions that filters stand for, without the filters that stand for
/// none.
pub open spec fn node_conditions(fs: Seq<FilterView>, indexes: Seq<MetadataIndex>) -> Seq<CondView>
    decreases fs,
{
    if fs.len() == 0 {
        Seq::empty()
    } else {
        let rest = node_conditions(fs.drop_last(), indexes);
        match node_condition(fs.last(), indexes) {
            Some(c) => rest.push(c),
            None => rest,
        }
    }
}

fn datetime_key(indexes: &Option<Vec<MetadataIndex>>, key: &str) -> (r: bool)
    ensures
        r == is_datetime_key(index_list(*indexes), key@),
{
    match indexes {
        None => false,
        Some(list) => {
            let mut i: usize = 0;
            while i < list.len()
                invariant
                    i <= list@.len(),
                    index_list(*indexes) == list@,
                    forall|k: int|
                        0 <= k < i ==> !((#[trigger] list@[k]).key@ == key@
                            && list@[k].value_type@ == "datetime"@),
                decreases list.len() - i,
            {
                if same_text(list[i].key.as_str(), key) && same_text(
                    list[i].value_type.as_str(),
                    "datetime",
                ) {
                    assert(list@[i as int].key@ == key@);
                    return true;
                }
                i += 1;
            }
            false
        },
    }
}

/// The metadata indexes, if any are declared.
pub open spec fn index_list(indexes: Option<Vec<MetadataIndex>>) -> Seq<MetadataIndex> {
    match indexes {
        Some(list) => list@,
        None => Seq::empty(),
    }
}

/// What an optional condition says.
pub open spec fn opt_condition(c: Option<Condition>) -> Option<CondView> {
    match c {
        Some(c) => Some(c@),
        None => None,
    }
}

fn convert_comparison(
    key: &str,
    op: &str,
    value: &Option<JsonValue>,
    indexes: &Option<Vec<MetadataIndex>>,
) -> (r: Option<Condition>)
    ensures
        opt_condition(r) == comparison_condition(
            key@,
            op@,
            json::opt_json(*value),
            index_list(*indexes),
        ),
{
    let path = text3("metadata.", key, ".value");
    if same_text(op, "eq") {
        return match value {
            Some(JsonValue::Text(s)) => Some(
                Condition::Keyword { key: path, text: s.as_str().to_owned() },
            ),
            Some(JsonValue::Bool(b)) => Some(Condition::Boolean { key: path, flag: *b }),
            Some(JsonValue::Number(n)) => {
                let number: i64 = match n.as_i64() {
                    Some(i) => i,
                    None => 0,
                };
                Some(Condition::Integer { key: path, number })
            },
            _ => None,
        };
    }
    let range = match read_range_op(op) {
        Some(range) => range,
        None => {
            return None;
        },
    };
    if datetime_key(indexes, key) {
        let instant = match value {
            Some(JsonValue::Text(s)) => {
                match parse_datetime_as_utc(s.as_str()) {
                    Ok(t) => Some(t),
                    Err(_) => None,
                }
            },
            _ => None,
        };
        Some(Condition::DatetimeRange { key: path, op: range, instant })
    } else {
        let bound = match value {
            Some(JsonValue::Number(n)) => n.as_double(),
            _ => Double { bits: 0 },
        };
        Some(Condition::Range { key: path, op: range, bound })
    }
}

fn convert_metadata_nodes(
    nodes: &Vec<MetadataFilter>,
    indexes: &Option<Vec<MetadataIndex>>,
) -> (r: Vec<Condition>)
    ensures
        conditions(r@) == node_conditions(filters::filter_views(nodes@), index_list(*indexes)),
    decreases nodes,
{
    let mut out: Vec<Condition> = Vec::new();
    let ghost all = filters::filter_views(nodes@);
    let mut i: usize = 0;
    assert(conditions(out@) =~= Seq::empty());
    assert(all.take(0) =~= Seq::empty());
    while i < nodes.len()
        invariant
            i <= nodes@.len(),
            all == filters::filter_views(nodes@),
            conditions(out@) == node_conditions(all.take(i as int), index_list(*indexes)),
        decreases nodes.len() - i,
    {
        assert(all.take(i as int + 1).drop_last() =~= all.take(i as int));
        assert(all.take(i as int + 1).last() == nodes@[i as int]@);
        assert(decreases_to!(nodes => nodes@[i as int]));
        if let Some(c) = convert_metadata_node(&nodes[i], indexes) {
            let ghost before = conditions(out@);
            let ghost view = c@;
            out.push(c);
            assert(conditions(out@) =~= before.push(view));
        }
        i += 1;
    }
    assert(all.take(i as int) =~= all);
    out
}

/// The condition that a filter stands for.
pub fn convert_metadata_node(
    node: &MetadataFilter,
    indexes: &Option<Vec<MetadataIndex>>,
) -> (r: Option<Condition>)
    ensures
        opt_condition(r) == node_condition(node@, index_list(*indexes)),
    decreases node,
{
    proof {
        node.view_parts();
    }
    if let Some(key) = &node.key {
        let empty = String::new();
        assert(empty@ =~= Seq::<char>::empty());
        let op = match &node.op {
            Some(o) => o.as_str(),
            None => empty.as_str(),
        };
        return convert_comparison(key.as_str(), op, &node.value, indexes);
    }
    let must = match &node.and_ {
        Some(nodes) => convert_metadata_nodes(nodes, indexes),
        None => Vec::new(),
    };
    let should = match &node.or_ {
        Some(nodes) => convert_metadata_nodes(nodes, indexes),
        None => Vec::new(),
    };
    let mut must_not: Vec<Condition> = Vec::new();
    if let Some(n) = &node.not_ {
        if let Some(c) = convert_metadata_node(n, indexes) {
            must_not.push(c);
        }
    }
    proof {
        if node.and_ is None {
            assert(conditions(must@) =~= Seq::empty());
        }
        if node.or_ is None {
            assert(conditions(should@) =~= Seq::empty());
        }
        assert(conditions(must_not@) =~= (match node@.not_ {
            Some(g) => match node_condition(*g, index_list(*indexes)) {
                Some(c) => seq![c],
                None => Seq::empty(),
            },
            None => Seq::empty(),
        }));
        Condition::nested_view(must, should, must_not);
        assert(conditions(must@).len() == must@.len());
        assert(conditions(should@).len() == should@.len());
    }
    if must.len() == 0 && should.len() == 0 && must_not.len() == 0 {
        return None;
    }
    Some(Condition::Nested { must, should, must_not })
}

/// A condition as a filter: a combination is one already.
pub open spec fn as_filter(c: CondView) -> CondView {
    match c {
        CondView::Nested(_, _, _) => c,
        _ => CondView::Nested(seq![c], Seq::empty(), Seq::empty()),
    }
}

/// The filter that a metadata filter stands for.
pub open spec fn metadata_condition(f: FilterView, indexes: Seq<MetadataIndex>) -> Option<CondView> {
    match node_condition(f, indexes) {
        Some(c) => Some(as_filter(c)),
        None => None,
    }
}

/// Turns a metadata filter into the database's filter.
pub fn convert_metadata_filter(
    node: &MetadataFilter,
    indexes: &Option<Vec<MetadataIndex>>,
) -> (r: Option<StoreFilter>)
    ensures
        opt_store_filter(r) == metadata_condition(node@, index_list(*indexes)),
{
    match convert_metadata_node(node, indexes) {
        None => None,
        Some(Condition::Nested { must, should, must_not }) => {
            proof {
                Condition::nested_view(must, should, must_not);
            }
            Some(StoreFilter { must, should, must_not })
        },
        Some(other) => {
            let ghost view = other@;
            let f = StoreFilter { must: vec![other], should: Vec::new(), must_not: Vec::new() };
            assert(conditions(f.must@) =~= seq![view]);
            assert(conditions(f.should@) =~= Seq::empty());
            assert(conditions(f.must_not@) =~= Seq::empty());
            Some(f)
        },
    }
}

/// The conditions on a document's tags: on each of them if all must match, or
/// on some of them.
pub open spec fn tag_conditions(tags: Seq<Seq<char>>, match_all: bool) -> Seq<CondView> {
    if tags.len() == 0 {
        Seq::empty()
    } else if match_all {
        Seq::new(tags.len(), |i: int| CondView::Keyword("tags"@, tags[i]))
    } else {
        seq![CondView::Keywords("tags"@, tags)]
    }
}

/// The filter on a document's tags.
pub open spec fn tags_filter(tags: Option<Vec<String>>, match_all: bool) -> Option<CondView> {
    match tags {
        None => None,
        Some(t) => if t@.len() == 0 {
            None
        } else {
            Some(
                CondView::Nested(
                    tag_conditions(text::views(t@), match_all),
                    Seq::empty(),
                    Seq::empty(),
                ),
            )
        },
    }
}

/// The filter of a search.
pub open spec fn search_filter(
    settings: SearchQuerySettings,
    indexes: Seq<MetadataIndex>,
) -> Option<CondView> {
    let tags = tags_filter(settings.document_tags, settings.document_tags_match_all);
    let metadata = match settings.metadata_filter {
        Some(f) => metadata_condition(f@, indexes),
        None => None,
    };
    match (tags, metadata) {
        (Some(t), Some(m)) => Some(CondView::Nested(seq![t, m], Seq::empty(), Seq::empty())),
        (Some(t), None) => Some(t),
        (None, Some(m)) => Some(m),
        (None, None) => None,
    }
}

fn build_tags_filter(tags: &Option<Vec<String>>, match_all: bool) -> (r: Option<StoreFilter>)
    ensures
        opt_store_filter(r) == tags_filter(*tags, match_all),
{
    let list = match tags {
        Some(list) => list,
        None => {
            return None;
        },
    };
    if list.len() == 0 {
        return None;
    }
    let mut must: Vec<Condition> = Vec::new();
    if match_all {
        let mut i: usize = 0;
        while i < list.len()
            invariant
                i <= list@.len(),
                must@.len() == i,
                forall|k: int|
                    0 <= k < i ==> (#[trigger] must@[k])@ == CondView::Keyword(
                        "tags"@,
                        list@[k]@,
                    ),
            decreases list.len() - i,
        {
            must.push(
                Condition::Keyword { key: "tags".to_owned(), text: list[i].as_str().to_owned() },
            );
            i += 1;
        }
    } else {
        must.push(Condition::Keywords { key: "tags".to_owned(), texts: copy_texts(list) });
    }
    let f = StoreFilter { must, should: Vec::new(), must_not: Vec::new() };
    assert(conditions(f.must@) =~= tag_conditions(text::views(list@), match_all));
    assert(conditions(f.should@) =~= Seq::empty());
    assert(conditions(f.must_not@) =~= Seq::empty());
    Some(f)
}

/// The filter of a search: on the query's tags and its metadata filter.
pub fn build_search_filter(
    settings: &SearchQuerySettings,
    indexes: &Option<Vec<MetadataIndex>>,
) -> (r: Option<StoreFilter>)
    ensures
        opt_store_filter(r) == search_filter(*settings, index_list(*indexes)),
{
    let tags = build_tags_filter(&settings.document_tags, settings.document_tags_match_all);
    let metadata = match &settings.metadata_filter {
        Some(f) => convert_metadata_filter(f, indexes),
        None => None,
    };
    match (tags, metadata) {
        (Some(t), Some(m)) => {
            let ghost tv = t@;
            let ghost mv = m@;
            proof {
                Condition::nested_view(t.must, t.should, t.must_not);
                Condition::nested_view(m.must, m.should, m.must_not);
            }
            let must = vec![
                Condition::Nested { must: t.must, should: t.should, must_not: t.must_not },
                Condition::Nested { must: m.must, should: m.should, must_not: m.must_not },
            ];
            let f = StoreFilter { must, should: Vec::new(), must_not: Vec::new() };
            assert(conditions(f.must@) =~= seq![tv, mv]);
            assert(conditions(f.should@) =~= Seq::empty());
            assert(conditions(f.must_not@) =~= Seq::empty());
            Some(f)
        },
        (Some(t), None) => Some(t),
        (None, Some(m)) => Some(m),
        (None, None) => None,
    }
}

/// A comparison that a collection accepts, for equality or with a bound, is
/// never left out of the search's filter, and one of datetimes has its bound.
pub proof fn accepted_comparisons_are_kept(
    key: Seq<char>,
    expected: Seq<char>,
    op: Seq<char>,
    value: Option<Json>,
    indexes: Seq<MetadataIndex>,
)
    requires
        encoder::comparison_error(key, expected, op, value) is None,
        op == "eq"@ || range_op(op) is Some,
    ensures
        comparison_condition(key, op, value, indexes) is Some,
        expected == "datetime"@ && op != "eq"@ && is_datetime_key(indexes, key) ==> (
        comparison_condition(key, op, value, indexes) matches Some(
            CondView::DatetimeRange(_, _, bound),
        ) && bound is Some),
{
    if let Some(Json::Text(s)) = value {
        datetime_parse::filters_read_what_metadata_accepts(s);
    }
    reveal_strlit("string");
    reveal_strlit("integer");
    reveal_strlit("float");
    reveal_strlit("boolean");
    reveal_strlit("datetime");
    reveal_strlit("is_null");
    reveal_strlit("eq");
    reveal_strlit("gt");
    reveal_strlit("gte");
    reveal_strlit("lt");
    reveal_strlit("lte");
    assert("string"@.len() == 6);
    assert("integer"@.len() == 7);
    assert("float"@.len() == 5);
    assert("boolean"@.len() == 7);
    assert("datetime"@.len() == 8);
    assert("is_null"@.len() == 7);
    assert("eq"@.len() == 2);
    assert("gt"@.len() == 2);
    assert("gte"@.len() == 3);
    assert("lt"@.len() == 2);
    assert("lte"@.len() == 3);
}

/// Without tags and without a metadata filter a search has no filter; with
/// tags alone the filter asks for nothing else.
pub proof fn unfiltered_searches_have_no_filter(
    settings: SearchQuerySettings,
    indexes: Seq<MetadataIndex>,
)
    requires
        settings.metadata_filter is None,
    ensures
        search_filter(settings, indexes) == tags_filter(
            settings.document_tags,
            settings.document_tags_match_all,
        ),
        settings.document_tags is None ==> search_filter(settings, indexes) is None,
{
}

/// Whether a number is on the right side of a bound.
pub open spec fn within(op: RangeOp, x: Double, bound: Double) -> bool {
    match op {
        RangeOp::Gt => bound.below(x),
        RangeOp::Gte => bound.at_most(x),
        RangeOp::Lt => x.below(bound),
        RangeOp::Lte => x.at_most(bound),
    }
}

/// Whether an instant is on the right side of a bound.
pub open spec fn within_instants(op: RangeOp, t: Timestamp, bound: Timestamp) -> bool {
    match op {
        RangeOp::Gt => bound.precedes(t),
        RangeOp::Gte => !t.precedes(bound),
        RangeOp::Lt => t.precedes(bound),
        RangeOp::Lte => !bound.precedes(t),
    }
}

/// Whether a stored value is a text, or a list with the text in it.
pub open spec fn has_keyword(v: Json, t: Seq<char>) -> bool {
    match v {
        Json::Text(s) => s == t,
        Json::Array(items) => exists|i: int| 0 <= i < items.len() && #[trigger] items[i] == Json::Text(t),
        _ => false,
    }
}

/// Whether a condition holds of a document, of which `at` tells what is stored
/// at a path: of a combination all that must hold, some of those that should,
/// if there are any, and none that must not.
pub open spec fn holds(c: CondView, at: spec_fn(Seq<char>) -> Option<Json>) -> bool
    decreases c,
{
    match c {
        CondView::Keyword(path, t) => at(path) matches Some(v) && has_keyword(v, t),
        CondView::Keywords(path, ts) => at(path) matches Some(v) && exists|i: int|
            0 <= i < ts.len() && has_keyword(v, #[trigger] ts[i]),
        CondView::Boolean(path, b) => at(path) == Some(Json::Bool(b)),
        CondView::Integer(path, i) => at(path) matches Some(Json::Number(n)) && n.as_i64_spec()
            == Some(i),
        CondView::Range(path, op, bound) => at(path) matches Some(Json::Number(n)) && within(
            op,
            n.nearest(),
            bound,
        ),
        CondView::DatetimeRange(path, op, bound) => at(path) matches Some(Json::Text(s)) && (
        datetime_parse::filter_datetime(s) matches Ok(t) && (bound matches Some(b)
            ==> within_instants(op, t, b))),
        CondView::Nested(must, should, must_not) => {
            &&& all_hold(must, at)
            &&& should.len() == 0 || some_hold(should, at)
            &&& !some_hold(must_not, at)
        },
    }
}

/// Whether all of the conditions hold of a document.
pub open spec fn all_hold(cs: Seq<CondView>, at: spec_fn(Seq<char>) -> Option<Json>) -> bool
    decreases cs,
{
    cs.len() == 0 || (all_hold(cs.drop_last(), at) && holds(cs.last(), at))
}

/// Whether some of the conditions hold of a document.
pub open spec fn some_hold(cs: Seq<CondView>, at: spec_fn(Seq<char>) -> Option<Json>) -> bool
    decreases cs,
{
    cs.len() > 0 && (some_hold(cs.drop_last(), at) || holds(cs.last(), at))
}

proof fn lemma_each_holds(cs: Seq<CondView>, at: spec_fn(Seq<char>) -> Option<Json>)
    ensures
        all_hold(cs, at) <==> forall|i: int| 0 <= i < cs.len() ==> holds(#[trigger] cs[i], at),
        some_hold(cs, at) <==> exists|i: int| 0 <= i < cs.len() && holds(#[trigger] cs[i], at),
    decreases cs.len(),
{
    if cs.len() > 0 {
        let init = cs.drop_last();
        lemma_each_holds(init, at);
        assert(cs[cs.len() - 1] == cs.last());
        if all_hold(cs, at) {
            assert forall|i: int| 0 <= i < cs.len() implies holds(#[trigger] cs[i], at) by {
                if i < init.len() {
                    assert(init[i] == cs[i]);
                }
            }
        }
        if forall|i: int| 0 <= i < cs.len() ==> holds(#[trigger] cs[i], at) {
            assert forall|i: int| 0 <= i < init.len() implies holds(#[trigger] init[i], at) by {
                assert(init[i] == cs[i]);
            }
        }
        if some_hold(init, at) {
            let i = choose|i: int| 0 <= i < init.len() && holds(#[trigger] init[i], at);
            assert(holds(cs[i], at));
        }
        if exists|i: int| 0 <= i < cs.len() && holds(#[trigger] cs[i], at) {
            let i = choose|i: int| 0 <= i < cs.len() && holds(#[trigger] cs[i], at);
            if i < init.len() {
                assert(holds(init[i], at));
            }
        }
    }
}

proof fn lemma_nested_holds(
    must: Seq<CondView>,
    should: Seq<CondView>,
    must_not: Seq<CondView>,
    at: spec_fn(Seq<char>) -> Option<Json>,
)
    ensures
        holds(CondView::Nested(must, should, must_not), at) <==> {
            &&& forall|i: int| 0 <= i < must.len() ==> holds(#[trigger] must[i], at)
            &&& should.len() == 0 || exists|i: int|
                0 <= i < should.len() && holds(#[trigger] should[i], at)
            &&& forall|i: int| 0 <= i < must_not.len() ==> !holds(#[trigger] must_not[i], at)
        },
{
    lemma_each_holds(must, at);
    lemma_each_holds(should, at);
    lemma_each_holds(must_not, at);
}

/// A filter for the database holds of a document exactly if all its conditions
/// that must hold do, some that should, if there are any, and none that must
/// not.
pub proof fn store_filters_combine_their_conditions(
    f: StoreFilter,
    at: spec_fn(Seq<char>) -> Option<Json>,
)
    ensures
        holds(f@, at) <==> {
            &&& forall|i: int| 0 <= i < f.must@.len() ==> holds((#[trigger] f.must@[i])@, at)
            &&& f.should@.len() == 0 || exists|i: int|
                0 <= i < f.should@.len() && holds((#[trigger] f.should@[i])@, at)
            &&& forall|i: int|
                0 <= i < f.must_not@.len() ==> !holds((#[trigger] f.must_not@[i])@, at)
        },
{
    let (a, b, c) = (conditions(f.must@), conditions(f.should@), conditions(f.must_not@));
    lemma_nested_holds(a, b, c, at);
    assert(forall|i: int| 0 <= i < f.must@.len() ==> #[trigger] a[i] == f.must@[i]@);
    assert(forall|i: int| 0 <= i < f.should@.len() ==> #[trigger] b[i] == f.should@[i]@);
    assert(forall|i: int| 0 <= i < f.must_not@.len() ==> #[trigger] c[i] == f.must_not@[i]@);
    if holds(f@, at) {
        assert forall|i: int| 0 <= i < f.must@.len() implies holds((#[trigger] f.must@[i])@, at) by {
            assert(holds(a[i], at));
        }
        assert forall|i: int| 0 <= i < f.must_not@.len() implies !holds(
            (#[trigger] f.must_not@[i])@,
            at,
        ) by {
            assert(!holds(c[i], at));
        }
        if f.should@.len() > 0 {
            let i = choose|i: int| 0 <= i < b.len() && holds(#[trigger] b[i], at);
            assert(holds(f.should@[i]@, at));
        }
    } else if f.should@.len() > 0 && exists|i: int|
        0 <= i < f.should@.len() && holds((#[trigger] f.should@[i])@, at) {
        let i = choose|i: int| 0 <= i < f.should@.len() && holds((#[trigger] f.should@[i])@, at);
        assert(holds(b[i], at));
    }
}

/// What the simple conditions for the database ask of a document.
pub proof fn simple_conditions_say_their_parts(
    key: String,
    value: String,
    values: Vec<String>,
    flag: bool,
    number: i64,
    op: RangeOp,
    bound: Double,
    instant: Option<Timestamp>,
)
    ensures
        (Condition::Keyword { key, text: value })@ == CondView::Keyword(key@, value@),
        (Condition::Keywords { key, texts: values })@ == CondView::Keywords(
            key@,
            text::views(values@),
        ),
        (Condition::Boolean { key, flag })@ == CondView::Boolean(key@, flag),
        (Condition::Integer { key, number })@ == CondView::Integer(key@, number),
        (Condition::Range { key, op, bound })@ == CondView::Range(key@, op, bound),
        (Condition::DatetimeRange { key, op, instant })@ == CondView::DatetimeRange(
            key@,
            op,
            instant,
        ),
{
}

proof fn lemma_conditions_of_all(fs: Seq<FilterView>, indexes: Seq<MetadataIndex>)
    requires
        forall|i: int| 0 <= i < fs.len() ==> node_condition(#[trigger] fs[i], indexes) is Some,
    ensures
        node_conditions(fs, indexes).len() == fs.len(),
        forall|i: int|
            0 <= i < fs.len() ==> #[trigger] node_conditions(fs, indexes)[i] == node_condition(
                fs[i],
                indexes,
            )->0,
    decreases fs.len(),
{
    if fs.len() > 0 {
        let init = fs.drop_last();
        assert forall|i: int| 0 <= i < init.len() implies node_condition(
            #[trigger] init[i],
            indexes,
        ) is Some by {
            assert(init[i] == fs[i]);
        }
        lemma_conditions_of_all(init, indexes);
        assert(fs[fs.len() - 1] == fs.last());
        assert forall|i: int| 0 <= i < fs.len() implies #[trigger] node_conditions(fs, indexes)[i]
            == node_condition(fs[i], indexes)->0 by {
            if i < init.len() {
                assert(init[i] == fs[i]);
                assert(node_conditions(init, indexes)[i] == node_condition(init[i], indexes)->0);
            }
        }
    }
}

/// The condition of filters that are combined by or holds of a document exactly
/// if that of some of them does; combined by and, if those of all do; and that
/// of a negation, if that of the negated filter does not.
pub proof fn combined_filters_hold_as_they_say(
    fs: Seq<FilterView>,
    indexes: Seq<MetadataIndex>,
    at: spec_fn(Seq<char>) -> Option<Json>,
)
    requires
        fs.len() > 0,
        forall|i: int| 0 <= i < fs.len() ==> node_condition(#[trigger] fs[i], indexes) is Some,
    ensures
        node_condition(FilterView::any_of(fs), indexes) matches Some(c) && (holds(c, at)
            <==> exists|i: int|
            0 <= i < fs.len() && holds(node_condition(#[trigger] fs[i], indexes)->0, at)),
        node_condition(FilterView::all_of(fs), indexes) matches Some(c) && (holds(c, at)
            <==> forall|i: int|
            0 <= i < fs.len() ==> holds(node_condition(#[trigger] fs[i], indexes)->0, at)),
        node_condition(FilterView::negation(fs[0]), indexes) matches Some(c) && (holds(c, at)
            <==> !holds(node_condition(fs[0], indexes)->0, at)),
{
    lemma_conditions_of_all(fs, indexes);
    let cs = node_conditions(fs, indexes);
    let any = node_condition(FilterView::any_of(fs), indexes)->0;
    let all = node_condition(FilterView::all_of(fs), indexes)->0;
    assert(any == CondView::Nested(Seq::empty(), cs, Seq::empty()));
    assert(all == CondView::Nested(cs, Seq::empty(), Seq::empty()));
    lemma_nested_holds(Seq::empty(), cs, Seq::empty(), at);
    lemma_nested_holds(cs, Seq::empty(), Seq::empty(), at);
    if holds(any, at) {
        let i = choose|i: int| 0 <= i < cs.len() && holds(#[trigger] cs[i], at);
        assert(holds(node_condition(fs[i], indexes)->0, at));
    }
    if exists|i: int|
        0 <= i < fs.len() && holds(node_condition(#[trigger] fs[i], indexes)->0, at) {
        let i = choose|i: int|
            0 <= i < fs.len() && holds(node_condition(#[trigger] fs[i], indexes)->0, at);
        assert(holds(cs[i], at));
    }
    if holds(all, at) {
        assert forall|i: int| 0 <= i < fs.len() implies holds(
            node_condition(#[trigger] fs[i], indexes)->0,
            at,
        ) by {
            assert(holds(cs[i], at));
        }
    }
    if forall|i: int| 0 <= i < fs.len() ==> holds(node_condition(#[trigger] fs[i], indexes)->0, at) {
        assert forall|i: int| 0 <= i < cs.len() implies holds(#[trigger] cs[i], at) by {
            assert(holds(node_condition(fs[i], indexes)->0, at));
        }
        assert(holds(all, at));
    }
    let c = node_condition(fs[0], indexes)->0;
    let not = node_condition(FilterView::negation(fs[0]), indexes)->0;
    assert(not == CondView::Nested(Seq::empty(), Seq::empty(), seq![c]));
    lemma_nested_holds(Seq::empty(), Seq::empty(), seq![c], at);
    if holds(not, at) {
        assert(!holds(seq![c][0], at));
    }
}

/// Whether a number is one of JSON: negative if it is held as such, and not
/// NaN.
pub open spec fn is_json_number(n: JsonNumber) -> bool {
    !n.nearest().is_nan() && (n matches JsonNumber::Negative(i, _) ==> i < 0)
}

/// Whether a filter is made of nothing but equalities with texts, truth values
/// and integers, and of bounds of numbers, combined by and, or and not.
pub open spec fn is_plain(f: FilterView, indexes: Seq<MetadataIndex>) -> bool
    decreases f,
{
    match f.key {
        Some(key) => match (f.op, f.value) {
            (Some(op), Some(Json::Text(_))) => op == "eq"@,
            (Some(op), Some(Json::Bool(_))) => op == "eq"@,
            (Some(op), Some(Json::Number(n))) => is_json_number(n) && ((op == "eq"@
                && n.as_i64_spec() is Some) || ((op == "gt"@ || op == "gte"@ || op == "lt"@ || op
                == "lte"@) && !is_datetime_key(indexes, key))),
            _ => false,
        },
        None => match (f.and_, f.or_, f.not_) {
            (Some(fs), None, None) => fs.len() > 0 && forall|i: int|
                0 <= i < fs.len() ==> is_plain(#[trigger] fs[i], indexes),
            (None, Some(fs), None) => fs.len() > 0 && forall|i: int|
                0 <= i < fs.len() ==> is_plain(#[trigger] fs[i], indexes),
            (None, None, Some(g)) => is_plain(*g, indexes),
            _ => false,
        },
    }
}

proof fn lemma_operators_differ()
    ensures
        "eq"@ != "neq"@,
        "eq"@ != "gt"@,
        "eq"@ != "gte"@,
        "eq"@ != "lt"@,
        "eq"@ != "lte"@,
        "neq"@ != "gt"@,
        "neq"@ != "gte"@,
        "neq"@ != "lt"@,
        "neq"@ != "lte"@,
        "gt"@ != "gte"@,
        "gt"@ != "lt"@,
        "gt"@ != "lte"@,
        "gte"@ != "lt"@,
        "gte"@ != "lte"@,
        "lt"@ != "lte"@,
{
    reveal_strlit("eq");
    reveal_strlit("neq");
    reveal_strlit("gt");
    reveal_strlit("gte");
    reveal_strlit("lt");
    reveal_strlit("lte");
    assert("eq"@.len() == 2 && "gt"@.len() == 2 && "lt"@.len() == 2);
    assert("neq"@.len() == 3 && "gte"@.len() == 3 && "lte"@.len() == 3);
    assert("eq"@[0] == 'e' && "gt"@[0] == 'g' && "lt"@[0] == 'l');
    assert("neq"@[0] == 'n' && "gte"@[0] == 'g' && "lte"@[0] == 'l');
}

/// What the metadata of a document hold under a key.
pub open spec fn metadata_value(
    metadata: Option<Seq<(Seq<char>, Json)>>,
    key: Seq<char>,
) -> Option<Json> {
    match metadata {
        Some(m) => json::member(m, key),
        None => None,
    }
}

/// The database's filter selects the documents whose metadata satisfy the
/// filter: it holds of a document with the metadata at `metadata.<key>.value`
/// exactly if the metadata, in memory, satisfy the filter.
pub proof fn the_database_selects_what_satisfies_the_filter(
    f: FilterView,
    indexes: Seq<MetadataIndex>,
    metadata: Option<Seq<(Seq<char>, Json)>>,
    at: spec_fn(Seq<char>) -> Option<Json>,
)
    requires
        is_plain(f, indexes),
        forall|key: Seq<char>| #[trigger]
            metadata_value(metadata, key) == at("metadata."@ + key + ".value"@),
        forall|key: Seq<char>|
            !((#[trigger] metadata_value(metadata, key)) matches Some(Json::Array(_))),
        forall|key: Seq<char>|
            (#[trigger] metadata_value(metadata, key)) matches Some(Json::Number(n))
                ==> is_json_number(n),
    ensures
        node_condition(f, indexes) is Some,
        holds(node_condition(f, indexes)->0, at) == search_join::satisfies(f, metadata),
    decreases f, 1int,
{
    lemma_operators_differ();
    match f.key {
        Some(key) => {
            let v = metadata_value(metadata, key);
            assert(v == at("metadata."@ + key + ".value"@));
            assert(value_path(key) == "metadata."@ + key + ".value"@);
            if let Some(Json::Number(n)) = f.value {
                if let Some(Json::Number(m)) = v {
                    json::doubles_are_ordered(n.nearest(), m.nearest());
                    json::doubles_are_ordered(m.nearest(), n.nearest());
                }
            }
        },
        None => match (f.and_, f.or_, f.not_) {
            (Some(fs), None, None) => {
                lemma_plain_parts(fs, indexes, metadata, at, f);
                assert(f.and_ == Some(fs));
                search_join::combinations_mean_what_they_say(fs, metadata);
                combined_filters_hold_as_they_say(fs, indexes, at);
                lemma_node_of_parts(f, indexes);
            },
            (None, Some(fs), None) => {
                lemma_plain_parts(fs, indexes, metadata, at, f);
                search_join::combinations_mean_what_they_say(fs, metadata);
                combined_filters_hold_as_they_say(fs, indexes, at);
                lemma_node_of_parts(f, indexes);
            },
            (None, None, Some(g)) => {
                the_database_selects_what_satisfies_the_filter(*g, indexes, metadata, at);
                combined_filters_hold_as_they_say(seq![*g], indexes, at);
                lemma_node_of_parts(f, indexes);
            },
            _ => {},
        },
    }
}

proof fn lemma_node_of_parts(f: FilterView, indexes: Seq<MetadataIndex>)
    requires
        f.key is None,
    ensures
        f.or_ is None && f.not_ is None && f.and_ is Some ==> node_condition(f, indexes)
            == node_condition(FilterView::all_of(f.and_->0), indexes),
        f.and_ is None && f.not_ is None && f.or_ is Some ==> node_condition(f, indexes)
            == node_condition(FilterView::any_of(f.or_->0), indexes),
        f.and_ is None && f.or_ is None && f.not_ is Some ==> node_condition(f, indexes)
            == node_condition(FilterView::negation(*f.not_->0), indexes),
{
}

proof fn lemma_plain_parts(
    fs: Seq<FilterView>,
    indexes: Seq<MetadataIndex>,
    metadata: Option<Seq<(Seq<char>, Json)>>,
    at: spec_fn(Seq<char>) -> Option<Json>,
    f: FilterView,
)
    requires
        f.and_ == Some(fs) || f.or_ == Some(fs),
        forall|i: int| 0 <= i < fs.len() ==> is_plain(#[trigger] fs[i], indexes),
        forall|key: Seq<char>| #[trigger]
            metadata_value(metadata, key) == at("metadata."@ + key + ".value"@),
        forall|key: Seq<char>|
            !((#[trigger] metadata_value(metadata, key)) matches Some(Json::Array(_))),
        forall|key: Seq<char>|
            (#[trigger] metadata_value(metadata, key)) matches Some(Json::Number(n))
                ==> is_json_number(n),
    ensures
        forall|i: int|
            0 <= i < fs.len() ==> node_condition(#[trigger] fs[i], indexes) is Some && holds(
                node_condition(fs[i], indexes)->0,
                at,
            ) == search_join::satisfies(fs[i], metadata),
    decreases f, 0int,
{
    assert forall|i: int| 0 <= i < fs.len() implies node_condition(#[trigger] fs[i], indexes) is Some
        && holds(node_condition(fs[i], indexes)->0, at) == search_join::satisfies(
        fs[i],
        metadata,
    ) by {
        if f.and_ == Some(fs) {
            the_database_selects_what_satisfies_the_filter(f.and_->0[i], indexes, metadata, at);
        } else {
            the_database_selects_what_satisfies_the_filter(f.or_->0[i], indexes, metadata, at);
        }
    }
}

/// A bound on a key of datetimes is the instant that its text names.
pub proof fn datetime_bounds_are_instants(
    key: Seq<char>,
    op: Seq<char>,
    s: Seq<char>,
    indexes: Seq<MetadataIndex>,
    i: int,
    at: spec_fn(Seq<char>) -> Option<Json>,
    stored: Seq<char>,
)
    requires
        0 <= i < indexes.len(),
        indexes[i].key@ == key,
        indexes[i].value_type@ == "datetime"@,
        datetime_parse::filter_datetime(s) is Ok,
        datetime_parse::filter_datetime(stored) is Ok,
        at("metadata."@ + key + ".value"@) == Some(Json::Text(stored)),
    ensures
        ({
            let bound = datetime_parse::filter_datetime(s)->Ok_0;
            let t = datetime_parse::filter_datetime(stored)->Ok_0;
            let c = |op: Seq<char>|
                node_condition(FilterView::comparison(key, op, Json::Text(s)), indexes);
            &&& c("gt"@) matches Some(x) && (holds(x, at) <==> bound.precedes(t))
            &&& c("lt"@) matches Some(x) && (holds(x, at) <==> t.precedes(bound))
            &&& c("gte"@) matches Some(x) && (holds(x, at) <==> !t.precedes(bound))
            &&& c("lte"@) matches Some(x) && (holds(x, at) <==> !bound.precedes(t))
        }),
{
    lemma_operators_differ();
    assert(is_datetime_key(indexes, key));
}

/// The filter on tags holds of a document exactly if it has all the tags, where
/// all must match, or else some of them.
pub proof fn tag_filters_ask_for_the_tags(
    tags: Vec<String>,
    match_all: bool,
    own: Seq<Json>,
    at: spec_fn(Seq<char>) -> Option<Json>,
)
    requires
        tags@.len() > 0,
        at("tags"@) == Some(Json::Array(own)),
    ensures
        tags_filter(Some(tags), match_all) matches Some(c) && (holds(c, at) <==> if match_all {
            forall|i: int|
                0 <= i < tags@.len() ==> own.contains(Json::Text((#[trigger] tags@[i])@))
        } else {
            exists|i: int| 0 <= i < tags@.len() && own.contains(Json::Text((#[trigger] tags@[i])@))
        }),
{
    let ts = text::views(tags@);
    let cs = tag_conditions(ts, match_all);
    let c = CondView::Nested(cs, Seq::empty(), Seq::empty());
    let v = Json::Array(own);
    lemma_nested_holds(cs, Seq::empty(), Seq::empty(), at);
    assert forall|i: int| 0 <= i < ts.len() implies has_keyword(v, #[trigger] ts[i])
        == own.contains(Json::Text(tags@[i]@)) by {
        assert(ts[i] == tags@[i]@);
        if own.contains(Json::Text(ts[i])) {
            let k = choose|k: int| 0 <= k < own.len() && own[k] == Json::Text(ts[i]);
            assert(own[k] == Json::Text(ts[i]));
        }
    }
    if match_all {
        assert forall|i: int| 0 <= i < cs.len() implies holds(#[trigger] cs[i], at) == has_keyword(
            v,
            ts[i],
        ) by {}
        if holds(c, at) {
            assert forall|i: int| 0 <= i < tags@.len() implies own.contains(
                Json::Text((#[trigger] tags@[i])@),
            ) by {
                assert(holds(cs[i], at));
                assert(has_keyword(v, ts[i]));
            }
        }
        if forall|i: int|
            0 <= i < tags@.len() ==> own.contains(Json::Text((#[trigger] tags@[i])@)) {
            assert forall|i: int| 0 <= i < cs.len() implies holds(#[trigger] cs[i], at) by {
                assert(own.contains(Json::Text(tags@[i]@)));
                assert(has_keyword(v, ts[i]));
            }
        }
    } else {
        assert(cs[0] == CondView::Keywords("tags"@, ts));
        if holds(c, at) {
            assert(holds(cs[0], at));
            let i = choose|i: int| 0 <= i < ts.len() && has_keyword(v, #[trigger] ts[i]);
            assert(own.contains(Json::Text(tags@[i]@)));
        }
        if exists|i: int|
            0 <= i < tags@.len() && own.contains(Json::Text((#[trigger] tags@[i])@)) {
            let i = choose|i: int|
                0 <= i < tags@.len() && own.contains(Json::Text((#[trigger] tags@[i])@));
            assert(has_keyword(v, ts[i]));
            assert(holds(cs[0], at));
        }
    }
}

/// The filter of a search holds of a document exactly if the filter on its tags
/// and that on its metadata do, as far as there are any.
pub proof fn searches_filter_by_tags_and_metadata(
    settings: SearchQuerySettings,
    indexes: Seq<MetadataIndex>,
    at: spec_fn(Seq<char>) -> Option<Json>,
)
    ensures
        (search_filter(settings, indexes) matches Some(c) ==> holds(c, at)) <==> {
            &&& tags_filter(settings.document_tags, settings.document_tags_match_all) matches Some(t)
                ==> holds(t, at)
            &&& settings.metadata_filter matches Some(f) ==> (node_condition(f@, indexes) matches Some(
                m,
            ) ==> holds(m, at))
        },
{
    let tags = tags_filter(settings.document_tags, settings.document_tags_match_all);
    if let Some(f) = settings.metadata_filter {
        if let Some(n) = node_condition(f@, indexes) {
            let m = metadata_condition(f@, indexes)->0;
            assert(holds(m, at) == holds(n, at)) by {
                if m != n {
                    let parts = m->Nested_0;
                    assert(parts =~= seq![n]);
                    lemma_nested_holds(parts, Seq::empty(), Seq::empty(), at);
                    if holds(n, at) {
                        assert forall|i: int| 0 <= i < parts.len() implies holds(
                            #[trigger] parts[i],
                            at,
                        ) by {}
                    } else {
                        assert(!holds(parts[0], at));
                    }
                }
            }
        }
        if let (Some(t), Some(m)) = (tags, metadata_condition(f@, indexes)) {
            let both = seq![t, m];
            let c = CondView::Nested(both, Seq::empty(), Seq::empty());
            lemma_nested_holds(both, Seq::empty(), Seq::empty(), at);
            if holds(c, at) {
                assert(holds(both[0], at) && holds(both[1], at));
            }
            if holds(t, at) && holds(m, at) {
                assert forall|i: int| 0 <= i < both.len() implies holds(#[trigger] both[i], at) by {}
            }
        }
    }
}

} // verus!
