//! Join expressions: their grammar, and what they join.
//!
//! ```text
//! join       = collection [ keys ] [ filter ]
//! keys       = "[" parent "=" child "]"
//! parent     = "$id" | "$.meta." key
//! child      = "$$id" | "$$.meta." key
//! filter     = "(" filter expression ")"
//! ```
//!
//! Collections and keys are made of letters, digits, `_` and `-`. White space
//! between the parts is ignored. Without keys, parent and child are joined by
//! their ids.

use vstd::prelude::*;
use crate::common::{MAX_COLLECTION_NAME_LENGTH, MAX_METADATA_KEY_LENGTH};
use crate::filter_parser;
use crate::filter_parser::parse_filter;
use crate::filters;
use crate::filters::FilterView;
use crate::models::MetadataFilter;
use crate::text;
use crate::text::{
    chars_of, is_identifier_char, same_text, stands_at, text3, text_between, trimmed, white_space,
};

verus! {

/// What a side of a join is joined by.
#[derive(Debug, Clone, PartialEq, Eq)]
pub enum JoinRefKind {
    Id,
    Meta(String),
}

#[derive(Debug, Clone, PartialEq, Eq)]
pub struct JoinSideRef {
    pub kind: JoinRefKind,
}

impl JoinSideRef {
    /// The metadata key of the side; none where it is joined by its id.
    pub open spec fn key(self) -> Option<Seq<char>> {
        match self.kind {
            JoinRefKind::Id => None,
            JoinRefKind::Meta(k) => Some(k@),
        }
    }

    pub fn id() -> (r: Self)
        ensures
            r.kind is Id,
    {
        JoinSideRef { kind: JoinRefKind::Id }
    }

    pub fn meta(key: String) -> (r: Self)
        ensures
            r.kind == JoinRefKind::Meta(key),
    {
        JoinSideRef { kind: JoinRefKind::Meta(key) }
    }
}

/// One join of a search or fetch.
#[derive(Debug, Clone, PartialEq, Eq)]
pub struct JoinSpec {
    pub collection_name: String,
    pub parent_ref: JoinSideRef,
    pub child_ref: JoinSideRef,
    pub metadata_filter: Option<MetadataFilter>,
}

/// What a `JoinSpec` says, as mathematical values.
pub ghost struct JoinView {
    pub collection: Seq<char>,
    pub parent: Option<Seq<char>>,
    pub child: Option<Seq<char>>,
    pub filter: Option<FilterView>,
}

impl JoinSpec {
    pub open spec fn view(&self) -> JoinView {
        JoinView {
            collection: self.collection_name@,
            parent: self.parent_ref.key(),
            child: self.child_ref.key(),
            filter: filters::opt_filter(self.metadata_filter),
        }
    }
}

/// What a list of joins says.
pub open spec fn join_views(v: Seq<JoinSpec>) -> Seq<JoinView> {
    Seq::new(v.len(), |i: int| v[i]@)
}

/// The joins of a request: one expression or several.
#[derive(Debug, Clone, PartialEq, Eq)]
pub enum JoinField {
    Single(String),
    Multiple(Vec<String>),
}

/// The number of identifier characters that a text begins with.
pub open spec fn name_length(s: Seq<char>) -> int
    decreases s.len(),
{
    if s.len() > 0 && text::identifier_char(s[0]) {
        1 + name_length(s.skip(1))
    } else {
        0
    }
}

/// What follows a mark, and the white space behind it, at the beginning.
pub open spec fn after_mark(s: Seq<char>, mark: Seq<char>) -> Option<Seq<char>> {
    if text::occurs_at(s, mark, 0) {
        Some(text::trim_start(s.skip(mark.len() as int)))
    } else {
        None
    }
}

/// A side of a join at the beginning: its metadata key, if any, and what
/// follows. Sides are marked by `$` or `$$`.
pub open spec fn side(s: Seq<char>, id_mark: Seq<char>, meta_mark: Seq<char>) -> Option<
    (Option<Seq<char>>, Seq<char>),
> {
    if text::occurs_at(s, id_mark, 0) {
        Some((None, text::trim_start(s.skip(id_mark.len() as int))))
    } else if text::occurs_at(s, meta_mark, 0) {
        let rest = s.skip(meta_mark.len() as int);
        let n = name_length(rest);
        if n > 0 {
            Some((Some(rest.take(n)), text::trim_start(rest.skip(n))))
        } else {
            None
        }
    } else {
        None
    }
}

/// The keys of a join, behind the opening bracket: the parent's, the child's,
/// and what follows the closing bracket.
pub open spec fn keys(s: Seq<char>) -> Option<
    (Option<Seq<char>>, Option<Seq<char>>, Seq<char>),
> {
    match side(s, "$id"@, "$.meta."@) {
        None => None,
        Some((parent, rest)) => match after_mark(rest, "="@) {
            None => None,
            Some(rest) => match side(rest, "$$id"@, "$$.meta."@) {
                None => None,
                Some((child, rest)) => match after_mark(rest, "]"@) {
                    None => None,
                    Some(rest) => Some((parent, child, rest)),
                },
            },
        },
    }
}

/// The parts of a join expression, its filter still in text.
pub ghost struct JoinText {
    pub collection: Seq<char>,
    pub parent: Option<Seq<char>>,
    pub child: Option<Seq<char>>,
    pub filter: Option<Seq<char>>,
}

/// The filter of a join, if anything is left of the expression: what stands in
/// parentheses up to its end.
pub open spec fn tail_filter(s: Seq<char>) -> Option<Option<Seq<char>>> {
    if s.len() == 0 {
        Some(None)
    } else if s.len() >= 2 && s[0] == '(' && s.last() == ')' {
        Some(Some(s.subrange(1, s.len() - 1)))
    } else {
        None
    }
}

/// The parts of a join expression; nothing if it is not one.
pub open spec fn join_text(s: Seq<char>) -> Option<JoinText> {
    let n = name_length(s);
    if n <= 0 {
        None
    } else {
        let rest = text::trim_start(s.skip(n));
        let keyed = match after_mark(rest, "["@) {
            Some(inner) => keys(inner),
            None => Some((None, None, rest)),
        };
        match keyed {
            None => None,
            Some((parent, child, rest)) => match tail_filter(rest) {
                None => None,
                Some(filter) => Some(
                    JoinText { collection: s.take(n), parent, child, filter },
                ),
            },
        }
    }
}

/// What is wrong with a metadata key of a join: keys have a bound.
pub open spec fn key_problem(key: Option<Seq<char>>) -> Option<Seq<char>> {
    match key {
        Some(k) => if k.len() > MAX_METADATA_KEY_LENGTH {
            Some("Metadata key '"@ + k + "' exceeds 100 character limit"@)
        } else {
            None
        },
        None => None,
    }
}

/// What a join expression stands for: a join, or what is wrong with it.
pub open spec fn join_of(input: Seq<char>) -> Result<JoinView, Seq<char>> {
    let s = text::trim(input);
    if s.len() == 0 {
        Err("Join expression cannot be empty"@)
    } else {
        match join_text(s) {
            None => Err("Invalid join expression: syntax error"@),
            Some(j) => if j.collection.len() > MAX_COLLECTION_NAME_LENGTH {
                Err(
                    "Invalid collection name '"@ + j.collection
                        + "': must be 1\u{2013}100 characters"@,
                )
            } else if key_problem(j.parent) is Some {
                Err(key_problem(j.parent)->0)
            } else if key_problem(j.child) is Some {
                Err(key_problem(j.child)->0)
            } else {
                match j.filter {
                    None => Ok(
                        JoinView {
                            collection: j.collection,
                            parent: j.parent,
                            child: j.child,
                            filter: None,
                        },
                    ),
                    Some(f) => match filter_parser::filter_of(f) {
                        Err(e) => Err(e),
                        Ok(filter) => Ok(
                            JoinView {
                                collection: j.collection,
                                parent: j.parent,
                                child: j.child,
                                filter: Some(filter),
                            },
                        ),
                    },
                }
            },
        }
    }
}

fn name_end(cs: &Vec<char>, from: usize) -> (r: usize)
    requires
        from <= cs@.len(),
    ensures
        from <= r <= cs@.len(),
        r - from == name_length(cs@.skip(from as int)),
{
    let mut i: usize = from;
    while i < cs.len() && is_identifier_char(cs[i])
        invariant
            from <= i <= cs@.len(),
            name_length(cs@.skip(from as int)) == (i - from) + name_length(cs@.skip(i as int)),
        decreases cs.len() - i,
    {
        assert(cs@.skip(i as int)[0] == cs@[i as int]);
        assert(cs@.skip(i as int).skip(1) =~= cs@.skip(i as int + 1));
        i += 1;
    }
    assert(i < cs@.len() ==> cs@.skip(i as int)[0] == cs@[i as int]);
    i
}

fn skip_space(cs: &Vec<char>, from: usize) -> (r: usize)
    requires
        from <= cs@.len(),
    ensures
        from <= r <= cs@.len(),
        cs@.skip(r as int) == text::trim_start(cs@.skip(from as int)),
{
    let mut i: usize = from;
    while i < cs.len() && white_space(cs[i])
        invariant
            from <= i <= cs@.len(),
            text::trim_start(cs@.skip(from as int)) == text::trim_start(cs@.skip(i as int)),
        decreases cs.len() - i,
    {
        assert(cs@.skip(i as int)[0] == cs@[i as int]);
        assert(cs@.skip(i as int).drop_first() =~= cs@.skip(i as int + 1));
        i += 1;
    }
    assert(i < cs@.len() ==> cs@.skip(i as int)[0] == cs@[i as int]);
    i
}

proof fn lemma_occurs_shift(s: Seq<char>, mark: Seq<char>, from: int)
    requires
        0 <= from <= s.len(),
    ensures
        text::occurs_at(s.skip(from), mark, 0) == text::occurs_at(s, mark, from),
{
    if from + mark.len() <= s.len() {
        assert(s.skip(from).subrange(0, mark.len() as int) =~= s.subrange(
            from,
            from + mark.len(),
        ));
    }
}

/// The position behind a mark and the white space behind it.
fn pass_mark(cs: &Vec<char>, from: usize, mark: &str) -> (r: Option<usize>)
    requires
        from <= cs@.len(),
    ensures
        match r {
            Some(at) => at <= cs@.len() && after_mark(cs@.skip(from as int), mark@) == Some(
                cs@.skip(at as int),
            ),
            None => after_mark(cs@.skip(from as int), mark@) is None,
        },
{
    let m = chars_of(mark);
    proof {
        lemma_occurs_shift(cs@, mark@, from as int);
    }
    if stands_at(cs, &m, from) {
        assert(cs@.skip(from as int).skip(mark@.len() as int) =~= cs@.skip(from + mark@.len()));
        Some(skip_space(cs, from + m.len()))
    } else {
        None
    }
}

/// The view of a side that was read.
pub open spec fn side_view(cs: Seq<char>, r: Option<(JoinSideRef, usize)>) -> Option<
    (Option<Seq<char>>, Seq<char>),
> {
    match r {
        Some((side_ref, at)) => Some((side_ref.key(), cs.skip(at as int))),
        None => None,
    }
}

fn read_side(cs: &Vec<char>, from: usize, id_mark: &str, meta_mark: &str) -> (r: Option<
    (JoinSideRef, usize),
>)
    requires
        from <= cs@.len(),
    ensures
        r matches Some((_, at)) ==> at <= cs@.len(),
        side_view(cs@, r) == side(cs@.skip(from as int), id_mark@, meta_mark@),
{
    let id = chars_of(id_mark);
    let meta = chars_of(meta_mark);
    proof {
        lemma_occurs_shift(cs@, id_mark@, from as int);
        lemma_occurs_shift(cs@, meta_mark@, from as int);
    }
    if stands_at(cs, &id, from) {
        assert(cs@.skip(from as int).skip(id@.len() as int) =~= cs@.skip(from + id@.len()));
        return Some((JoinSideRef::id(), skip_space(cs, from + id.len())));
    }
    if !stands_at(cs, &meta, from) {
        return None;
    }
    let start: usize = from + meta.len();
    assert(cs@.skip(from as int).skip(meta@.len() as int) =~= cs@.skip(start as int));
    let end = name_end(cs, start);
    if end == start {
        return None;
    }
    let key = text_between(cs, start, end);
    assert(cs@.skip(start as int).take(end - start) =~= cs@.subrange(start as int, end as int));
    assert(cs@.skip(start as int).skip(end - start) =~= cs@.skip(end as int));
    Some((JoinSideRef::meta(key), skip_space(cs, end)))
}

fn read_keys(cs: &Vec<char>, from: usize) -> (r: Option<(JoinSideRef, JoinSideRef, usize)>)
    requires
        from <= cs@.len(),
    ensures
        match r {
            Some((parent, child, at)) => at <= cs@.len() && keys(cs@.skip(from as int)) == Some(
                (parent.key(), child.key(), cs@.skip(at as int)),
            ),
            None => keys(cs@.skip(from as int)) is None,
        },
{
    let (parent, at) = match read_side(cs, from, "$id", "$.meta.") {
        Some(x) => x,
        None => {
            return None;
        },
    };
    let at = match pass_mark(cs, at, "=") {
        Some(x) => x,
        None => {
            return None;
        },
    };
    let (child, at) = match read_side(cs, at, "$$id", "$$.meta.") {
        Some(x) => x,
        None => {
            return None;
        },
    };
    match pass_mark(cs, at, "]") {
        Some(x) => Some((parent, child, x)),
        None => None,
    }
}

fn check_key(side_ref: &JoinSideRef) -> (r: Option<String>)
    ensures
        text::opt_view(r) == key_problem(side_ref.key()),
{
    match &side_ref.kind {
        JoinRefKind::Id => None,
        JoinRefKind::Meta(k) => if text::char_count(k.as_str()) > MAX_METADATA_KEY_LENGTH {
            Some(text3("Metadata key '", k.as_str(), "' exceeds 100 character limit"))
        } else {
            None
        },
    }
}

/// Parses a join expression.
pub fn parse_join(expr: &str) -> (r: Result<JoinSpec, String>)
    ensures
        match r {
            Ok(j) => join_of(expr@) == Ok::<JoinView, Seq<char>>(j@),
            Err(e) => join_of(expr@) == Err::<JoinView, Seq<char>>(e@),
        },
{
    let t = trimmed(expr);
    let cs = chars_of(t.as_str());
    if cs.len() == 0 {
        return Err("Join expression cannot be empty".to_owned());
    }
    let ghost s = text::trim(expr@);
    assert(cs@.skip(0) =~= s);
    let n = name_end(&cs, 0);
    if n == 0 {
        return Err("Invalid join expression: syntax error".to_owned());
    }
    let collection_name = text_between(&cs, 0, n);
    assert(s.take(n as int) =~= cs@.subrange(0, n as int));
    let at = skip_space(&cs, n);
    let (parent_ref, child_ref, at) = match pass_mark(&cs, at, "[") {
        Some(inner) => match read_keys(&cs, inner) {
            Some(k) => k,
            None => {
                return Err("Invalid join expression: syntax error".to_owned());
            },
        },
        None => (JoinSideRef::id(), JoinSideRef::id(), at),
    };
    let ghost rest = cs@.skip(at as int);
    let filter_text = if at == cs.len() {
        None
    } else {
        proof {
            assert(rest[0] == cs@[at as int]);
            assert(rest.last() == cs@[cs@.len() - 1]);
        }
        let total: usize = cs.len();
        if total - at >= 2 && cs[at] == '(' && cs[total - 1] == ')' {
            let inner = text_between(&cs, at + 1, total - 1);
            assert(rest.subrange(1, rest.len() - 1) =~= cs@.subrange(at + 1, total - 1));
            Some(inner)
        } else {
            return Err("Invalid join expression: syntax error".to_owned());
        }
    };
    if text::char_count(collection_name.as_str()) > MAX_COLLECTION_NAME_LENGTH {
        return Err(
            text3(
                "Invalid collection name '",
                collection_name.as_str(),
                "': must be 1\u{2013}100 characters",
            ),
        );
    }
    if let Some(e) = check_key(&parent_ref) {
        return Err(e);
    }
    if let Some(e) = check_key(&child_ref) {
        return Err(e);
    }
    let metadata_filter = match filter_text {
        None => None,
        Some(f) => match parse_filter(f.as_str()) {
            Ok(filter) => Some(filter),
            Err(e) => {
                return Err(e);
            },
        },
    };
    Ok(JoinSpec { collection_name, parent_ref, child_ref, metadata_filter })
}

/// The joins that expressions stand for, one after the other, or the first
/// thing wrong with them. No two may join the same collection.
pub open spec fn joins_of(exprs: Seq<Seq<char>>) -> Result<Seq<JoinView>, Seq<char>>
    decreases exprs.len(),
{
    if exprs.len() == 0 {
        Ok(Seq::empty())
    } else {
        match joins_of(exprs.drop_last()) {
            Err(e) => Err(e),
            Ok(joins) => match join_of(exprs.last()) {
                Err(e) => Err(e),
                Ok(j) => if joins_collection(joins, j.collection) {
                    Err("Duplicate join collection '"@ + j.collection + "' in join list"@)
                } else {
                    Ok(joins.push(j))
                },
            },
        }
    }
}

/// Whether one of the joins is with the collection.
pub open spec fn joins_collection(joins: Seq<JoinView>, collection: Seq<char>) -> bool {
    exists|i: int| 0 <= i < joins.len() && (#[trigger] joins[i]).collection == collection
}

proof fn lemma_joins_prefix(exprs: Seq<Seq<char>>, n: int)
    requires
        0 <= n <= exprs.len(),
        joins_of(exprs.take(n)) is Err,
    ensures
        joins_of(exprs) == joins_of(exprs.take(n)),
    decreases exprs.len() - n,
{
    if n < exprs.len() {
        assert(exprs.take(n + 1).drop_last() =~= exprs.take(n));
        lemma_joins_prefix(exprs, n + 1);
    } else {
        assert(exprs.take(n) =~= exprs);
    }
}

impl JoinField {
    /// The expressions of the field.
    pub open spec fn exprs(self) -> Seq<Seq<char>> {
        match self {
            JoinField::Single(s) => seq![s@],
            JoinField::Multiple(v) => text::views(v@),
        }
    }

    /// The joins that the field stands for.
    pub fn into_specs(self) -> (r: Result<Vec<JoinSpec>, String>)
        ensures
            match r {
                Ok(v) => self.exprs().len() > 0 && joins_of(self.exprs()) == Ok::<
                    Seq<JoinView>,
                    Seq<char>,
                >(join_views(v@)),
                Err(e) => if self.exprs().len() == 0 {
                    e@ == "Join list cannot be empty"@
                } else {
                    joins_of(self.exprs()) == Err::<Seq<JoinView>, Seq<char>>(e@)
                },
            },
    {
        let ghost exprs = self.exprs();
        let items = match self {
            JoinField::Single(s) => vec![s],
            JoinField::Multiple(v) => v,
        };
        assert(text::views(items@) =~= exprs);
        if items.len() == 0 {
            return Err("Join list cannot be empty".to_owned());
        }
        let mut specs: Vec<JoinSpec> = Vec::new();
        let mut i: usize = 0;
        assert(exprs.take(0) =~= Seq::<Seq<char>>::empty());
        assert(join_views(specs@) =~= Seq::<JoinView>::empty());
        while i < items.len()
            invariant
                i <= items@.len(),
                text::views(items@) == exprs,
                exprs == self.exprs(),
                exprs.len() > 0,
                joins_of(exprs.take(i as int)) == Ok::<Seq<JoinView>, Seq<char>>(
                    join_views(specs@),
                ),
            decreases items.len() - i,
        {
            let ghost next = exprs.take(i as int + 1);
            proof {
                assert(next.drop_last() =~= exprs.take(i as int));
                assert(next.last() == items@[i as int]@);
            }
            match parse_join(items[i].as_str()) {
                Err(e) => {
                    proof {
                        lemma_joins_prefix(exprs, i as int + 1);
                    }
                    return Err(e);
                },
                Ok(spec) => {
                    let mut k: usize = 0;
                    while k < specs.len()
                        invariant
                            k <= specs@.len(),
                            i < items@.len(),
                            exprs.len() == items@.len(),
                            exprs == self.exprs(),
                            next == exprs.take(i as int + 1),
                            next.drop_last() == exprs.take(i as int),
                            next.last() == items@[i as int]@,
                            join_of(items@[i as int]@) == Ok::<JoinView, Seq<char>>(spec@),
                            joins_of(exprs.take(i as int)) == Ok::<Seq<JoinView>, Seq<char>>(
                                join_views(specs@),
                            ),
                            forall|m: int|
                                0 <= m < k ==> (#[trigger] join_views(specs@)[m]).collection
                                    != spec.collection_name@,
                        decreases specs.len() - k,
                    {
                        if same_text(
                            specs[k].collection_name.as_str(),
                            spec.collection_name.as_str(),
                        ) {
                            proof {
                                assert(join_views(specs@)[k as int].collection
                                    == spec@.collection);
                                lemma_joins_prefix(exprs, i as int + 1);
                            }
                            return Err(
                                text3(
                                    "Duplicate join collection '",
                                    spec.collection_name.as_str(),
                                    "' in join list",
                                ),
                            );
                        }
                        k += 1;
                    }
                    let ghost before = join_views(specs@);
                    assert(!joins_collection(before, spec@.collection));
                    specs.push(spec);
                    assert(join_views(specs@) =~= before.push(spec@));
                },
            }
            i += 1;
        }
        assert(exprs.take(i as int) =~= exprs);
        Ok(specs)
    }
}

/// No two joins of an accepted list are with the same collection.
pub proof fn joined_collections_are_distinct(exprs: Seq<Seq<char>>, i: int, j: int)
    requires
        joins_of(exprs) is Ok,
        0 <= i < j < joins_of(exprs)->Ok_0.len(),
    ensures
        joins_of(exprs)->Ok_0[i].collection != joins_of(exprs)->Ok_0[j].collection,
    decreases exprs.len(),
{
    let all = joins_of(exprs)->Ok_0;
    let before = joins_of(exprs.drop_last())->Ok_0;
    if j < before.len() {
        joined_collections_are_distinct(exprs.drop_last(), i, j);
    } else {
        assert(all[i] == before[i]);
        assert(!joins_collection(before, all[j].collection));
    }
}

proof fn lemma_name_length(name: Seq<char>, rest: Seq<char>)
    requires
        forall|i: int| 0 <= i < name.len() ==> text::identifier_char(#[trigger] name[i]),
        rest.len() == 0 || !text::identifier_char(rest[0]),
    ensures
        name_length(name + rest) == name.len(),
    decreases name.len(),
{
    let s = name + rest;
    if name.len() > 0 {
        let tail = name.skip(1);
        assert(s[0] == name[0]);
        assert(s.skip(1) =~= tail + rest);
        assert forall|i: int| 0 <= i < tail.len() implies text::identifier_char(
            #[trigger] tail[i],
        ) by {
            assert(tail[i] == name[i + 1]);
        }
        lemma_name_length(tail, rest);
    } else {
        assert(s =~= rest);
    }
}

/// A side of a join as it is written: by the id, or by a metadata key.
pub open spec fn written_side(
    id_mark: Seq<char>,
    meta_mark: Seq<char>,
    key: Option<Seq<char>>,
) -> Seq<char> {
    match key {
        None => id_mark,
        Some(k) => meta_mark + k,
    }
}

proof fn lemma_side(
    id_mark: Seq<char>,
    meta_mark: Seq<char>,
    key: Option<Seq<char>>,
    rest: Seq<char>,
    d: int,
)
    requires
        0 <= d < id_mark.len(),
        d < meta_mark.len(),
        id_mark[d] != meta_mark[d],
        key matches Some(k) ==> text::is_identifier(k),
        rest.len() > 0,
        !text::identifier_char(rest[0]),
        !text::is_white_space(rest[0]),
    ensures
        side(written_side(id_mark, meta_mark, key) + rest, id_mark, meta_mark) == Some((key, rest)),
{
    let s = written_side(id_mark, meta_mark, key) + rest;
    match key {
        None => {
            assert(s.subrange(0, id_mark.len() as int) =~= id_mark);
            assert(s.skip(id_mark.len() as int) =~= rest);
        },
        Some(k) => {
            assert(s[d] == meta_mark[d]);
            if text::occurs_at(s, id_mark, 0) {
                assert(s.subrange(0, id_mark.len() as int)[d] == s[d]);
            }
            assert(s.subrange(0, meta_mark.len() as int) =~= meta_mark);
            let tail = s.skip(meta_mark.len() as int);
            assert(tail =~= k + rest);
            lemma_name_length(k, rest);
            assert(tail.take(k.len() as int) =~= k);
            assert(tail.skip(k.len() as int) =~= rest);
        },
    }
}

proof fn lemma_mark(mark: char, word: Seq<char>, rest: Seq<char>)
    requires
        word == seq![mark],
        rest.len() == 0 || !text::is_white_space(rest[0]),
    ensures
        after_mark(word + rest, word) == Some(rest),
{
    let s = word + rest;
    assert(s.subrange(0, 1) =~= word);
    assert(s.skip(1) =~= rest);
}

/// The keys of a join as they are written.
pub open spec fn written_keys(parent: Option<Seq<char>>, child: Option<Seq<char>>) -> Seq<char> {
    "["@ + written_side("$id"@, "$.meta."@, parent) + "="@ + written_side(
        "$$id"@,
        "$$.meta."@,
        child,
    ) + "]"@
}

proof fn lemma_keys(parent: Option<Seq<char>>, child: Option<Seq<char>>, rest: Seq<char>)
    requires
        parent matches Some(k) ==> text::is_identifier(k),
        child matches Some(k) ==> text::is_identifier(k),
        rest.len() == 0 || !text::is_white_space(rest[0]),
    ensures
        after_mark(written_keys(parent, child) + rest, "["@) matches Some(inner) && keys(inner)
            == Some((parent, child, rest)),
{
    reveal_strlit("[");
    reveal_strlit("]");
    reveal_strlit("=");
    reveal_strlit("$id");
    reveal_strlit("$$id");
    reveal_strlit("$.meta.");
    reveal_strlit("$$.meta.");
    let p = written_side("$id"@, "$.meta."@, parent);
    let c = written_side("$$id"@, "$$.meta."@, child);
    let at_close = "]"@ + rest;
    let at_child = c + at_close;
    let at_equal = "="@ + at_child;
    let at_parent = p + at_equal;
    assert("["@ =~= seq!['[']);
    assert("]"@ =~= seq![']']);
    assert("="@ =~= seq!['=']);
    assert(p.len() > 0 && p[0] == '$');
    assert(c.len() > 0 && c[0] == '$');
    assert(at_parent[0] == '$');
    assert(at_child[0] == '$');
    assert(at_close[0] == ']');
    assert(at_equal[0] == '=');
    assert(written_keys(parent, child) + rest =~= "["@ + at_parent);
    lemma_mark('[', "["@, at_parent);
    assert("$id"@[1] == 'i' && "$.meta."@[1] == '.');
    assert("$$id"@[2] == 'i' && "$$.meta."@[2] == '.');
    lemma_side("$id"@, "$.meta."@, parent, at_equal, 1);
    lemma_mark('=', "="@, at_child);
    lemma_side("$$id"@, "$$.meta."@, child, at_close, 2);
    lemma_mark(']', "]"@, rest);
}

proof fn lemma_written_join(
    collection: Seq<char>,
    keyed: bool,
    parent: Option<Seq<char>>,
    child: Option<Seq<char>>,
    rest: Seq<char>,
)
    requires
        text::is_identifier(collection),
        parent matches Some(k) ==> text::is_identifier(k),
        child matches Some(k) ==> text::is_identifier(k),
        !keyed ==> parent is None && child is None,
        rest.len() == 0 || (rest.len() >= 2 && rest[0] == '(' && rest.last() == ')'),
    ensures
        ({
            let middle = if keyed {
                written_keys(parent, child)
            } else {
                Seq::empty()
            };
            let s = collection + middle + rest;
            &&& text::trim(s) == s
            &&& s.len() > 0
            &&& join_text(s) == Some(
                (JoinText {
                    collection,
                    parent,
                    child,
                    filter: if rest.len() == 0 {
                        None
                    } else {
                        Some(rest.subrange(1, rest.len() - 1))
                    },
                }),
            )
        }),
{
    reveal_strlit("[");
    reveal_strlit("]");
    let middle = if keyed {
        written_keys(parent, child)
    } else {
        Seq::empty()
    };
    let tail = middle + rest;
    let s = collection + middle + rest;
    assert(s =~= collection + tail);
    assert("["@ =~= seq!['[']);
    assert("]"@ =~= seq![']']);
    if keyed {
        assert(middle[0] == '[');
        assert(middle.last() == ']');
        assert(tail[0] == '[');
        lemma_keys(parent, child, rest);
    } else {
        assert(tail =~= rest);
        if rest.len() > 0 {
            assert(!text::occurs_at(rest, "["@, 0)) by {
                if text::occurs_at(rest, "["@, 0) {
                    assert(rest.subrange(0, 1)[0] == rest[0]);
                }
            }
        }
    }
    lemma_name_length(collection, tail);
    assert(s.take(collection.len() as int) =~= collection);
    assert(s.skip(collection.len() as int) =~= tail);
    assert(text::identifier_char(collection[0]));
    assert(s[0] == collection[0]);
    assert(!text::is_white_space(s[0]));
    assert(!text::is_white_space(s.last())) by {
        if rest.len() > 0 {
            assert(s.last() == rest.last());
        } else if keyed {
            assert(s.last() == middle.last());
        } else {
            assert(s =~= collection);
            assert(text::identifier_char(collection[collection.len() - 1]));
        }
    }
}

/// A join that is written with a collection, keys and a filter is one with that
/// collection, by those keys, and with exactly the filter that the filter's text
/// alone stands for; what is wrong with that text is wrong with the join.
pub proof fn written_joins_read_back(
    collection: Seq<char>,
    parent: Option<Seq<char>>,
    child: Option<Seq<char>>,
    filter: Seq<char>,
)
    requires
        text::is_identifier(collection),
        collection.len() <= 100,
        parent matches Some(k) ==> text::is_identifier(k) && k.len() <= 100,
        child matches Some(k) ==> text::is_identifier(k) && k.len() <= 100,
    ensures
        join_of(collection + written_keys(parent, child) + ("("@ + filter + ")"@)) == (
        match filter_parser::filter_of(filter) {
            Ok(f) => Ok::<JoinView, Seq<char>>(
                JoinView { collection, parent, child, filter: Some(f) },
            ),
            Err(e) => Err::<JoinView, Seq<char>>(e),
        }),
        join_of(collection + written_keys(parent, child)) == Ok::<JoinView, Seq<char>>(
            JoinView { collection, parent, child, filter: None },
        ),
        join_of(collection + ("("@ + filter + ")"@)) == (match filter_parser::filter_of(filter) {
            Ok(f) => Ok::<JoinView, Seq<char>>(
                JoinView { collection, parent: None, child: None, filter: Some(f) },
            ),
            Err(e) => Err::<JoinView, Seq<char>>(e),
        }),
        join_of(collection) == Ok::<JoinView, Seq<char>>(
            JoinView { collection, parent: None, child: None, filter: None },
        ),
{
    reveal_strlit("(");
    reveal_strlit(")");
    let rest = "("@ + filter + ")"@;
    assert("("@ =~= seq!['(']);
    assert(")"@ =~= seq![')']);
    assert(rest[0] == '(' && rest.last() == ')' && rest.len() >= 2);
    assert(rest.subrange(1, rest.len() - 1) =~= filter);
    let none = Seq::<char>::empty();
    lemma_written_join(collection, true, parent, child, rest);
    lemma_written_join(collection, true, parent, child, none);
    lemma_written_join(collection, false, None, None, rest);
    lemma_written_join(collection, false, None, None, none);
    assert(collection + written_keys(parent, child) + none =~= collection + written_keys(
        parent,
        child,
    ));
    assert(collection + none + rest =~= collection + rest);
    assert(collection + none + none =~= collection);
}

/// A join stands for its collection, its two sides and its filter.
pub proof fn joins_say_their_parts(j: JoinSpec)
    ensures
        j@.collection == j.collection_name@,
        j.parent_ref.kind is Id ==> j@.parent is None,
        j.parent_ref.kind matches JoinRefKind::Meta(k) ==> j@.parent == Some(k@),
        j.child_ref.kind is Id ==> j@.child is None,
        j.child_ref.kind matches JoinRefKind::Meta(k) ==> j@.child == Some(k@),
        j.metadata_filter is None ==> j@.filter is None,
        j.metadata_filter matches Some(f) ==> j@.filter == Some(f@),
{
}

/// The joins of a list stand in its order; a list with an expression that is none,
/// or with two for one collection, is refused.
pub proof fn joins_stand_in_the_order_of_the_list(exprs: Seq<Seq<char>>, one: Seq<char>)
    ensures
        joins_of(Seq::empty()) == Ok::<Seq<JoinView>, Seq<char>>(Seq::empty()),
        match (joins_of(exprs), join_of(one)) {
            (Ok(joins), Ok(j)) => if exists|i: int|
                0 <= i < joins.len() && (#[trigger] joins[i]).collection == j.collection {
                joins_of(exprs.push(one)) is Err
            } else {
                joins_of(exprs.push(one)) == Ok::<Seq<JoinView>, Seq<char>>(joins.push(j))
            },
            _ => joins_of(exprs.push(one)) is Err,
        },
{
    assert(exprs.push(one).drop_last() =~= exprs);
}

/// One expression is a list of one.
pub proof fn one_join_is_a_list_of_one(s: String, v: Vec<String>)
    ensures
        JoinField::Single(s).exprs() == seq![s@],
        JoinField::Multiple(v).exprs() == text::views(v@),
{
}

} // verus!
