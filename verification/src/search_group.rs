//! Grouping: at most so many results for each value of a metadata key, and the
//! filter that keeps values which have their share out of the next round.

use vstd::prelude::*;
use crate::common::SearchExcludeField;
use crate::filters;
use crate::filters::FilterView;
use crate::indices;
use crate::json;
use crate::json::{Json, JsonValue};
use crate::models::{CollectionConfigInternal, MetadataFilter, MetadataIndex};
use crate::search_filter;
use crate::text::{same_text, text3};

verus! {

/// The fields that must be fetched for grouping: the metadata, if results are
/// grouped.
pub open spec fn group_fields(grouped: bool) -> Seq<SearchExcludeField> {
    if grouped {
        seq![SearchExcludeField::Metadata]
    } else {
        Seq::empty()
    }
}

/// The fields that must be fetched for grouping, whatever a query excludes.
pub fn required_fields_for_group(group_field: &Option<String>) -> (r: Vec<SearchExcludeField>)
    ensures
        r@ == group_fields(group_field is Some),
{
    let mut r: Vec<SearchExcludeField> = Vec::new();
    if group_field.is_some() {
        r.push(SearchExcludeField::Metadata);
    }
    assert(r@ =~= group_fields(group_field is Some));
    r
}

/// Whether a key is indexed.
pub open spec fn is_indexed(indexes: Seq<MetadataIndex>, key: Seq<char>) -> bool {
    exists|i: int| 0 <= i < indexes.len() && (#[trigger] indexes[i]).key@ == key
}

/// Whether a key is indexed.
pub fn key_indexed(indexes: &Option<Vec<MetadataIndex>>, key: &str) -> (r: bool)
    ensures
        r == is_indexed(search_filter::index_list(*indexes), key@),
{
    match indexes {
        None => false,
        Some(list) => {
            let mut i: usize = 0;
            while i < list.len()
                invariant
                    i <= list@.len(),
                    search_filter::index_list(*indexes) == list@,
                    forall|k: int| 0 <= k < i ==> (#[trigger] list@[k]).key@ != key@,
                decreases list.len() - i,
            {
                if same_text(list[i].key.as_str(), key) {
                    assert(list@[i as int].key@ == key@);
                    return true;
                }
                i += 1;
            }
            false
        },
    }
}

/// Checks that results can be grouped by a key: the collection indexes it.
pub fn validate_group_field(
    collection_config: &CollectionConfigInternal,
    group_field: &str,
) -> (r: Result<(), String>)
    ensures
        match r {
            Ok(_) => is_indexed(
                search_filter::index_list(collection_config.metadata_indexes),
                group_field@,
            ),
            Err(e) => !is_indexed(
                search_filter::index_list(collection_config.metadata_indexes),
                group_field@,
            ) && e@ == "group_field '"@ + group_field@
                + "' is not indexed in collection metadata_indexes"@,
        },
{
    if key_indexed(&collection_config.metadata_indexes, group_field) {
        Ok(())
    } else {
        Err(
            text3(
                "group_field '",
                group_field,
                "' is not indexed in collection metadata_indexes",
            ),
        )
    }
}

/// The group of a result: a value of the key, or none.
pub open spec fn group_of(values: Seq<Option<JsonValue>>, i: int) -> Option<Json> {
    json::opt_json(values[i])
}

/// The number of selected results in a group.
pub open spec fn group_size(
    values: Seq<Option<JsonValue>>,
    selected: Seq<int>,
    group: Option<Json>,
) -> int
    decreases selected.len(),
{
    if selected.len() == 0 {
        0
    } else {
        group_size(values, selected.drop_last(), group) + if json::opt_equals(
            group_of(values, selected.last()),
            group,
        ) {
            1int
        } else {
            0int
        }
    }
}

/// The results selected among the first `n`, which come in rank order: each
/// that has a place in its group, until `limit` are selected.
pub open spec fn capped(
    values: Seq<Option<JsonValue>>,
    group_max: int,
    limit: int,
    n: int,
) -> Seq<int>
    decreases n,
{
    if n <= 0 {
        Seq::empty()
    } else {
        let rest = capped(values, group_max, limit, n - 1);
        if rest.len() >= limit || group_size(values, rest, group_of(values, n - 1)) >= group_max {
            rest
        } else {
            rest.push(n - 1)
        }
    }
}

/// What capping the groups selected.
#[derive(Debug, PartialEq, Eq)]
pub struct GroupCap {
    /// The positions of the selected results, in rank order.
    pub selected: Vec<usize>,
    /// The positions of the first selected results of the groups that are full
    /// and have a value.
    pub saturated: Vec<usize>,
    /// Whether the group without a value is full.
    pub null_saturated: bool,
    /// Whether all results were looked at and fewer than the limit selected.
    pub pool_exhausted: bool,
}

/// Whether a selected result is the first one of a full group with a value.
pub open spec fn opens_full_group(
    values: Seq<Option<JsonValue>>,
    selected: Seq<int>,
    group_max: int,
    k: int,
) -> bool {
    &&& values[selected[k]] is Some
    &&& group_size(values, selected.take(k), group_of(values, selected[k])) == 0
    &&& group_size(values, selected, group_of(values, selected[k])) >= group_max
}

/// The places in the selection of the first results of the full groups.
pub open spec fn full_groups(
    values: Seq<Option<JsonValue>>,
    selected: Seq<int>,
    group_max: int,
    n: int,
) -> Seq<int> {
    indices::picked(n, |k: int| opens_full_group(values, selected, group_max, k))
}

fn same_group(a: &Option<JsonValue>, b: &Option<JsonValue>) -> (r: bool)
    ensures
        r == json::opt_equals(json::opt_json(*a), json::opt_json(*b)),
{
    match (a, b) {
        (None, None) => true,
        (Some(x), Some(y)) => x.same(y),
        _ => false,
    }
}

fn count_group(
    values: &Vec<Option<JsonValue>>,
    selected: &Vec<usize>,
    n: usize,
    group: &Option<JsonValue>,
) -> (r: usize)
    requires
        n <= selected@.len(),
        forall|k: int| 0 <= k < selected@.len() ==> (#[trigger] selected@[k]) < values@.len(),
    ensures
        r == group_size(
            values@,
            indices::positions(selected@).take(n as int),
            json::opt_json(*group),
        ),
        r <= n,
{
    let ghost all = indices::positions(selected@);
    let mut count: usize = 0;
    let mut i: usize = 0;
    assert(all.take(0) =~= Seq::empty());
    while i < n
        invariant
            i <= n <= selected@.len(),
            count <= i,
            all == indices::positions(selected@),
            forall|k: int| 0 <= k < selected@.len() ==> (#[trigger] selected@[k]) < values@.len(),
            count == group_size(values@, all.take(i as int), json::opt_json(*group)),
        decreases n - i,
    {
        assert(all.take(i as int + 1).drop_last() =~= all.take(i as int));
        assert(all.take(i as int + 1).last() == selected@[i as int] as int);
        let at: usize = selected[i];
        assert(selected@[i as int] < values@.len());
        if same_group(&values[at], group) {
            count += 1;
        }
        i += 1;
    }
    count
}

/// Walks results in rank order and keeps at most `group_max` of each group,
/// until `limit` are selected. The values are those of the results; results
/// without one share a group.
pub fn apply_group_cap(
    values: &Vec<Option<JsonValue>>,
    group_max: usize,
    limit: usize,
) -> (r: GroupCap)
    ensures
        ({
            let sel = capped(values@, group_max as int, limit as int, values@.len() as int);
            &&& indices::positions(r.selected@) == sel
            &&& r.pool_exhausted == (sel.len() < limit)
            &&& r.null_saturated == (group_size(values@, sel, None) >= group_max)
            &&& r.saturated@.len() == full_groups(
                values@,
                sel,
                group_max as int,
                sel.len() as int,
            ).len()
            &&& forall|k: int|
                0 <= k < r.saturated@.len() ==> (#[trigger] r.saturated@[k]) == sel[full_groups(
                    values@,
                    sel,
                    group_max as int,
                    sel.len() as int,
                )[k]]
            &&& forall|k: int|
                0 <= k < r.saturated@.len() ==> (#[trigger] r.saturated@[k]) < values@.len()
                    && values@[r.saturated@[k] as int] is Some
        }),
{
    let mut selected: Vec<usize> = Vec::new();
    let mut i: usize = 0;
    assert(indices::positions(selected@) =~= Seq::empty());
    while i < values.len()
        invariant
            i <= values@.len(),
            forall|k: int| 0 <= k < selected@.len() ==> (#[trigger] selected@[k]) < i,
            indices::positions(selected@) == capped(
                values@,
                group_max as int,
                limit as int,
                i as int,
            ),
        decreases values.len() - i,
    {
        let ghost before = indices::positions(selected@);
        assert(before.len() == selected@.len());
        if selected.len() < limit {
            let n: usize = selected.len();
            let count = count_group(values, &selected, n, &values[i]);
            assert(before.take(n as int) =~= before);
            if count < group_max {
                selected.push(i);
                assert(indices::positions(selected@) =~= before.push(i as int));
            }
        }
        i += 1;
    }
    let ghost sel = indices::positions(selected@);
    let n: usize = selected.len();
    let none: Option<JsonValue> = None;
    let nulls = count_group(values, &selected, n, &none);
    assert(sel.take(n as int) =~= sel);
    let mut saturated: Vec<usize> = Vec::new();
    let mut k: usize = 0;
    while k < n
        invariant
            k <= n,
            n == selected@.len(),
            sel == indices::positions(selected@),
            sel.len() == n,
            sel.take(n as int) == sel,
            forall|x: int| 0 <= x < selected@.len() ==> (#[trigger] selected@[x]) < values@.len(),
            saturated@.len() == full_groups(values@, sel, group_max as int, k as int).len(),
            forall|x: int|
                0 <= x < saturated@.len() ==> (#[trigger] saturated@[x]) == sel[full_groups(
                    values@,
                    sel,
                    group_max as int,
                    k as int,
                )[x]],
            forall|x: int|
                0 <= x < saturated@.len() ==> (#[trigger] saturated@[x]) < values@.len()
                    && values@[saturated@[x] as int] is Some,
        decreases n - k,
    {
        let at: usize = selected[k];
        assert(selected@[k as int] < values@.len());
        assert(sel[k as int] == at);
        if values[at].is_some() {
            let earlier = count_group(values, &selected, k, &values[at]);
            let size = count_group(values, &selected, n, &values[at]);
            if earlier == 0 && size >= group_max {
                assert(opens_full_group(values@, sel, group_max as int, k as int));
                saturated.push(at);
            } else {
                assert(!opens_full_group(values@, sel, group_max as int, k as int));
            }
        } else {
            assert(!opens_full_group(values@, sel, group_max as int, k as int));
        }
        k += 1;
    }
    GroupCap {
        selected,
        saturated,
        null_saturated: nulls >= group_max,
        pool_exhausted: n < limit,
    }
}

proof fn lemma_capped(values: Seq<Option<JsonValue>>, group_max: int, limit: int, n: int)
    requires
        0 <= n <= values.len(),
        group_max >= 0,
        limit >= 0,
    ensures
        ({
            let sel = capped(values, group_max, limit, n);
            &&& sel.len() <= limit
            &&& sel.len() <= n
            &&& forall|k: int| 0 <= k < sel.len() ==> 0 <= #[trigger] sel[k] < n
            &&& forall|a: int, b: int|
                #![trigger sel[a], sel[b]]
                0 <= a < b < sel.len() ==> sel[a] < sel[b]
        }),
    decreases n,
{
    if n > 0 {
        lemma_capped(values, group_max, limit, n - 1);
    }
}

/// The selection is in rank order and no longer than the limit; it is shorter
/// only where every result was looked at.
pub proof fn selections_keep_rank_order(
    values: Seq<Option<JsonValue>>,
    group_max: int,
    limit: int,
)
    requires
        group_max >= 0,
        limit >= 0,
    ensures
        ({
            let sel = capped(values, group_max, limit, values.len() as int);
            &&& sel.len() <= limit
            &&& forall|k: int| 0 <= k < sel.len() ==> 0 <= #[trigger] sel[k] < values.len()
            &&& forall|a: int, b: int|
                #![trigger sel[a], sel[b]]
                0 <= a < b < sel.len() ==> sel[a] < sel[b]
        }),
{
    lemma_capped(values, group_max, limit, values.len() as int);
}

proof fn lemma_groups_agree(a: Option<Json>, b: Option<Json>, g: Option<Json>)
    requires
        json::opt_equals(b, g),
    ensures
        json::opt_equals(a, b) == json::opt_equals(a, g),
{
    if let (Some(x), Some(y), Some(z)) = (a, b, g) {
        if x.equals(y) {
            json::equality_is_transitive(x, y, z);
        }
        if x.equals(z) {
            json::equality_is_symmetric(y, z);
            json::equality_is_transitive(x, z, y);
        }
    }
}

proof fn lemma_same_group_size(
    values: Seq<Option<JsonValue>>,
    selected: Seq<int>,
    b: int,
    g: Option<Json>,
)
    requires
        0 <= b < values.len(),
        json::opt_equals(group_of(values, b), g),
        forall|k: int| 0 <= k < selected.len() ==> 0 <= #[trigger] selected[k] < values.len(),
    ensures
        group_size(values, selected, group_of(values, b)) == group_size(values, selected, g),
    decreases selected.len(),
{
    if selected.len() > 0 {
        let a = selected.last();
        assert(selected[selected.len() - 1] == a);
        assert forall|k: int| 0 <= k < selected.drop_last().len() implies 0
            <= #[trigger] selected.drop_last()[k] < values.len() by {
            assert(selected[k] == selected.drop_last()[k]);
        }
        lemma_same_group_size(values, selected.drop_last(), b, g);
        lemma_groups_agree(group_of(values, a), group_of(values, b), g);
    }
}

/// No group has more than its share of the selection.
pub proof fn groups_stay_within_their_share(
    values: Seq<Option<JsonValue>>,
    group_max: int,
    limit: int,
    n: int,
    g: Option<Json>,
)
    requires
        0 <= n <= values.len(),
        group_max >= 0,
        limit >= 0,
    ensures
        group_size(values, capped(values, group_max, limit, n), g) <= group_max,
    decreases n,
{
    if n > 0 {
        groups_stay_within_their_share(values, group_max, limit, n - 1, g);
        let rest = capped(values, group_max, limit, n - 1);
        lemma_capped(values, group_max, limit, n - 1);
        if rest.len() < limit && group_size(values, rest, group_of(values, n - 1)) < group_max {
            assert(rest.push(n - 1).drop_last() =~= rest);
            if json::opt_equals(group_of(values, n - 1), g) {
                lemma_same_group_size(values, rest, n - 1, g);
            }
        }
    }
}

/// The filter that excludes a value of the key.
pub open spec fn excluding(group_field: Seq<char>, value: Json) -> FilterView {
    FilterView::negation(FilterView::comparison(group_field, "eq"@, value))
}

/// The filters that exclude the full groups.
pub open spec fn exclusions(
    group_field: Seq<char>,
    saturated: Seq<Json>,
    null_saturated: bool,
) -> Seq<FilterView> {
    let values = Seq::new(saturated.len(), |i: int| excluding(group_field, saturated[i]));
    if null_saturated {
        values.push(FilterView::negation(FilterView::is_null(group_field)))
    } else {
        values
    }
}

/// The filter of the next round: the one there was and the exclusions, of
/// which one alone stands by itself.
pub open spec fn exclusion_filter(
    existing: Option<FilterView>,
    group_field: Seq<char>,
    saturated: Seq<Json>,
    null_saturated: bool,
) -> Option<FilterView> {
    let excl = exclusions(group_field, saturated, null_saturated);
    if excl.len() == 0 {
        existing
    } else {
        let all = match existing {
            Some(f) => excl.push(f),
            None => excl,
        };
        if all.len() == 1 {
            Some(all[0])
        } else {
            Some(FilterView::all_of(all))
        }
    }
}

/// The filter of the next round, which keeps the values of full groups out.
pub fn build_group_exclusion_filter(
    existing_filter: Option<MetadataFilter>,
    group_field: &str,
    saturated_values: &Vec<JsonValue>,
    null_saturated: bool,
) -> (r: Option<MetadataFilter>)
    ensures
        filters::opt_filter(r) == exclusion_filter(
            filters::opt_filter(existing_filter),
            group_field@,
            json::values(saturated_values@),
            null_saturated,
        ),
{
    let ghost values = json::values(saturated_values@);
    let ghost excl = exclusions(group_field@, values, null_saturated);
    let mut all: Vec<MetadataFilter> = Vec::new();
    let mut i: usize = 0;
    while i < saturated_values.len()
        invariant
            i <= saturated_values@.len(),
            values == json::values(saturated_values@),
            all@.len() == i,
            forall|k: int|
                0 <= k < i ==> (#[trigger] all@[k])@ == excluding(group_field@, values[k]),
        decreases saturated_values.len() - i,
    {
        let value = saturated_values[i].duplicate();
        let f = MetadataFilter::comparison(group_field, "eq", value);
        let negated = MetadataFilter::negation(f);
        all.push(negated);
        i += 1;
    }
    if null_saturated {
        let f = MetadataFilter::is_null(group_field);
        all.push(MetadataFilter::negation(f));
    }
    assert(filters::filter_views(all@) =~= excl);
    if all.len() == 0 {
        return existing_filter;
    }
    if let Some(existing) = existing_filter {
        let ghost before = filters::filter_views(all@);
        let ghost view = existing@;
        all.push(existing);
        assert(filters::filter_views(all@) =~= before.push(view));
    }
    if all.len() == 1 {
        assert(filters::filter_views(all@)[0] == all@[0]@);
        return all.pop();
    }
    Some(MetadataFilter::all_of(all))
}

/// A key is indexed exactly if some index is on it.
pub proof fn keys_are_indexed_by_their_index(indexes: Seq<MetadataIndex>, one: MetadataIndex, key: Seq<char>)
    ensures
        is_indexed(indexes.push(one), key) <==> is_indexed(indexes, key) || one.key@ == key,
        !is_indexed(Seq::empty(), key),
{
    let all = indexes.push(one);
    if is_indexed(indexes, key) {
        let i = choose|i: int| 0 <= i < indexes.len() && (#[trigger] indexes[i]).key@ == key;
        assert(all[i].key@ == key);
    }
    if one.key@ == key {
        assert(all[indexes.len() as int].key@ == key);
    }
    if is_indexed(all, key) {
        let i = choose|i: int| 0 <= i < all.len() && (#[trigger] all[i]).key@ == key;
        if i < indexes.len() {
            assert(indexes[i].key@ == key);
        }
    }
}

/// One more selected result makes the group that it is of larger by one, and no
/// other group. Results without a value are of one group.
pub proof fn groups_grow_by_their_results(
    values: Seq<Option<JsonValue>>,
    selected: Seq<int>,
    i: int,
    group: Option<Json>,
)
    ensures
        group_size(values, Seq::empty(), group) == 0,
        group_size(values, selected.push(i), group) == group_size(values, selected, group) + (
        match (values[i], group) {
            (Some(v), Some(g)) => if v@.equals(g) {
                1int
            } else {
                0int
            },
            (None, None) => 1int,
            _ => 0int,
        }),
{
    assert(selected.push(i).drop_last() =~= selected);
}

proof fn lemma_capped_extends(
    values: Seq<Option<JsonValue>>,
    group_max: int,
    limit: int,
    m: int,
    n: int,
    g: Option<Json>,
)
    requires
        0 <= m <= n,
    ensures
        capped(values, group_max, limit, m).is_prefix_of(capped(values, group_max, limit, n)),
        group_size(values, capped(values, group_max, limit, m), g) <= group_size(
            values,
            capped(values, group_max, limit, n),
            g,
        ),
    decreases n,
{
    if m < n {
        lemma_capped_extends(values, group_max, limit, m, n - 1, g);
        let rest = capped(values, group_max, limit, n - 1);
        let all = capped(values, group_max, limit, n);
        if all.len() > rest.len() {
            assert(all.drop_last() =~= rest);
        }
    }
}

/// A result is left out only if as many as were asked for are selected, or the
/// group that it is of has its share.
pub proof fn results_are_left_out_for_a_reason(
    values: Seq<Option<JsonValue>>,
    group_max: int,
    limit: int,
    i: int,
)
    requires
        0 <= i < values.len(),
        group_max >= 0,
        limit >= 0,
    ensures
        ({
            let sel = capped(values, group_max, limit, values.len() as int);
            !sel.contains(i) ==> sel.len() == limit || group_size(
                values,
                sel,
                match values[i] {
                    Some(v) => Some(v@),
                    None => None,
                },
            ) == group_max
        }),
{
    let n = values.len() as int;
    let sel = capped(values, group_max, limit, n);
    let g = group_of(values, i);
    selections_keep_rank_order(values, group_max, limit);
    groups_stay_within_their_share(values, group_max, limit, n, g);
    lemma_capped_extends(values, group_max, limit, i, n, g);
    lemma_capped_extends(values, group_max, limit, i + 1, n, g);
    let rest = capped(values, group_max, limit, i);
    let next = capped(values, group_max, limit, i + 1);
    if next.len() > rest.len() {
        assert(next == rest.push(i));
        assert(next[rest.len() as int] == i);
        assert(sel[rest.len() as int] == i);
    }
}

/// A further fetch leaves out the full groups: its filter is satisfied exactly by
/// what satisfies the filter of the search and has none of their values.
pub proof fn full_groups_are_left_out(
    existing: Option<FilterView>,
    field: Seq<char>,
    saturated: Seq<Json>,
    metadata: Option<Seq<(Seq<char>, Json)>>,
)
    ensures
        ({
            let f = exclusion_filter(existing, field, saturated, false);
            let kept = (existing is None || crate::search_join::satisfies(existing->0, metadata))
                && forall|i: int|
                0 <= i < saturated.len() ==> !crate::search_join::satisfies(
                    FilterView::comparison(field, "eq"@, #[trigger] saturated[i]),
                    metadata,
                );
            (f is None || crate::search_join::satisfies(f->0, metadata)) <==> kept
        }),
{
    let excl = exclusions(field, saturated, false);
    let all = match existing {
        Some(f) => excl.push(f),
        None => excl,
    };
    assert forall|i: int| 0 <= i < saturated.len() implies (crate::search_join::satisfies(
        #[trigger] excl[i],
        metadata,
    ) <==> !crate::search_join::satisfies(
        FilterView::comparison(field, "eq"@, saturated[i]),
        metadata,
    )) by {
        crate::search_join::negation_is_the_opposite(
            FilterView::comparison(field, "eq"@, saturated[i]),
            metadata,
        );
    }
    crate::search_join::combinations_mean_what_they_say(all, metadata);
    assert(forall|i: int| 0 <= i < saturated.len() ==> #[trigger] all[i] == excl[i]);
    if existing is Some && excl.len() > 0 {
        assert(all[excl.len() as int] == existing->0);
    }
    let kept = (existing is None || crate::search_join::satisfies(existing->0, metadata))
        && forall|i: int|
        0 <= i < saturated.len() ==> !crate::search_join::satisfies(
            FilterView::comparison(field, "eq"@, #[trigger] saturated[i]),
            metadata,
        );
    if excl.len() > 0 {
        if forall|i: int|
            0 <= i < all.len() ==> crate::search_join::satisfies(#[trigger] all[i], metadata) {
            assert forall|i: int| 0 <= i < saturated.len() implies !crate::search_join::satisfies(
                FilterView::comparison(field, "eq"@, #[trigger] saturated[i]),
                metadata,
            ) by {
                assert(crate::search_join::satisfies(all[i], metadata));
                assert(crate::search_join::satisfies(excl[i], metadata));
            }
        }
        if kept {
            assert forall|i: int| 0 <= i < all.len() implies crate::search_join::satisfies(
                #[trigger] all[i],
                metadata,
            ) by {
                if i < excl.len() {
                    assert(all[i] == excl[i]);
                    assert(!crate::search_join::satisfies(
                        FilterView::comparison(field, "eq"@, saturated[i]),
                        metadata,
                    ));
                }
            }
        }
    }
}

/// Where the results without a value are full, a further fetch asks for a value.
pub proof fn full_groups_without_value_are_left_out(
    field: Seq<char>,
    saturated: Seq<Json>,
)
    ensures
        exclusions(field, saturated, true) == exclusions(field, saturated, false).push(
            FilterView {
                and_: None,
                or_: None,
                not_: Some(
                    Box::new(
                        FilterView {
                            and_: None,
                            or_: None,
                            not_: None,
                            key: Some(field),
                            op: Some("is_null"@),
                            value: None,
                        },
                    ),
                ),
                key: None,
                op: None,
                value: None,
            },
        ),
        exclusions(field, saturated, false).len() == saturated.len(),
        exclusion_filter(None, field, saturated, true) is Some,
{
}

} // verus!
