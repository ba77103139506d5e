//! A search whose results are grouped: fetched once, and again without the
//! groups that have their share, for as long as results are missing and there
//! is something to leave out.

use vstd::prelude::*;
use crate::filters;
use crate::indices;
use crate::indices::keep_at;
use crate::json;
use crate::json::{Json, JsonValue};
use crate::models::MetadataFilter;
use crate::search_group;
use crate::search_group::{
    apply_group_cap, build_group_exclusion_filter, capped, group_of, group_size,
};
use crate::text;
use crate::text::{copy_texts, same_text, text_in};

verus! {

/// What the caller has to do next.
#[derive(Debug, PartialEq, Eq)]
pub enum GroupAction {
    /// Fetch results with this metadata filter, in rank order.
    Fetch(Option<MetadataFilter>),
    /// The search is done: the ids of its results.
    Finish(Vec<String>),
}

/// A grouped search under way.
pub struct GroupRun {
    /// The metadata filter of the query itself.
    pub filter: Option<MetadataFilter>,
    pub field: String,
    pub group_max: u32,
    pub limit: u32,
    pub max_fetches: u32,
    /// How often results were fetched.
    pub fetches: u32,
    /// The results chosen so far, and their values of the group's key.
    pub ids: Vec<String>,
    pub values: Vec<Option<JsonValue>>,
    /// How many groups the last fetch left out.
    pub excluded: u64,
}

/// The numbers below `n`, in order.
pub open spec fn numbers_below(n: int) -> Seq<int> {
    Seq::new(n as nat, |i: int| i)
}

/// Whether no text occurs twice.
pub open spec fn all_different(ids: Seq<Seq<char>>) -> bool {
    forall|i: int, j: int| #![trigger ids[i], ids[j]] 0 <= i < j < ids.len() ==> ids[i] != ids[j]
}

/// Whether a fetched result is new: neither chosen already nor listed before.
pub open spec fn is_fresh(chosen: Seq<Seq<char>>, pool: Seq<Seq<char>>, i: int) -> bool {
    !chosen.contains(pool[i]) && !pool.take(i).contains(pool[i])
}

/// The positions of the new results among the first `n` that were fetched.
pub open spec fn fresh(chosen: Seq<Seq<char>>, pool: Seq<Seq<char>>, n: int) -> Seq<int> {
    indices::picked(n, |i: int| is_fresh(chosen, pool, i))
}

/// What stands at some positions.
pub open spec fn at_positions<T>(v: Seq<T>, positions: Seq<int>) -> Seq<T> {
    Seq::new(positions.len(), |k: int| v[positions[k]])
}

impl GroupRun {
    /// Whether the results chosen so far are within all limits, each once, and
    /// results were not fetched too often.
    pub open spec fn wf(&self) -> bool {
        &&& self.fetches <= 1 || self.fetches <= self.max_fetches
        &&& self.ids@.len() == self.values@.len()
        &&& all_different(text::views(self.ids@))
        &&& capped(
            self.values@,
            self.group_max as int,
            self.limit as int,
            self.values@.len() as int,
        ) == numbers_below(self.values@.len() as int)
    }

    /// Whether results may be fetched: a first time, or once more.
    pub open spec fn may_fetch(&self) -> bool {
        self.fetches == 0 || self.fetches < self.max_fetches
    }

    /// Begins a grouped search.
    pub fn start(
        filter: Option<MetadataFilter>,
        field: &str,
        group_max: u32,
        limit: u32,
        max_fetches: u32,
    ) -> (r: (GroupRun, GroupAction))
        ensures
            r.0.wf(),
            r.0.may_fetch(),
            r.0.filter == filter,
            r.0.field@ == field@,
            r.0.group_max == group_max,
            r.0.limit == limit,
            r.0.max_fetches == max_fetches,
            r.0.fetches == 0,
            r.0.ids@.len() == 0,
            r.0.excluded == 0,
            r.1 matches GroupAction::Fetch(f) && filters::opt_filter(f) == filters::opt_filter(
                filter,
            ),
    {
        let first = copy_filter(&filter);
        let run = GroupRun {
            filter,
            field: field.to_owned(),
            group_max,
            limit,
            max_fetches,
            fetches: 0,
            ids: Vec::new(),
            values: Vec::new(),
            excluded: 0,
        };
        assert(capped(run.values@, run.group_max as int, run.limit as int, 0) =~= numbers_below(0));
        (run, GroupAction::Fetch(first))
    }

    /// The ids of the chosen results followed by those of the new ones.
    pub open spec fn ids_with(self, pool: Seq<Seq<char>>) -> Seq<Seq<char>> {
        let chosen = text::views(self.ids@);
        chosen + at_positions(pool, fresh(chosen, pool, pool.len() as int))
    }

    /// The values of the chosen results followed by those of the new ones.
    pub open spec fn values_with(
        self,
        pool: Seq<Seq<char>>,
        values: Seq<Option<JsonValue>>,
    ) -> Seq<Option<JsonValue>> {
        let chosen = text::views(self.ids@);
        self.values@ + at_positions(values, fresh(chosen, pool, pool.len() as int))
    }

    /// What fetched results mean for the search. Behind the results chosen so
    /// far, the new ones are chosen in rank order, each that has a place in its
    /// group. Results are fetched again if some are missing, a fetch is left
    /// and more groups are full than were left out the last time.
    pub open spec fn takes_pool(
        before: GroupRun,
        pool: Seq<Seq<char>>,
        pool_values: Seq<Option<JsonValue>>,
        after: GroupRun,
        a: GroupAction,
    ) -> bool {
        let ids = before.ids_with(pool);
        let values = before.values_with(pool, pool_values);
        let group_max = before.group_max as int;
        let chosen = capped(values, group_max, before.limit as int, values.len() as int);
        let full = search_group::full_groups(values, chosen, group_max, chosen.len() as int);
        let null_full = group_size(values, chosen, None) >= group_max;
        let excluded = full.len() + if null_full {
            1int
        } else {
            0int
        };
        &&& after.filter == before.filter
        &&& after.field == before.field
        &&& after.group_max == before.group_max
        &&& after.limit == before.limit
        &&& after.max_fetches == before.max_fetches
        &&& after.fetches == before.fetches + 1
        &&& text::views(after.ids@) == at_positions(ids, chosen)
        &&& after.values@ == at_positions(values, chosen)
        &&& if chosen.len() < before.limit && after.fetches < before.max_fetches && excluded
            > before.excluded {
            &&& after.excluded == excluded
            &&& a matches GroupAction::Fetch(f) && filters::opt_filter(f)
                == search_group::exclusion_filter(
                filters::opt_filter(before.filter),
                before.field@,
                Seq::new(
                    full.len(),
                    |k: int| json::opt_json(values[chosen[full[k]]])->0,
                ),
                null_full,
            )
        } else {
            &&& after.excluded == before.excluded
            &&& a matches GroupAction::Finish(r) && text::views(r@) == text::views(after.ids@)
        }
    }

    /// Results were fetched: their ids in rank order, and their values of the
    /// group's key. Whatever was chosen before stays chosen, in its place.
    pub fn on_pool(&mut self, pool: Vec<String>, pool_values: Vec<Option<JsonValue>>) -> (a:
        GroupAction)
        requires
            old(self).wf(),
            old(self).may_fetch(),
            pool@.len() == pool_values@.len(),
        ensures
            final(self).wf(),
            Self::takes_pool(*old(self), text::views(pool@), pool_values@, *final(self), a),
            old(self).ids@.len() <= final(self).ids@.len() <= final(self).limit,
            forall|k: int|
                0 <= k < old(self).ids@.len() ==> (#[trigger] final(self).ids@[k])@ == old(
                    self,
                ).ids@[k]@,
            a is Fetch ==> final(self).may_fetch(),
    {
        let ghost before = *self;
        let ghost pool_ids = text::views(pool@);
        let ghost chosen_ids = text::views(self.ids@);
        let new = find_fresh(&self.ids, &pool);
        let ghost picks = fresh(chosen_ids, pool_ids, pool_ids.len() as int);
        let mut more_ids = keep_at(pool, &new);
        let mut more_values = keep_at(pool_values, &new);
        let mut ids: Vec<String> = Vec::new();
        std::mem::swap(&mut ids, &mut self.ids);
        let mut values: Vec<Option<JsonValue>> = Vec::new();
        std::mem::swap(&mut values, &mut self.values);
        ids.append(&mut more_ids);
        values.append(&mut more_values);
        proof {
            assert(indices::positions(new@) == picks);
            assert forall|k: int| 0 <= k < new@.len() implies picks[k] == #[trigger] new@[k] by {
                assert(indices::positions(new@)[k] == new@[k]);
            }
            assert(text::views(ids@) =~= before.ids_with(pool_ids));
            assert(values@ =~= before.values_with(pool_ids, pool_values@));
            lemma_ids_stay_different(chosen_ids, pool_ids);
        }
        let ghost all_ids = text::views(ids@);
        let ghost all_values = values@;
        let cap = apply_group_cap(&values, self.group_max as usize, self.limit as usize);
        let full = values_at(&values, &cap.saturated);
        let ghost chosen = capped(
            all_values,
            self.group_max as int,
            self.limit as int,
            all_values.len() as int,
        );
        proof {
            search_group::selections_keep_rank_order(
                all_values,
                self.group_max as int,
                self.limit as int,
            );
            assert forall|k: int| 0 <= k < cap.selected@.len() implies chosen[k]
                == #[trigger] cap.selected@[k] by {
                assert(indices::positions(cap.selected@)[k] == cap.selected@[k]);
            }
            assert(indices::ascending_below(cap.selected@, all_values.len() as int)) by {
                assert forall|a: int, b: int|
                    #![trigger cap.selected@[a], cap.selected@[b]]
                    0 <= a < b < cap.selected@.len() implies cap.selected@[a]
                    < cap.selected@[b] by {
                    assert(chosen[a] < chosen[b]);
                }
                assert forall|k: int| 0 <= k < cap.selected@.len() implies (
                #[trigger] cap.selected@[k]) < all_values.len() by {
                    assert(chosen[k] < all_values.len());
                }
            }
        }
        self.ids = keep_at(ids, &cap.selected);
        self.values = keep_at(values, &cap.selected);
        self.fetches = self.fetches + 1;
        proof {
            assert(text::views(self.ids@) =~= at_positions(all_ids, chosen));
            assert(self.values@ =~= at_positions(all_values, chosen));
            lemma_chosen_are_within_limits(
                all_values,
                self.group_max as int,
                self.limit as int,
                all_values.len() as int,
            );
            lemma_picks_stay_different(all_ids, chosen);
            lemma_chosen_stay(
                before.values@,
                at_positions(pool_values@, picks),
                self.group_max as int,
                self.limit as int,
            );
            assert forall|k: int| 0 <= k < before.ids@.len() implies (
            #[trigger] self.ids@[k])@ == before.ids@[k]@ by {
                assert(chosen[k] == k);
                assert(text::views(self.ids@)[k] == all_ids[k]);
                assert(text::views(before.ids@)[k] == before.ids@[k]@);
            }
        }
        proof {
            let group_max = self.group_max as int;
            indices::picked_is_exact(
                chosen.len() as int,
                |k: int| search_group::opens_full_group(all_values, chosen, group_max, k),
            );
        }
        let mut excluded: u64 = full.len() as u64;
        if cap.null_saturated {
            excluded += 1;
        }
        if self.ids.len() < self.limit as usize && self.fetches < self.max_fetches && excluded
            > self.excluded {
            self.excluded = excluded;
            let base = copy_filter(&self.filter);
            let next = build_group_exclusion_filter(
                base,
                self.field.as_str(),
                &full,
                cap.null_saturated,
            );
            proof {
                let places = search_group::full_groups(
                    all_values,
                    chosen,
                    self.group_max as int,
                    chosen.len() as int,
                );
                assert(json::values(full@) =~= Seq::new(
                    places.len(),
                    |k: int| json::opt_json(all_values[chosen[places[k]]])->0,
                ));
            }
            return GroupAction::Fetch(next);
        }
        GroupAction::Finish(copy_texts(&self.ids))
    }
}

fn copy_filter(f: &Option<MetadataFilter>) -> (r: Option<MetadataFilter>)
    ensures
        filters::opt_filter(r) == filters::opt_filter(*f),
{
    match f {
        Some(x) => Some(x.duplicate()),
        None => None,
    }
}

fn listed_before(pool: &Vec<String>, i: usize) -> (r: bool)
    requires
        i < pool@.len(),
    ensures
        r == text::views(pool@).take(i as int).contains(pool@[i as int]@),
{
    let ghost earlier = text::views(pool@).take(i as int);
    let mut k: usize = 0;
    while k < i
        invariant
            k <= i < pool@.len(),
            earlier == text::views(pool@).take(i as int),
            forall|j: int| 0 <= j < k ==> #[trigger] earlier[j] != pool@[i as int]@,
        decreases i - k,
    {
        assert(earlier[k as int] == pool@[k as int]@);
        if same_text(pool[k].as_str(), pool[i].as_str()) {
            return true;
        }
        k += 1;
    }
    false
}

fn find_fresh(chosen: &Vec<String>, pool: &Vec<String>) -> (r: Vec<usize>)
    ensures
        indices::positions(r@) == fresh(
            text::views(chosen@),
            text::views(pool@),
            pool@.len() as int,
        ),
        indices::ascending_below(r@, pool@.len() as int),
{
    let ghost ids = text::views(chosen@);
    let ghost all = text::views(pool@);
    let mut r: Vec<usize> = Vec::new();
    let mut i: usize = 0;
    assert(indices::positions(r@) =~= Seq::empty());
    while i < pool.len()
        invariant
            i <= pool@.len(),
            ids == text::views(chosen@),
            all == text::views(pool@),
            indices::positions(r@) == fresh(ids, all, i as int),
            indices::ascending_below(r@, i as int),
        decreases pool.len() - i,
    {
        let ghost before = indices::positions(r@);
        let known = text_in(chosen, pool[i].as_str()) || listed_before(pool, i);
        assert(all[i as int] == pool@[i as int]@);
        assert(known == !is_fresh(ids, all, i as int));
        if !known {
            r.push(i);
            assert(indices::positions(r@) =~= before.push(i as int));
        }
        i += 1;
    }
    r
}

fn values_at(values: &Vec<Option<JsonValue>>, at: &Vec<usize>) -> (r: Vec<JsonValue>)
    requires
        forall|k: int|
            0 <= k < at@.len() ==> (#[trigger] at@[k]) < values@.len() && values@[at@[k] as int]
                is Some,
    ensures
        r@.len() == at@.len(),
        forall|k: int|
            0 <= k < r@.len() ==> (#[trigger] r@[k])@ == json::opt_json(
                values@[at@[k] as int],
            )->0,
{
    let mut r: Vec<JsonValue> = Vec::new();
    let mut i: usize = 0;
    while i < at.len()
        invariant
            i <= at@.len(),
            r@.len() == i,
            forall|k: int|
                0 <= k < at@.len() ==> (#[trigger] at@[k]) < values@.len() && values@[at@[k] as int]
                    is Some,
            forall|k: int|
                0 <= k < r@.len() ==> (#[trigger] r@[k])@ == json::opt_json(
                    values@[at@[k] as int],
                )->0,
        decreases at.len() - i,
    {
        assert(at@[i as int] < values@.len());
        let place: usize = at[i];
        if let Some(v) = &values[place] {
            r.push(v.duplicate());
        }
        i += 1;
    }
    r
}

proof fn lemma_ids_stay_different(chosen: Seq<Seq<char>>, pool: Seq<Seq<char>>)
    requires
        all_different(chosen),
    ensures
        all_different(chosen + at_positions(pool, fresh(chosen, pool, pool.len() as int))),
{
    let picks = fresh(chosen, pool, pool.len() as int);
    let p = |i: int| is_fresh(chosen, pool, i);
    indices::picked_is_exact(pool.len() as int, p);
    let all = chosen + at_positions(pool, picks);
    let n = chosen.len() as int;
    assert forall|i: int, j: int| #![trigger all[i], all[j]] 0 <= i < j < all.len() implies all[i]
        != all[j] by {
        if j >= n {
            let b = picks[j - n];
            assert(p(b));
            if i < n {
                assert(chosen[i] == all[i]);
            } else {
                let a = picks[i - n];
                assert(a < b);
                assert(pool.take(b)[a] == pool[a]);
            }
        } else {
            assert(chosen[i] != chosen[j]);
        }
    }
}

proof fn lemma_picks_stay_different(ids: Seq<Seq<char>>, picks: Seq<int>)
    requires
        all_different(ids),
        forall|k: int| 0 <= k < picks.len() ==> 0 <= #[trigger] picks[k] < ids.len(),
        forall|a: int, b: int|
            #![trigger picks[a], picks[b]]
            0 <= a < b < picks.len() ==> picks[a] < picks[b],
    ensures
        all_different(at_positions(ids, picks)),
{
    let r = at_positions(ids, picks);
    assert forall|i: int, j: int| #![trigger r[i], r[j]] 0 <= i < j < r.len() implies r[i]
        != r[j] by {
        assert(picks[i] < picks[j]);
        assert(ids[picks[i]] != ids[picks[j]]);
    }
}

proof fn lemma_sizes_agree(
    v: Seq<Option<JsonValue>>,
    in_v: Seq<int>,
    w: Seq<Option<JsonValue>>,
    in_w: Seq<int>,
    g: Option<Json>,
)
    requires
        in_v.len() == in_w.len(),
        forall|k: int| 0 <= k < in_v.len() ==> v[#[trigger] in_v[k]] == w[in_w[k]],
    ensures
        group_size(v, in_v, g) == group_size(w, in_w, g),
    decreases in_v.len(),
{
    if in_v.len() > 0 {
        let (a, b) = (in_v.drop_last(), in_w.drop_last());
        assert forall|k: int| 0 <= k < a.len() implies v[#[trigger] a[k]] == w[b[k]] by {
            assert(a[k] == in_v[k]);
        }
        lemma_sizes_agree(v, a, w, b, g);
        assert(v[in_v[in_v.len() - 1]] == w[in_w[in_w.len() - 1]]);
    }
}

proof fn lemma_selected_before(v: Seq<Option<JsonValue>>, group_max: int, limit: int, n: int)
    ensures
        ({
            let sel = capped(v, group_max, limit, n);
            forall|k: int| 0 <= k < sel.len() ==> 0 <= #[trigger] sel[k] < n
        }),
    decreases n,
{
    if n > 0 {
        lemma_selected_before(v, group_max, limit, n - 1);
        let rest = capped(v, group_max, limit, n - 1);
        let sel = capped(v, group_max, limit, n);
        assert forall|k: int| 0 <= k < sel.len() implies 0 <= #[trigger] sel[k] < n by {
            if k < rest.len() {
                assert(sel[k] == rest[k]);
            }
        }
    }
}

proof fn lemma_selection_looks_back(
    v: Seq<Option<JsonValue>>,
    w: Seq<Option<JsonValue>>,
    group_max: int,
    limit: int,
    n: int,
)
    requires
        forall|i: int| 0 <= i < n ==> #[trigger] v[i] == w[i],
    ensures
        capped(v, group_max, limit, n) == capped(w, group_max, limit, n),
    decreases n,
{
    if n > 0 {
        lemma_selection_looks_back(v, w, group_max, limit, n - 1);
        let rest = capped(v, group_max, limit, n - 1);
        lemma_selected_before(v, group_max, limit, n - 1);
        lemma_sizes_agree(v, rest, w, rest, group_of(v, n - 1));
        assert(v[n - 1] == w[n - 1]);
    }
}

proof fn lemma_chosen_are_within_limits(
    v: Seq<Option<JsonValue>>,
    group_max: int,
    limit: int,
    n: int,
)
    ensures
        ({
            let sel = capped(v, group_max, limit, n);
            capped(at_positions(v, sel), group_max, limit, sel.len() as int) == numbers_below(
                sel.len() as int,
            )
        }),
    decreases n,
{
    if n > 0 {
        lemma_chosen_are_within_limits(v, group_max, limit, n - 1);
        let rest = capped(v, group_max, limit, n - 1);
        let sel = capped(v, group_max, limit, n);
        if sel != rest {
            let m = rest.len() as int;
            let w = at_positions(v, sel);
            lemma_selection_looks_back(at_positions(v, rest), w, group_max, limit, m);
            lemma_sizes_agree(v, rest, w, numbers_below(m), group_of(v, n - 1));
            assert(w[m] == v[n - 1]);
            assert(numbers_below(m).push(m) =~= numbers_below(m + 1));
        }
    } else {
        assert(numbers_below(0) =~= Seq::empty());
    }
}

proof fn lemma_selection_grows(
    v: Seq<Option<JsonValue>>,
    group_max: int,
    limit: int,
    m: int,
    n: int,
)
    requires
        m <= n,
    ensures
        ({
            let first = capped(v, group_max, limit, m);
            let all = capped(v, group_max, limit, n);
            first.len() <= all.len() && forall|k: int|
                0 <= k < first.len() ==> #[trigger] all[k] == first[k]
        }),
    decreases n - m,
{
    if m < n {
        lemma_selection_grows(v, group_max, limit, m, n - 1);
    }
}

proof fn lemma_chosen_stay(
    chosen: Seq<Option<JsonValue>>,
    more: Seq<Option<JsonValue>>,
    group_max: int,
    limit: int,
)
    requires
        capped(chosen, group_max, limit, chosen.len() as int) == numbers_below(
            chosen.len() as int,
        ),
    ensures
        ({
            let all = capped(chosen + more, group_max, limit, (chosen + more).len() as int);
            chosen.len() <= all.len() && forall|k: int|
                0 <= k < chosen.len() ==> #[trigger] all[k] == k
        }),
{
    let n = chosen.len() as int;
    lemma_selection_looks_back(chosen, chosen + more, group_max, limit, n);
    lemma_selection_grows(chosen + more, group_max, limit, n, (chosen + more).len() as int);
}

/// No group has more than its share of the chosen results, no result is chosen
/// twice, and results are fetched at most as often as allowed, or once.
pub proof fn chosen_results_are_within_limits(run: GroupRun, g: Option<Json>)
    requires
        run.wf(),
    ensures
        group_size(run.values@, numbers_below(run.values@.len() as int), g) <= run.group_max,
        run.ids@.len() <= run.limit,
        all_different(text::views(run.ids@)),
        run.fetches <= 1 || run.fetches <= run.max_fetches,
{
    let n = run.values@.len() as int;
    search_group::groups_stay_within_their_share(
        run.values@,
        run.group_max as int,
        run.limit as int,
        n,
        g,
    );
    search_group::selections_keep_rank_order(run.values@, run.group_max as int, run.limit as int);
}

/// A result of a pool is new exactly if it was not chosen before and does not
/// stand earlier in the pool.
pub proof fn results_are_new_once(chosen: Seq<Seq<char>>, pool: Seq<Seq<char>>, i: int)
    requires
        0 <= i < pool.len(),
    ensures
        fresh(chosen, pool, pool.len() as int).contains(i) <==> !chosen.contains(pool[i]) && forall|
            k: int,
        |
            0 <= k < i ==> #[trigger] pool[k] != pool[i],
{
    indices::picked_is_exact(pool.len() as int, |i: int| is_fresh(chosen, pool, i));
    let before = pool.take(i);
    if before.contains(pool[i]) {
        let k = choose|k: int| 0 <= k < before.len() && before[k] == pool[i];
        assert(pool[k] == pool[i]);
    }
    if exists|k: int| 0 <= k < i && #[trigger] pool[k] == pool[i] {
        let k = choose|k: int| 0 <= k < i && #[trigger] pool[k] == pool[i];
        assert(before[k] == pool[i]);
    }
}

proof fn lemma_chosen_sizes(
    values: Seq<Option<JsonValue>>,
    chosen: Seq<int>,
    n: int,
    g: Option<Json>,
)
    requires
        0 <= n <= chosen.len(),
    ensures
        group_size(values, chosen.take(n), g) == group_size(
            at_positions(values, chosen),
            numbers_below(n),
            g,
        ),
    decreases n,
{
    if n > 0 {
        lemma_chosen_sizes(values, chosen, n - 1, g);
        assert(chosen.take(n).drop_last() =~= chosen.take(n - 1));
        assert(numbers_below(n).drop_last() =~= numbers_below(n - 1));
        assert(numbers_below(n).last() == n - 1);
        assert(at_positions(values, chosen)[n - 1] == values[chosen[n - 1]]);
    }
}

/// A new result of a pool is chosen unless as many as were asked for are chosen
/// or the group that it is of has its share.
pub proof fn new_results_are_chosen_if_there_is_room(
    before: GroupRun,
    pool: Seq<Seq<char>>,
    pool_values: Seq<Option<JsonValue>>,
    after: GroupRun,
    a: GroupAction,
    i: int,
)
    requires
        before.wf(),
        GroupRun::takes_pool(before, pool, pool_values, after, a),
        pool.len() == pool_values.len(),
        0 <= i < pool.len(),
        !text::views(before.ids@).contains(pool[i]),
        forall|k: int| 0 <= k < i ==> #[trigger] pool[k] != pool[i],
    ensures
        text::views(after.ids@).contains(pool[i]) || after.ids@.len() == before.limit
            || group_size(
            after.values@,
            numbers_below(after.values@.len() as int),
            match pool_values[i] {
                Some(v) => Some(v@),
                None => None,
            },
        ) == before.group_max,
{
    let seen = text::views(before.ids@);
    let at = fresh(seen, pool, pool.len() as int);
    results_are_new_once(seen, pool, i);
    assert(at.contains(i));
    let x = choose|x: int| 0 <= x < at.len() && at[x] == i;
    let ids = before.ids_with(pool);
    let values = before.values_with(pool, pool_values);
    let p = seen.len() + x;
    assert(ids[p] == pool[i]);
    assert(values[p] == pool_values[i]);
    let chosen = capped(
        values,
        before.group_max as int,
        before.limit as int,
        values.len() as int,
    );
    search_group::results_are_left_out_for_a_reason(
        values,
        before.group_max as int,
        before.limit as int,
        p,
    );
    assert(text::views(after.ids@).len() == after.ids@.len());
    lemma_chosen_sizes(
        values,
        chosen,
        chosen.len() as int,
        search_group::group_of(values, p),
    );
    assert(chosen.take(chosen.len() as int) =~= chosen);
    if chosen.contains(p) {
        let k = choose|k: int| 0 <= k < chosen.len() && chosen[k] == p;
        assert(text::views(after.ids@)[k] == pool[i]);
    }
}

/// A run fetches again only while results are wanting, while it may, and while
/// more groups are full than before; else it is over, with the chosen results.
pub proof fn runs_fetch_only_while_it_helps(
    before: GroupRun,
    pool: Seq<Seq<char>>,
    pool_values: Seq<Option<JsonValue>>,
    after: GroupRun,
    a: GroupAction,
)
    requires
        GroupRun::takes_pool(before, pool, pool_values, after, a),
    ensures
        after.fetches == before.fetches + 1,
        a is Fetch ==> after.ids@.len() < before.limit && after.fetches < before.max_fetches
            && after.excluded > before.excluded,
        a matches GroupAction::Finish(r) ==> r@.len() == after.ids@.len() && forall|k: int|
            0 <= k < r@.len() ==> (#[trigger] r@[k])@ == after.ids@[k]@,
{
    assert(text::views(after.ids@).len() == after.ids@.len());
    if let GroupAction::Finish(r) = a {
        assert(text::views(r@).len() == r@.len());
        assert forall|k: int| 0 <= k < r@.len() implies (#[trigger] r@[k])@ == after.ids@[k]@ by {
            assert(text::views(r@)[k] == r@[k]@);
            assert(text::views(after.ids@)[k] == after.ids@[k]@);
        }
    }
}

} // verus!
