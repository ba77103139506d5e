//! Fusion of the ranked lists that a search gets back, one per vector: which
//! hits count for which document, and in which order the documents come once
//! their scores are summed.

use vstd::prelude::*;
use crate::functions;
use crate::functions::split_first_underscore;
use crate::indices;
use crate::ingress;
use crate::ingress::{group_by_name, Group};
use crate::json::Double;
use crate::models::VectorScore;
use crate::ranking;
use crate::ranking::{sort_ranked, Ranked};
use crate::text;
use crate::text::{same_text, text_before};

verus! {

/// A point in one of the lists, with its score there.
#[derive(Debug, PartialEq, Eq)]
pub struct ScoredId {
    pub id: String,
    pub score: Double,
}

/// A point's place in one of the lists: the list, its rank from one, and its
/// score there.
#[derive(Debug, PartialEq, Eq)]
pub struct Hit {
    pub id: String,
    pub arm: usize,
    pub rank: usize,
    pub score: Double,
}

/// Whether a hit is a point's place in the lists.
pub open spec fn is_hit(h: Hit, arms: Seq<Vec<ScoredId>>) -> bool {
    &&& h.arm < arms.len()
    &&& 1 <= h.rank <= arms[h.arm as int]@.len()
    &&& h.id@ == arms[h.arm as int]@[h.rank - 1].id@
    &&& h.score == arms[h.arm as int]@[h.rank - 1].score
}

/// The number of points in the first lists.
pub open spec fn total_hits(arms: Seq<Vec<ScoredId>>, n: int) -> int
    decreases n,
{
    if n <= 0 {
        0
    } else {
        total_hits(arms, n - 1) + arms[n - 1]@.len()
    }
}

/// Whether the hits are the places of all points, list by list and in the
/// order of their ranks.
pub open spec fn lists_hits(arms: Seq<Vec<ScoredId>>, hits: Seq<Hit>) -> bool {
    &&& hits.len() == total_hits(arms, arms.len() as int)
    &&& forall|k: int| 0 <= k < hits.len() ==> is_hit(#[trigger] hits[k], arms)
    &&& forall|k: int|
        0 <= k < hits.len() ==> k == total_hits(arms, (#[trigger] hits[k]).arm as int)
            + hits[k].rank - 1
}

/// Lists the places of all points.
pub fn list_hits(arms: &Vec<Vec<ScoredId>>) -> (r: Vec<Hit>)
    ensures
        lists_hits(arms@, r@),
{
    let mut out: Vec<Hit> = Vec::new();
    let mut a: usize = 0;
    while a < arms.len()
        invariant
            a <= arms@.len(),
            out@.len() == total_hits(arms@, a as int),
            forall|k: int| 0 <= k < out@.len() ==> is_hit(#[trigger] out@[k], arms@),
            forall|k: int|
                0 <= k < out@.len() ==> k == total_hits(arms@, (#[trigger] out@[k]).arm as int)
                    + out@[k].rank - 1,
        decreases arms.len() - a,
    {
        let arm = &arms[a];
        let mut i: usize = 0;
        while i < arm.len()
            invariant
                a < arms@.len(),
                *arm == arms@[a as int],
                i <= arm@.len(),
                out@.len() == total_hits(arms@, a as int) + i,
                forall|k: int| 0 <= k < out@.len() ==> is_hit(#[trigger] out@[k], arms@),
                forall|k: int|
                    0 <= k < out@.len() ==> k == total_hits(
                        arms@,
                        (#[trigger] out@[k]).arm as int,
                    ) + out@[k].rank - 1,
            decreases arm.len() - i,
        {
            out.push(
                Hit {
                    id: arm[i].id.as_str().to_owned(),
                    arm: a,
                    rank: i + 1,
                    score: arm[i].score,
                },
            );
            i += 1;
        }
        a += 1;
    }
    out
}

/// The ids of the hits.
pub open spec fn hit_ids(hits: Seq<Hit>) -> Seq<Seq<char>> {
    Seq::new(hits.len(), |i: int| hits[i].id@)
}

/// Gathers the hits by point: every point once, in the order of first
/// appearance, with the positions of its hits in ascending order.
pub fn gather_hits(hits: &Vec<Hit>) -> (r: Vec<Group>)
    ensures
        ingress::gathers(hit_ids(hits@), hits@.len() as int, r@),
{
    let mut names: Vec<String> = Vec::new();
    let mut i: usize = 0;
    while i < hits.len()
        invariant
            i <= hits@.len(),
            names@.len() == i,
            forall|k: int| 0 <= k < i ==> (#[trigger] names@[k])@ == hits@[k].id@,
        decreases hits.len() - i,
    {
        names.push(hits[i].id.as_str().to_owned());
        i += 1;
    }
    assert(text::views(names@) =~= hit_ids(hits@));
    group_by_name(&names)
}

/// A point with the sum of its weighted contributions and the sum of its
/// scores as they came.
#[derive(Debug, PartialEq, Eq)]
pub struct Fused {
    pub id: String,
    pub score: Double,
    pub raw: Double,
}

impl Ranked for Fused {
    /// The higher score comes first; of equal scores the higher raw sum; of
    /// equal sums the lower id.
    open spec fn precedes(&self, other: &Self) -> bool {
        if self.score.rank() != other.score.rank() {
            self.score.rank() > other.score.rank()
        } else if self.raw.rank() != other.raw.rank() {
            self.raw.rank() > other.raw.rank()
        } else {
            text::text_precedes(self.id@, other.id@)
        }
    }

    proof fn precedes_asymmetric(a: &Self, b: &Self) {
        if text::text_precedes(a.id@, b.id@) && text::text_precedes(b.id@, a.id@) {
            text::text_precedes_transitive(a.id@, b.id@, a.id@);
            text::text_precedes_irreflexive(a.id@);
        }
    }

    proof fn not_precedes_transitive(a: &Self, b: &Self, c: &Self) {
        if !a.precedes(b) && !b.precedes(c) && a.precedes(c) {
            text::text_precedes_total(a.id@, b.id@);
            text::text_precedes_total(b.id@, c.id@);
            if a.id@ != b.id@ && b.id@ != c.id@ && text::text_precedes(c.id@, b.id@)
                && text::text_precedes(b.id@, a.id@) && text::text_precedes(a.id@, c.id@) {
                text::text_precedes_transitive(c.id@, b.id@, a.id@);
                text::text_precedes_transitive(a.id@, c.id@, a.id@);
                text::text_precedes_irreflexive(a.id@);
            }
        }
    }

    fn before(&self, other: &Self) -> (r: bool) {
        if self.score.ranks_above(&other.score) {
            true
        } else if other.score.ranks_above(&self.score) {
            false
        } else if self.raw.ranks_above(&other.raw) {
            true
        } else if other.raw.ranks_above(&self.raw) {
            false
        } else {
            text_before(self.id.as_str(), other.id.as_str())
        }
    }
}

/// Whether a score reaches the threshold, if there is one.
pub open spec fn reaches(score: Double, threshold: Option<Double>) -> bool {
    match threshold {
        Some(t) => t.at_most(score),
        None => true,
    }
}

/// The points whose scores reach the threshold.
pub open spec fn reaching(items: Seq<Fused>, threshold: Option<Double>) -> Seq<Fused>
    decreases items.len(),
{
    if items.len() == 0 {
        Seq::empty()
    } else {
        let rest = reaching(items.drop_last(), threshold);
        if reaches(items.last().score, threshold) {
            rest.push(items.last())
        } else {
            rest
        }
    }
}

/// Whether `r` are the first `limit` of the points that reach the threshold,
/// in the order of their ranks.
pub open spec fn ranks(
    items: Seq<Fused>,
    limit: nat,
    threshold: Option<Double>,
    r: Seq<Fused>,
) -> bool {
    exists|s: Seq<Fused>|
        {
            &&& #[trigger] ranking::in_rank_order(s)
            &&& s.to_multiset() == reaching(items, threshold).to_multiset()
            &&& r == s.take(
                if limit < s.len() {
                    limit as int
                } else {
                    s.len() as int
                },
            )
        }
}

/// Ranks points by their sums and keeps the first `limit` that reach the
/// threshold.
pub fn rank_fused(items: Vec<Fused>, limit: usize, threshold: Option<Double>) -> (r: Vec<Fused>)
    ensures
        ranks(items@, limit as nat, threshold, r@),
{
    let ghost all = items@;
    let mut kept: Vec<Fused> = Vec::new();
    assert(all.take(0) =~= Seq::empty());
    for x in it: items
        invariant
            it.seq() == all,
            kept@ == reaching(all.take(it.index() as int), threshold),
    {
        proof {
            let i = it.index() as int;
            assert(all.take(i + 1).drop_last() =~= all.take(i));
            assert(all.take(i + 1).last() == x);
        }
        let ok = match threshold {
            Some(t) => t.le(&x.score),
            None => true,
        };
        if ok {
            kept.push(x);
        }
    }
    assert(all.take(all.len() as int) =~= all);
    let mut sorted = sort_ranked(kept);
    let ghost s = sorted@;
    assert(ranking::in_rank_order(s));
    if limit < sorted.len() {
        sorted.truncate(limit);
        assert(sorted@ =~= s.take(limit as int));
    } else {
        assert(sorted@ =~= s.take(s.len() as int));
    }
    sorted
}

/// Whether no two points have the same id.
pub open spec fn ids_distinct(s: Seq<Fused>) -> bool {
    forall|i: int, j: int|
        #![trigger s[i], s[j]]
        0 <= i < j < s.len() ==> s[i].id@ != s[j].id@
}

/// The order of points with ids of their own does not depend on the order in
/// which they came: two ranked lists of the same points are the same list.
pub proof fn ranking_is_deterministic(a: Seq<Fused>, b: Seq<Fused>)
    requires
        ranking::in_rank_order(a),
        ranking::in_rank_order(b),
        a.to_multiset() == b.to_multiset(),
        ids_distinct(a),
    ensures
        a == b,
    decreases a.len(),
{
    ranking::same_elements(a, b);
    if a.len() > 0 {
        let i = choose|i: int| 0 <= i < a.len() && a[i] == b[0];
        assert(a.contains(b[0]));
        let j = choose|j: int| 0 <= j < b.len() && b[j] == a[0];
        assert(b.contains(a[0]));
        assert(a[0] == b[0]) by {
            if i > 0 && j > 0 {
                assert(!a[i].precedes(&a[0]));
                assert(!b[j].precedes(&b[0]));
                text::text_precedes_total(a[0].id@, a[i].id@);
                assert(a[0].id@ != a[i].id@);
            }
        }
        let ra = a.drop_first();
        let rb = b.drop_first();
        a.to_multiset_ensures();
        b.to_multiset_ensures();
        assert(ra =~= a.remove(0));
        assert(rb =~= b.remove(0));
        assert(ra.to_multiset() =~= a.to_multiset().remove(a[0]));
        assert(rb.to_multiset() =~= b.to_multiset().remove(b[0]));
        assert(ranking::in_rank_order(ra)) by {
            assert forall|x: int, y: int|
                #![trigger ra[x], ra[y]]
                0 <= x < y < ra.len() implies !ra[y].precedes(&ra[x]) by {
                assert(!a[y + 1].precedes(&a[x + 1]));
            }
        }
        assert(ranking::in_rank_order(rb)) by {
            assert forall|x: int, y: int|
                #![trigger rb[x], rb[y]]
                0 <= x < y < rb.len() implies !rb[y].precedes(&rb[x]) by {
                assert(!b[y + 1].precedes(&b[x + 1]));
            }
        }
        assert(ids_distinct(ra)) by {
            assert forall|x: int, y: int|
                #![trigger ra[x], ra[y]]
                0 <= x < y < ra.len() implies ra[x].id@ != ra[y].id@ by {
                assert(a[x + 1].id@ != a[y + 1].id@);
            }
        }
        ranking_is_deterministic(ra, rb);
        assert(a =~= seq![a[0]] + ra);
        assert(b =~= seq![b[0]] + rb);
    } else {
        assert(a =~= b);
    }
}

/// What is kept has reached the threshold, no more than `limit` of it, the
/// better before the worse.
pub proof fn ranked_points_reach_the_threshold(
    items: Seq<Fused>,
    limit: nat,
    threshold: Option<Double>,
    r: Seq<Fused>,
)
    requires
        ranks(items, limit, threshold, r),
    ensures
        r.len() <= limit,
        forall|i: int| 0 <= i < r.len() ==> reaches((#[trigger] r[i]).score, threshold),
        forall|i: int| 0 <= i < r.len() ==> items.contains(#[trigger] r[i]),
        ranking::in_rank_order(r),
{
    let s = choose|s: Seq<Fused>|
        {
            &&& #[trigger] ranking::in_rank_order(s)
            &&& s.to_multiset() == reaching(items, threshold).to_multiset()
            &&& r == s.take(
                if limit < s.len() {
                    limit as int
                } else {
                    s.len() as int
                },
            )
        };
    ranking::same_elements(s, reaching(items, threshold));
    assert forall|i: int| 0 <= i < r.len() implies reaches((#[trigger] r[i]).score, threshold)
        && items.contains(r[i]) by {
        assert(reaching(items, threshold).contains(s[i]));
        let k = choose|k: int|
            0 <= k < reaching(items, threshold).len() && reaching(items, threshold)[k] == s[i];
        lemma_reaching(items, threshold, k);
    }
}

proof fn lemma_reaching(items: Seq<Fused>, threshold: Option<Double>, k: int)
    requires
        0 <= k < reaching(items, threshold).len(),
    ensures
        reaches(reaching(items, threshold)[k].score, threshold),
        items.contains(reaching(items, threshold)[k]),
    decreases items.len(),
{
    let rest = reaching(items.drop_last(), threshold);
    if k < rest.len() {
        lemma_reaching(items.drop_last(), threshold, k);
        let i = choose|i: int| 0 <= i < items.drop_last().len() && items.drop_last()[i] == rest[k];
        assert(items[i] == rest[k]);
    } else {
        assert(items[items.len() - 1] == items.last());
    }
}

/// A result of a search: the hit whose point is shown, the fused score and
/// the scores of the single vectors.
#[derive(Debug, PartialEq, Eq)]
pub struct PlacedResult {
    pub hit: usize,
    pub score: Double,
    pub vector_scores: Vec<VectorScore>,
}

/// Whether a vector's score is that of a hit.
pub open spec fn is_score_of(v: VectorScore, h: Hit, name: Seq<char>) -> bool {
    &&& v.field@ == functions::underscore_parts(name).0
    &&& v.vector@ == functions::underscore_parts(name).1
    &&& v.score == h.score
    &&& v.rank == h.rank as u32
}

/// The positions of the hits of a point.
pub open spec fn hits_of(hits: Seq<Hit>, id: Seq<char>) -> Seq<int> {
    indices::picked(hits.len() as int, |i: int| hits[i].id@ == id)
}

/// Whether the scores are those of the point's hits, in order.
pub open spec fn scores_of(
    hits: Seq<Hit>,
    names: Seq<Seq<char>>,
    id: Seq<char>,
    scores: Seq<VectorScore>,
) -> bool {
    &&& scores.len() == hits_of(hits, id).len()
    &&& forall|k: int|
        0 <= k < scores.len() ==> is_score_of(
            #[trigger] scores[k],
            hits[hits_of(hits, id)[k]],
            names[hits[hits_of(hits, id)[k]].arm as int],
        )
}

/// Whether a result places a fused point: at the point's first hit, with the
/// fused score, and with the scores of its hits if they are asked for.
pub open spec fn places(
    r: PlacedResult,
    f: Fused,
    hits: Seq<Hit>,
    names: Seq<Seq<char>>,
    raw_scores: bool,
) -> bool {
    &&& hits_of(hits, f.id@).len() > 0
    &&& r.hit == hits_of(hits, f.id@)[0]
    &&& r.score == f.score
    &&& if raw_scores {
        scores_of(hits, names, f.id@, r.vector_scores@)
    } else {
        r.vector_scores@.len() == 0
    }
}

fn collect_scores(hits: &Vec<Hit>, names: &Vec<String>, members: &Vec<usize>) -> (r: Vec<
    VectorScore,
>)
    requires
        forall|k: int| 0 <= k < members@.len() ==> (#[trigger] members@[k]) < hits@.len(),
        forall|k: int| 0 <= k < hits@.len() ==> (#[trigger] hits@[k]).arm < names@.len(),
    ensures
        r@.len() == members@.len(),
        forall|k: int|
            0 <= k < r@.len() ==> is_score_of(
                #[trigger] r@[k],
                hits@[members@[k] as int],
                names@[hits@[members@[k] as int].arm as int]@,
            ),
{
    let mut out: Vec<VectorScore> = Vec::new();
    let mut i: usize = 0;
    while i < members.len()
        invariant
            i <= members@.len(),
            out@.len() == i,
            forall|k: int| 0 <= k < members@.len() ==> (#[trigger] members@[k]) < hits@.len(),
            forall|k: int| 0 <= k < hits@.len() ==> (#[trigger] hits@[k]).arm < names@.len(),
            forall|k: int|
                0 <= k < i ==> is_score_of(
                    #[trigger] out@[k],
                    hits@[members@[k] as int],
                    names@[hits@[members@[k] as int].arm as int]@,
                ),
        decreases members.len() - i,
    {
        let at: usize = members[i];
        assert(members@[i as int] < hits@.len());
        let h = &hits[at];
        let (field, vector) = split_first_underscore(names[h.arm].as_str());
        out.push(VectorScore { field, vector, score: h.score, rank: h.rank as u32 });
        i += 1;
    }
    out
}

fn find_group(groups: &Vec<Group>, id: &str) -> (r: Option<usize>)
    ensures
        match r {
            Some(g) => g < groups@.len() && groups@[g as int].name@ == id@,
            None => !ingress::has_group(groups@, id@),
        },
{
    let mut g: usize = 0;
    while g < groups.len()
        invariant
            g <= groups@.len(),
            forall|k: int| 0 <= k < g ==> (#[trigger] groups@[k]).name@ != id@,
        decreases groups.len() - g,
    {
        if same_text(groups[g].name.as_str(), id) {
            return Some(g);
        }
        g += 1;
    }
    None
}

/// The positions of the fused points that have a hit.
pub open spec fn shown(fused: Seq<Fused>, hits: Seq<Hit>, n: int) -> Seq<int> {
    indices::picked(n, |i: int| hit_ids(hits).contains(fused[i].id@))
}

/// Places the fused points that have a hit: every point at its first hit, in
/// the given order. The names are those of the lists' vectors.
pub fn place_results(
    fused: &Vec<Fused>,
    hits: &Vec<Hit>,
    names: &Vec<String>,
    raw_scores: bool,
) -> (r: Vec<PlacedResult>)
    requires
        forall|k: int| 0 <= k < hits@.len() ==> (#[trigger] hits@[k]).arm < names@.len(),
    ensures
        r@.len() == shown(fused@, hits@, fused@.len() as int).len(),
        forall|k: int|
            0 <= k < r@.len() ==> places(
                #[trigger] r@[k],
                fused@[shown(fused@, hits@, fused@.len() as int)[k]],
                hits@,
                text::views(names@),
                raw_scores,
            ),
{
    let groups = gather_hits(hits);
    let mut out: Vec<PlacedResult> = Vec::new();
    let mut i: usize = 0;
    let ghost ids = hit_ids(hits@);
    while i < fused.len()
        invariant
            i <= fused@.len(),
            out@.len() == shown(fused@, hits@, i as int).len(),
            ids == hit_ids(hits@),
            ingress::gathers(ids, hits@.len() as int, groups@),
            forall|k: int| 0 <= k < hits@.len() ==> (#[trigger] hits@[k]).arm < names@.len(),
            forall|k: int|
                0 <= k < out@.len() ==> places(
                    #[trigger] out@[k],
                    fused@[shown(fused@, hits@, i as int)[k]],
                    hits@,
                    text::views(names@),
                    raw_scores,
                ),
        decreases fused.len() - i,
    {
        let f = &fused[i];
        match find_group(&groups, f.id.as_str()) {
            Some(g) => {
                let members = &groups[g].members;
                let ghost p = |x: int| ids[x] == groups@[g as int].name@;
                let ghost q = |x: int| hits@[x].id@ == f.id@;
                proof {
                    indices::same_picks(hits@.len() as int, p, q);
                    assert(indices::positions(members@) == indices::picked(hits@.len() as int, p));
                    assert(hits_of(hits@, f.id@) == indices::picked(hits@.len() as int, q));
                    indices::picked_is_exact(hits@.len() as int, q);
                    assert forall|k: int| 0 <= k < members@.len() implies (#[trigger] members@[k])
                        < hits@.len() by {
                        assert(indices::positions(members@)[k] == members@[k]);
                    }
                    assert(indices::positions(members@)[0] == members@[0]);
                    assert(ids[members@[0] as int] == f.id@);
                    assert(ids.contains(fused@[i as int].id@));
                }
                let scores = if raw_scores {
                    collect_scores(hits, names, members)
                } else {
                    Vec::new()
                };
                proof {
                    if raw_scores {
                        assert forall|k: int| 0 <= k < scores@.len() implies is_score_of(
                            #[trigger] scores@[k],
                            hits@[hits_of(hits@, f.id@)[k]],
                            text::views(names@)[hits@[hits_of(hits@, f.id@)[k]].arm as int],
                        ) by {
                            assert(indices::positions(members@)[k] == members@[k]);
                        }
                    }
                }
                out.push(PlacedResult { hit: members[0], score: f.score, vector_scores: scores });
            },
            None => {
                assert(!ids.contains(fused@[i as int].id@)) by {
                    if ids.contains(f.id@) {
                        let k = choose|k: int| 0 <= k < ids.len() && ids[k] == f.id@;
                        assert(ingress::has_group(groups@, ids[k]));
                    }
                }
            },
        }
        i += 1;
    }
    out
}

/// Of two ranked points the one with the higher score comes first; of equal
/// scores that with the higher raw sum; of equal sums that with the lower id.
pub proof fn better_points_come_first(r: Seq<Fused>, i: int, j: int)
    requires
        ranking::in_rank_order(r),
        0 <= i < j < r.len(),
    ensures
        r[i].score.rank() >= r[j].score.rank(),
        r[i].score.rank() == r[j].score.rank() ==> r[i].raw.rank() >= r[j].raw.rank(),
        r[i].score.rank() == r[j].score.rank() && r[i].raw.rank() == r[j].raw.rank()
            ==> !text::text_precedes(r[j].id@, r[i].id@),
{
    assert(!r[j].precedes(&r[i]));
}

proof fn lemma_reaching_stays(items: Seq<Fused>, threshold: Option<Double>, x: Fused)
    requires
        items.contains(x),
        reaches(x.score, threshold),
    ensures
        reaching(items, threshold).contains(x),
    decreases items.len(),
{
    let i = choose|i: int| 0 <= i < items.len() && items[i] == x;
    let rest = items.drop_last();
    let r = reaching(rest, threshold);
    let all = reaching(items, threshold);
    if i < rest.len() {
        assert(rest[i] == x);
        lemma_reaching_stays(rest, threshold, x);
        let k = choose|k: int| 0 <= k < r.len() && r[k] == x;
        assert(all[k] == x);
    } else {
        assert(all[r.len() as int] == x);
    }
}

/// A point that reaches the threshold is left out only if as many points as were
/// asked for are there, and none of them is worse.
pub proof fn only_worse_points_are_left_out(
    items: Seq<Fused>,
    limit: nat,
    threshold: Option<Double>,
    r: Seq<Fused>,
    x: Fused,
)
    requires
        ranks(items, limit, threshold, r),
        items.contains(x),
        threshold matches Some(t) ==> t.at_most(x.score),
        !r.contains(x),
    ensures
        r.len() == limit,
        forall|i: int| 0 <= i < r.len() ==> (#[trigger] r[i]).score.rank() >= x.score.rank(),
{
    let s = choose|s: Seq<Fused>|
        {
            &&& #[trigger] ranking::in_rank_order(s)
            &&& s.to_multiset() == reaching(items, threshold).to_multiset()
            &&& r == s.take(
                if limit < s.len() {
                    limit as int
                } else {
                    s.len() as int
                },
            )
        };
    lemma_reaching_stays(items, threshold, x);
    let all = reaching(items, threshold);
    ranking::same_elements(s, all);
    let a = choose|a: int| 0 <= a < all.len() && all[a] == x;
    assert(s.contains(all[a]));
    let k = choose|k: int| 0 <= k < s.len() && s[k] == x;
    if k < r.len() {
        assert(r[k] == x);
    }
    assert forall|i: int| 0 <= i < r.len() implies (#[trigger] r[i]).score.rank()
        >= x.score.rank() by {
        assert(r[i] == s[i]);
        better_points_come_first(s, i, k);
    }
}

/// Every point of every arm is a hit: that at a place of an arm stands behind
/// those of the arms before and those at the places before, with its id, its
/// score and its place, counted from one.
pub proof fn every_point_is_a_hit(arms: Seq<Vec<ScoredId>>, hits: Seq<Hit>, arm: int, place: int)
    requires
        lists_hits(arms, hits),
        0 <= arm < arms.len(),
        0 <= place < arms[arm]@.len(),
    ensures
        ({
            let k = total_hits(arms, arm) + place;
            &&& 0 <= k < hits.len()
            &&& hits[k].arm == arm
            &&& hits[k].rank == place + 1
            &&& hits[k].id@ == arms[arm]@[place].id@
            &&& hits[k].score == arms[arm]@[place].score
        }),
{
    let k = total_hits(arms, arm) + place;
    lemma_total_grows(arms, 0, arm);
    lemma_total_grows(arms, arm + 1, arms.len() as int);
    assert(total_hits(arms, arm + 1) == total_hits(arms, arm) + arms[arm]@.len());
    assert(is_hit(hits[k], arms));
    let a = hits[k].arm as int;
    assert(total_hits(arms, a + 1) == total_hits(arms, a) + arms[a]@.len());
    if a < arm {
        lemma_total_grows(arms, a + 1, arm);
    } else if a > arm {
        lemma_total_grows(arms, arm + 1, a);
    }
}

proof fn lemma_total_grows(arms: Seq<Vec<ScoredId>>, m: int, n: int)
    requires
        0 <= m <= n,
    ensures
        0 <= total_hits(arms, m) <= total_hits(arms, n),
    decreases n,
{
    if m < n {
        lemma_total_grows(arms, m, n - 1);
    } else if n > 0 {
        lemma_total_grows(arms, 0, n - 1);
    }
}

/// A fused point is shown with its score and with the document of its first hit.
/// With raw scores it has one score for every arm that hit it, under the field
/// and the vector of that arm; else it has none.
pub proof fn results_are_placed_with_their_scores(
    r: PlacedResult,
    f: Fused,
    hits: Seq<Hit>,
    names: Seq<Seq<char>>,
    raw_scores: bool,
    k: int,
)
    requires
        places(r, f, hits, names, raw_scores),
    ensures
        r.score == f.score,
        r.hit < hits.len(),
        hits[r.hit as int].id@ == f.id@,
        forall|h: int| 0 <= h < r.hit ==> (#[trigger] hits[h]).id@ != f.id@,
        !raw_scores ==> r.vector_scores@.len() == 0,
        raw_scores && 0 <= k < hits.len() && hits[k].id@ == f.id@ ==> exists|v: int|
            0 <= v < r.vector_scores@.len() && (#[trigger] r.vector_scores@[v]).score
                == hits[k].score && r.vector_scores@[v].rank == hits[k].rank as u32
                && r.vector_scores@[v].field@ == functions::underscore_parts(
                names[hits[k].arm as int],
            ).0 && r.vector_scores@[v].vector@ == functions::underscore_parts(
                names[hits[k].arm as int],
            ).1,
{
    let n = hits.len() as int;
    let p = |i: int| hits[i].id@ == f.id@;
    let at = hits_of(hits, f.id@);
    indices::picked_is_exact(n, p);
    assert forall|h: int| 0 <= h < r.hit implies (#[trigger] hits[h]).id@ != f.id@ by {
        if p(h) {
            assert(at.contains(h));
            let x = choose|x: int| 0 <= x < at.len() && at[x] == h;
            if x > 0 {
                assert(at[0] < at[x]);
            }
        }
    }
    if raw_scores && 0 <= k < n && p(k) {
        assert(at.contains(k));
        let v = choose|v: int| 0 <= v < at.len() && at[v] == k;
        assert(is_score_of(
            r.vector_scores@[v],
            hits[at[v]],
            names[hits[at[v]].arm as int],
        ));
    }
}

/// A fused point is shown exactly if some arm hit it.
pub proof fn points_are_shown_if_hit(fused: Seq<Fused>, hits: Seq<Hit>, i: int)
    requires
        0 <= i < fused.len(),
    ensures
        shown(fused, hits, fused.len() as int).contains(i) <==> exists|k: int|
            0 <= k < hits.len() && (#[trigger] hits[k]).id@ == fused[i].id@,
{
    indices::picked_is_exact(
        fused.len() as int,
        |i: int| hit_ids(hits).contains(fused[i].id@),
    );
    let ids = hit_ids(hits);
    if ids.contains(fused[i].id@) {
        let k = choose|k: int| 0 <= k < ids.len() && ids[k] == fused[i].id@;
        assert(hits[k].id@ == fused[i].id@);
    }
    if exists|k: int| 0 <= k < hits.len() && (#[trigger] hits[k]).id@ == fused[i].id@ {
        let k = choose|k: int| 0 <= k < hits.len() && (#[trigger] hits[k]).id@ == fused[i].id@;
        assert(ids[k] == fused[i].id@);
    }
}

} // verus!
