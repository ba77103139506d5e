//! Positions picked from a list by a property, in ascending order.

use vstd::prelude::*;

verus! {

/// The numbers below `n` with the property, ascending.
pub open spec fn picked(n: int, p: spec_fn(int) -> bool) -> Seq<int>
    decreases n,
{
    if n <= 0 {
        Seq::empty()
    } else if p(n - 1) {
        picked(n - 1, p).push(n - 1)
    } else {
        picked(n - 1, p)
    }
}

/// Machine positions as integers.
pub open spec fn positions(v: Seq<usize>) -> Seq<int> {
    Seq::new(v.len(), |i: int| v[i] as int)
}

/// `picked` holds exactly the numbers below `n` with the property, ascending.
pub proof fn picked_is_exact(n: int, p: spec_fn(int) -> bool)
    ensures
        forall|i: int| #[trigger] picked(n, p).contains(i) <==> 0 <= i < n && p(i),
        forall|a: int, b: int|
            #![trigger picked(n, p)[a], picked(n, p)[b]]
            0 <= a < b < picked(n, p).len() ==> picked(n, p)[a] < picked(n, p)[b],
        forall|a: int|
            0 <= a < picked(n, p).len() ==> 0 <= #[trigger] picked(n, p)[a] < n && p(
                picked(n, p)[a],
            ),
        picked(n, p).len() <= if n < 0 {
            0
        } else {
            n
        },
    decreases n,
{
    if n > 0 {
        picked_is_exact(n - 1, p);
        let rest = picked(n - 1, p);
        let all = picked(n, p);
        assert forall|i: int| #[trigger] all.contains(i) <==> 0 <= i < n && p(i) by {
            if all.contains(i) {
                let k = choose|k: int| 0 <= k < all.len() && all[k] == i;
                if k < rest.len() {
                    assert(rest[k] == i);
                    assert(rest.contains(i));
                }
            }
            if 0 <= i < n && p(i) {
                if i == n - 1 {
                    assert(all[all.len() - 1] == i);
                } else {
                    assert(rest.contains(i));
                    let k = choose|k: int| 0 <= k < rest.len() && rest[k] == i;
                    assert(all[k] == i);
                }
            }
        }
    }
}

/// Nothing is picked by a property that no number has.
pub proof fn none_picked(n: int, p: spec_fn(int) -> bool)
    requires
        forall|i: int| 0 <= i < n ==> !(#[trigger] p(i)),
    ensures
        picked(n, p) == Seq::<int>::empty(),
    decreases n,
{
    if n > 0 {
        none_picked(n - 1, p);
    }
}

/// Properties that agree pick the same numbers.
pub proof fn same_picks(n: int, p: spec_fn(int) -> bool, q: spec_fn(int) -> bool)
    requires
        forall|i: int| 0 <= i < n ==> #[trigger] p(i) == q(i),
    ensures
        picked(n, p) == picked(n, q),
    decreases n,
{
    if n > 0 {
        assert(p(n - 1) == q(n - 1));
        same_picks(n - 1, p, q);
    }
}

/// The number of positions below `n` with the property.
pub open spec fn count_where(n: int, p: spec_fn(int) -> bool) -> int
    decreases n,
{
    if n <= 0 {
        0
    } else {
        count_where(n - 1, p) + if p(n - 1) {
            1int
        } else {
            0int
        }
    }
}

/// Whether positions are ascending and inside a list of `n`.
pub open spec fn ascending_below(positions: Seq<usize>, n: int) -> bool {
    &&& forall|k: int| 0 <= k < positions.len() ==> (#[trigger] positions[k]) < n
    &&& forall|a: int, b: int|
        #![trigger positions[a], positions[b]]
        0 <= a < b < positions.len() ==> positions[a] < positions[b]
}

/// What stands at some positions of a list.
pub open spec fn elements_at<T>(v: Seq<T>, positions: Seq<usize>) -> Seq<T> {
    Seq::new(positions.len(), |k: int| v[positions[k] as int])
}

/// Keeps what stands at ascending positions of a list, in order.
pub fn keep_at<T>(v: Vec<T>, positions: &Vec<usize>) -> (r: Vec<T>)
    requires
        ascending_below(positions@, v@.len() as int),
    ensures
        r@ == elements_at(v@, positions@),
{
    let ghost all = v@;
    let mut out: Vec<T> = Vec::new();
    let n: usize = v.len();
    let mut k: usize = 0;
    let mut i: usize = 0;
    for x in it: v
        invariant
            it.seq() == all,
            i == it.index(),
            k <= positions@.len(),
            ascending_below(positions@, all.len() as int),
            out@ == elements_at(all, positions@.take(k as int)),
            forall|j: int| k <= j < positions@.len() ==> i <= #[trigger] positions@[j],
            all.len() == n,
    {
        if k < positions.len() && positions[k] == i {
            let ghost before = out@;
            out.push(x);
            assert(elements_at(all, positions@.take(k as int + 1)) =~= before.push(all[i as int]));
            k += 1;
        }
        i += 1;
    }
    assert(k == positions@.len()) by {
        if k < positions@.len() {
            assert(positions@[k as int] < all.len());
        }
    }
    assert(positions@.take(k as int) =~= positions@);
    out
}

/// As many positions are picked as have the property.
pub proof fn picks_are_counted(n: int, p: spec_fn(int) -> bool)
    ensures
        picked(n, p).len() == count_where(n, p),
    decreases n,
{
    if n > 0 {
        picks_are_counted(n - 1, p);
    }
}

/// Properties that agree are had by as many positions.
pub proof fn same_counts(n: int, p: spec_fn(int) -> bool, q: spec_fn(int) -> bool)
    requires
        forall|i: int| 0 <= i < n ==> #[trigger] p(i) == q(i),
    ensures
        count_where(n, p) == count_where(n, q),
    decreases n,
{
    if n > 0 {
        assert(p(n - 1) == q(n - 1));
        same_counts(n - 1, p, q);
    }
}

/// As many positions have one of two properties that exclude each other as have
/// the one and as have the other.
pub proof fn counts_add_up(
    n: int,
    p: spec_fn(int) -> bool,
    q: spec_fn(int) -> bool,
    either: spec_fn(int) -> bool,
)
    requires
        forall|i: int| 0 <= i < n ==> #[trigger] either(i) == (p(i) || q(i)),
        forall|i: int| 0 <= i < n ==> !(#[trigger] p(i) && q(i)),
    ensures
        count_where(n, either) == count_where(n, p) + count_where(n, q),
    decreases n,
{
    if n > 0 {
        assert(either(n - 1) == (p(n - 1) || q(n - 1)));
        assert(!(p(n - 1) && q(n - 1)));
        counts_add_up(n - 1, p, q, either);
    }
}

/// All of the positions have a property that every one has.
pub proof fn all_are_counted(n: int, p: spec_fn(int) -> bool)
    requires
        n >= 0,
        forall|i: int| 0 <= i < n ==> #[trigger] p(i),
    ensures
        count_where(n, p) == n,
    decreases n,
{
    if n > 0 {
        assert(p(n - 1));
        all_are_counted(n - 1, p);
    }
}

} // verus!
