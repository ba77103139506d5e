//! Sorting by a rank: the one order in which the library arranges results,
//! locks, facets and queue entries.

use vstd::prelude::*;
use crate::text;
use crate::text::text_before;

verus! {

/// Values with a strict weak order: some of them come before others.
pub trait Ranked: Sized {
    /// Whether the value comes before `other`.
    spec fn precedes(&self, other: &Self) -> bool;

    /// Of two values at most one comes before the other.
    proof fn precedes_asymmetric(a: &Self, b: &Self)
        ensures
            a.precedes(b) ==> !b.precedes(a),
    ;

    /// What is not before `b`, which is not before `c`, is not before `c`.
    proof fn not_precedes_transitive(a: &Self, b: &Self, c: &Self)
        ensures
            !a.precedes(b) && !b.precedes(c) ==> !a.precedes(c),
    ;

    /// Whether the value comes before `other`.
    fn before(&self, other: &Self) -> (r: bool)
        ensures
            r == self.precedes(other),
    ;
}

/// Whether no value stands behind one that it comes before.
pub open spec fn in_rank_order<T: Ranked>(s: Seq<T>) -> bool {
    forall|i: int, j: int|
        #![trigger s[i], s[j]]
        0 <= i < j < s.len() ==> !s[j].precedes(&s[i])
}

/// Puts a value where it belongs among values in rank order, behind those that
/// it does not come before.
fn insert_ranked<T: Ranked>(out: &mut Vec<T>, x: T)
    requires
        in_rank_order(old(out)@),
    ensures
        in_rank_order(final(out)@),
        final(out)@.to_multiset() == old(out)@.to_multiset().insert(x),
        final(out)@.len() == old(out)@.len() + 1,
{
    let mut at: usize = out.len();
    while at > 0 && x.before(&out[at - 1])
        invariant
            at <= out@.len(),
            forall|k: int| at <= k < out@.len() ==> x.precedes(&#[trigger] out@[k]),
        decreases at,
    {
        at -= 1;
    }
    let ghost before = out@;
    out.insert(at, x);
    proof {
        let after = out@;
        assert(after == before.insert(at as int, x));
        before.to_multiset_ensures();
        vstd::seq_lib::to_multiset_insert(before, at as int, x);
        assert forall|i: int, j: int|
            #![trigger after[i], after[j]]
            0 <= i < j < after.len() implies !after[j].precedes(&after[i]) by {
            if j < at {
                assert(after[j] == before[j] && after[i] == before[i]);
            } else if j == at {
                assert(after[i] == before[i]);
                if i < at - 1 {
                    assert(!before[at - 1].precedes(&before[i]));
                    T::not_precedes_transitive(&x, &before[at - 1], &before[i]);
                }
            } else if i == at {
                assert(after[j] == before[j - 1]);
                assert(x.precedes(&before[j - 1]));
                T::precedes_asymmetric(&x, &before[j - 1]);
            } else {
                let bi = if i < at {
                    i
                } else {
                    i - 1
                };
                assert(after[i] == before[bi]);
                assert(after[j] == before[j - 1]);
            }
        }
    }
}

/// Sorts values by rank.
pub fn sort_ranked<T: Ranked>(items: Vec<T>) -> (r: Vec<T>)
    ensures
        in_rank_order(r@),
        r@.to_multiset() == items@.to_multiset(),
        r@.len() == items@.len(),
{
    let ghost all = items@;
    let mut out: Vec<T> = Vec::new();
    proof {
        all.to_multiset_ensures();
        assert(all.take(0) =~= Seq::<T>::empty());
        assert(out@ =~= all.take(0));
    }
    for x in it: items
        invariant
            it.seq() == all,
            in_rank_order(out@),
            out@.len() == it.index(),
            out@.to_multiset() == all.take(it.index() as int).to_multiset(),
    {
        proof {
            let i = it.index() as int;
            assert(all.take(i + 1) =~= all.take(i).push(x));
            all.take(i).to_multiset_ensures();
        }
        insert_ranked(&mut out, x);
    }
    assert(all.take(all.len() as int) =~= all);
    out
}

/// What a sequence with the same elements holds, the other holds too.
pub proof fn same_elements<T>(a: Seq<T>, b: Seq<T>)
    requires
        a.to_multiset() == b.to_multiset(),
    ensures
        forall|i: int| 0 <= i < a.len() ==> b.contains(#[trigger] a[i]),
        forall|i: int| 0 <= i < b.len() ==> a.contains(#[trigger] b[i]),
        a.len() == b.len(),
{
    a.to_multiset_ensures();
    b.to_multiset_ensures();
    assert forall|i: int| 0 <= i < a.len() implies b.contains(#[trigger] a[i]) by {
        assert(a.contains(a[i]));
        assert(b.to_multiset().count(a[i]) > 0);
    }
    assert forall|i: int| 0 <= i < b.len() implies a.contains(#[trigger] b[i]) by {
        assert(b.contains(b[i]));
        assert(a.to_multiset().count(b[i]) > 0);
    }
    assert(a.to_multiset().len() == a.len());
    assert(b.to_multiset().len() == b.len());
}

/// A text, ranked by the order of its characters.
#[derive(Debug, PartialEq, Eq)]
pub struct RankedText {
    pub text: String,
}

impl Ranked for RankedText {
    open spec fn precedes(&self, other: &Self) -> bool {
        text::text_precedes(self.text@, other.text@)
    }

    proof fn precedes_asymmetric(a: &Self, b: &Self) {
        if text::text_precedes(a.text@, b.text@) && text::text_precedes(b.text@, a.text@) {
            text::text_precedes_transitive(a.text@, b.text@, a.text@);
            text::text_precedes_irreflexive(a.text@);
        }
    }

    proof fn not_precedes_transitive(a: &Self, b: &Self, c: &Self) {
        if !a.precedes(b) && !b.precedes(c) && a.precedes(c) {
            text::text_precedes_total(a.text@, b.text@);
            text::text_precedes_total(b.text@, c.text@);
            if a.text@ == b.text@ {
            } else if b.text@ == c.text@ {
            } else {
                text::text_precedes_transitive(c.text@, b.text@, a.text@);
                text::text_precedes_transitive(a.text@, c.text@, a.text@);
                text::text_precedes_irreflexive(a.text@);
            }
        }
    }

    fn before(&self, other: &Self) -> (r: bool) {
        text_before(self.text.as_str(), other.text.as_str())
    }
}

} // verus!
