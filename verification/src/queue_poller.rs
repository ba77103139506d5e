//! What the standalone poller does with the operations it claims from the
//! queue: when they are due, how a batch of them is carried out, and what
//! becomes of their rows.

use vstd::prelude::*;
use crate::datetime_parse::Timestamp;
use crate::encoder;
use crate::encoder::{BulkUpsertOutcome, UpsertSyncError};
use crate::indices;
use crate::ingress;
use crate::ingress::{group_by_name, Group};
use crate::models::{QueueDocument, QueueOperationType, QueuedDocumentStatus};
use crate::ranking;
use crate::ranking::{sort_ranked, Ranked};
use crate::text;
use crate::text::{same_text, text_before, text_in};

verus! {

/// How often operations are tried, and how long they wait at most.
#[derive(Debug, Clone, Copy, PartialEq, Eq, Structural)]
pub struct RetryLimits {
    /// Tries after which any other failure is final.
    pub db_retries: u32,
    /// Tries after which a failure of the vectorizer is final.
    pub delivery_attempts: u32,
    /// The longest wait between tries, in milliseconds.
    pub max_sleep_ms: u64,
}

/// How long an operation waits before its next try: two seconds for each try
/// so far and a spread between a tenth of a second and a second and a half that
/// the number of tries decides, in milliseconds.
pub open spec fn retry_delay(try_count: u32, max_sleep_ms: u64) -> int {
    let wanted = 2000 * try_count + 100 + try_count.wrapping_mul(2654435761) % 1400;
    if wanted < max_sleep_ms {
        wanted
    } else {
        max_sleep_ms as int
    }
}

/// How long an operation waits before its next try, in milliseconds.
pub fn retry_delay_ms(try_count: u32, max_sleep_ms: u64) -> (r: u64)
    ensures
        r == retry_delay(try_count, max_sleep_ms),
{
    let spread: u32 = try_count.wrapping_mul(2654435761) % 1400;
    let wanted: u64 = 2000 * try_count as u64 + 100 + spread as u64;
    if wanted < max_sleep_ms {
        wanted
    } else {
        max_sleep_ms
    }
}

/// Whether an operation that was last touched `elapsed_ms` ago is due.
pub fn backoff_elapsed(try_count: u32, elapsed_ms: i64, max_sleep_ms: u64) -> (r: bool)
    ensures
        r == (try_count == 0 || elapsed_ms >= retry_delay(try_count, max_sleep_ms)),
{
    if try_count == 0 {
        return true;
    }
    let needed = retry_delay_ms(try_count, max_sleep_ms);
    elapsed_ms >= 0 && elapsed_ms as u64 >= needed
}

/// An operation that was never tried is due at once, and one that was tried
/// waits at least a tenth of a second unless the limit is shorter.
pub proof fn retries_wait(try_count: u32, max_sleep_ms: u64)
    requires
        try_count > 0,
    ensures
        retry_delay(try_count, max_sleep_ms) <= max_sleep_ms,
        max_sleep_ms >= 2100 ==> retry_delay(try_count, max_sleep_ms) >= 2100,
{
}

/// What becomes of a queue row.
#[derive(Debug, PartialEq, Eq)]
pub enum RowAction {
    /// The operation is done: remove the row.
    Remove(String),
    /// The row is gone, or someone else's: leave it.
    Leave,
    /// The operation failed: count the try and note why.
    Mark(RowMark),
}

#[derive(Debug, PartialEq, Eq)]
pub struct RowMark {
    pub queue_id: String,
    pub try_count: u32,
    pub status: QueuedDocumentStatus,
    pub info: String,
}

/// The status of a row after a failure, when it will have been tried
/// `new_try` times.
pub open spec fn failure_status(
    err: UpsertSyncError,
    new_try: u32,
    limits: RetryLimits,
) -> QueuedDocumentStatus {
    match err {
        UpsertSyncError::Validation(_)
        | UpsertSyncError::QueueCollectionMismatch(_)
        | UpsertSyncError::NotFound(_) => QueuedDocumentStatus::Failed,
        UpsertSyncError::Vectorization(_) => if new_try < limits.delivery_attempts {
            QueuedDocumentStatus::Requeued
        } else {
            QueuedDocumentStatus::Failed
        },
        _ => if new_try < limits.db_retries {
            QueuedDocumentStatus::Requeued
        } else {
            QueuedDocumentStatus::Failed
        },
    }
}

/// Whether `a` is what becomes of a row whose operation failed.
pub open spec fn marks(
    queue_id: Seq<char>,
    try_count: u32,
    err: UpsertSyncError,
    limits: RetryLimits,
    a: RowAction,
) -> bool {
    if err is QueueEntryGone {
        a is Leave
    } else {
        a matches RowAction::Mark(m) && m.queue_id@ == queue_id && m.try_count
            == try_count.saturating_add(1) && m.status == failure_status(
            err,
            m.try_count,
            limits,
        ) && m.info@ == encoder::upsert_error_text(err)
    }
}

/// What becomes of a row whose operation failed.
pub fn mark_outcome(queue_id: &str, try_count: u32, err: &UpsertSyncError, limits: &RetryLimits) -> (a:
    RowAction)
    ensures
        marks(queue_id@, try_count, *err, *limits, a),
{
    let new_try: u32 = try_count.saturating_add(1);
    let status = match err {
        UpsertSyncError::QueueEntryGone => {
            return RowAction::Leave;
        },
        UpsertSyncError::Validation(_)
        | UpsertSyncError::QueueCollectionMismatch(_)
        | UpsertSyncError::NotFound(_) => QueuedDocumentStatus::Failed,
        UpsertSyncError::Vectorization(_) => if new_try < limits.delivery_attempts {
            QueuedDocumentStatus::Requeued
        } else {
            QueuedDocumentStatus::Failed
        },
        _ => if new_try < limits.db_retries {
            QueuedDocumentStatus::Requeued
        } else {
            QueuedDocumentStatus::Failed
        },
    };
    RowAction::Mark(
        RowMark {
            queue_id: queue_id.to_owned(),
            try_count: new_try,
            status,
            info: err.message(),
        },
    )
}

/// A failure that retrying cannot mend is final at the first try.
pub proof fn hopeless_operations_fail_at_once(
    err: UpsertSyncError,
    new_try: u32,
    limits: RetryLimits,
)
    requires
        err is Validation || err is QueueCollectionMismatch || err is NotFound,
    ensures
        failure_status(err, new_try, limits) is Failed,
{
}

/// An upsert of a claimed batch: the document's id and timestamp and the
/// operation's position in the batch. Ranked by all three.
#[derive(Debug, PartialEq, Eq)]
pub struct UpsertWork {
    pub id: String,
    pub timestamp: Timestamp,
    pub position: usize,
}

/// Whether, by timestamp and then position, the first work comes before the
/// second.
pub open spec fn older(a: UpsertWork, b: UpsertWork) -> bool {
    a.timestamp.precedes(b.timestamp) || (a.timestamp == b.timestamp && a.position < b.position)
}

impl Ranked for UpsertWork {
    open spec fn precedes(&self, other: &Self) -> bool {
        text::text_precedes(self.id@, other.id@) || (self.id@ == other.id@ && older(*self, *other))
    }

    proof fn precedes_asymmetric(a: &Self, b: &Self) {
        text::text_precedes_irreflexive(a.id@);
        if text::text_precedes(a.id@, b.id@) && text::text_precedes(b.id@, a.id@) {
            text::text_precedes_transitive(a.id@, b.id@, a.id@);
        }
    }

    proof fn not_precedes_transitive(a: &Self, b: &Self, c: &Self) {
        text::text_precedes_irreflexive(a.id@);
        text::text_precedes_total(a.id@, b.id@);
        text::text_precedes_total(b.id@, c.id@);
        if text::text_precedes(b.id@, a.id@) && text::text_precedes(c.id@, b.id@) {
            text::text_precedes_transitive(c.id@, b.id@, a.id@);
            if text::text_precedes(a.id@, c.id@) {
                text::text_precedes_transitive(a.id@, c.id@, a.id@);
            }
        } else if text::text_precedes(b.id@, a.id@) && b.id@ == c.id@ {
            if text::text_precedes(a.id@, c.id@) {
                text::text_precedes_transitive(a.id@, c.id@, a.id@);
            }
        } else if a.id@ == b.id@ && text::text_precedes(c.id@, b.id@) {
            if text::text_precedes(a.id@, c.id@) {
                text::text_precedes_transitive(a.id@, c.id@, a.id@);
            }
        }
    }

    fn before(&self, other: &Self) -> (r: bool) {
        if text_before(self.id.as_str(), other.id.as_str()) {
            return true;
        }
        if !same_text(self.id.as_str(), other.id.as_str()) {
            return false;
        }
        self.timestamp.before(&other.timestamp) || (self.timestamp == other.timestamp
            && self.position < other.position)
    }
}

/// Whether a work is the newest of its document among `works`; of equally new
/// ones the last in the batch.
pub open spec fn is_latest(works: Seq<UpsertWork>, w: UpsertWork) -> bool {
    forall|k: int|
        0 <= k < works.len() && (#[trigger] works[k]).id@ == w.id@ ==> works[k] == w || older(
            works[k],
            w,
        )
}

/// Which upserts of a collection are carried out, and which are superseded by
/// newer ones of the same document.
#[derive(Debug, PartialEq, Eq)]
pub struct Selection {
    pub winners: Vec<UpsertWork>,
    pub superseded: Vec<UpsertWork>,
}

/// Whether a selection tells winners from superseded works: the winners are
/// the latest of their documents, stand in ascending order of the ids, and
/// together with the superseded works are all the works there are.
pub open spec fn selects(works: Seq<UpsertWork>, s: Selection) -> bool {
    &&& forall|k: int| 0 <= k < s.winners@.len() ==> is_latest(works, #[trigger] s.winners@[k])
    &&& forall|k: int|
        0 <= k < s.superseded@.len() ==> !is_latest(works, #[trigger] s.superseded@[k])
    &&& forall|a: int, b: int|
        #![trigger s.winners@[a], s.winners@[b]]
        0 <= a < b < s.winners@.len() ==> text::text_precedes(
            s.winners@[a].id@,
            s.winners@[b].id@,
        )
    &&& (s.winners@ + s.superseded@).to_multiset() == works.to_multiset()
}

/// Tells the newest upsert of each document from those it supersedes.
pub fn select_newest(works: Vec<UpsertWork>) -> (r: Selection)
    requires
        forall|a: int, b: int|
            #![trigger works@[a], works@[b]]
            0 <= a < b < works@.len() ==> works@[a].position != works@[b].position,
    ensures
        selects(works@, r),
{
    let ghost all = works@;
    let sorted = sort_ranked(works);
    let ghost ranked = sorted@;
    proof {
        ranking::same_elements(ranked, all);
    }
    let mut winners: Vec<UpsertWork> = Vec::new();
    let mut superseded: Vec<UpsertWork> = Vec::new();
    proof {
        assert(winners@ + superseded@ =~= ranked.take(0));
    }
    for w in it: sorted
        invariant
            it.seq() == ranked,
            ranking::in_rank_order(ranked),
            it.index() > 0 ==> winners@.len() > 0 && winners@.last() == ranked[it.index() - 1],
            it.index() == 0 ==> winners@.len() == 0,
            forall|a: int, b: int|
                #![trigger winners@[a], winners@[b]]
                0 <= a < b < winners@.len() ==> text::text_precedes(
                    winners@[a].id@,
                    winners@[b].id@,
                ),
            forall|k: int|
                0 <= k < superseded@.len() ==> has_successor(ranked, #[trigger] superseded@[k]),
            forall|k: int|
                0 <= k < winners@.len() - 1 ==> ends_run(ranked, #[trigger] winners@[k]),
            (winners@ + superseded@).to_multiset() == ranked.take(it.index() as int).to_multiset(),
    {
        let ghost i = it.index() as int;
        let ghost w0 = winners@;
        let ghost s0 = superseded@;
        proof {
            assert(ranked.take(i + 1) =~= ranked.take(i).push(w));
            ranked.take(i).to_multiset_ensures();
            (w0 + s0).to_multiset_ensures();
        }
        let same = winners.len() > 0 && same_text(
            winners[winners.len() - 1].id.as_str(),
            w.id.as_str(),
        );
        if same {
            let prev = winners.pop().unwrap();
            superseded.push(prev);
            winners.push(w);
            proof {
                assert(prev == ranked[i - 1]);
                assert(has_successor(ranked, prev));
                lemma_replace_multiset(w0, s0, w);
            }
        } else {
            winners.push(w);
            proof {
                vstd::seq_lib::lemma_multiset_commutative(w0.push(w), s0);
                vstd::seq_lib::lemma_multiset_commutative(w0, s0);
                w0.to_multiset_ensures();
                assert((w0.push(w) + s0).to_multiset() =~= (w0 + s0).to_multiset().insert(w));
                if w0.len() > 0 {
                    assert(!ranked[i].precedes(&ranked[i - 1]));
                    text::text_precedes_total(w0.last().id@, w.id@);
                    assert(ends_run(ranked, ranked[i - 1]));
                    assert forall|a: int, b: int|
                        #![trigger winners@[a], winners@[b]]
                        0 <= a < b < winners@.len() implies text::text_precedes(
                        winners@[a].id@,
                        winners@[b].id@,
                    ) by {
                        if b == w0.len() {
                            if a < w0.len() - 1 {
                                assert(text::text_precedes(w0[a].id@, w0[w0.len() - 1].id@));
                                text::text_precedes_transitive(w0[a].id@, w0.last().id@, w.id@);
                            }
                        } else {
                            assert(text::text_precedes(w0[a].id@, w0[b].id@));
                        }
                    }
                }
            }
        }
    }
    let r = Selection { winners, superseded };
    proof {
        assert(ranked.take(ranked.len() as int) =~= ranked);
        assert forall|k: int| 0 <= k < r.winners@.len() implies is_latest(
            all,
            #[trigger] r.winners@[k],
        ) by {
            if k == r.winners@.len() - 1 {
                assert(r.winners@.last() == ranked[ranked.len() - 1]);
                assert(ends_run(ranked, ranked[ranked.len() - 1]));
            }
            assert(ends_run(ranked, r.winners@[k]));
            lemma_run_end_is_latest(all, ranked, r.winners@[k]);
        }
        assert forall|k: int| 0 <= k < r.superseded@.len() implies !is_latest(
            all,
            #[trigger] r.superseded@[k],
        ) by {
            lemma_successor_is_later(all, ranked, r.superseded@[k]);
        }
    }
    r
}

/// Whether the work is followed by another of the same document.
pub open spec fn has_successor(ranked: Seq<UpsertWork>, w: UpsertWork) -> bool {
    exists|i: int|
        0 <= i < ranked.len() - 1 && (#[trigger] ranked[i]) == w && ranked[i + 1].id@ == w.id@
}

/// Whether the work is the last of its document.
pub open spec fn ends_run(ranked: Seq<UpsertWork>, w: UpsertWork) -> bool {
    exists|i: int|
        0 <= i < ranked.len() && (#[trigger] ranked[i]) == w && (i == ranked.len() - 1 || ranked[i
            + 1].id@ != w.id@)
}

proof fn lemma_replace_multiset(w0: Seq<UpsertWork>, s0: Seq<UpsertWork>, w: UpsertWork)
    requires
        w0.len() > 0,
    ensures
        (w0.drop_last().push(w) + s0.push(w0.last())).to_multiset() == (w0
            + s0).to_multiset().insert(w),
{
    let init = w0.drop_last();
    let prev = w0.last();
    vstd::seq_lib::lemma_multiset_commutative(init.push(w), s0.push(prev));
    vstd::seq_lib::lemma_multiset_commutative(w0, s0);
    init.to_multiset_ensures();
    s0.to_multiset_ensures();
    assert(w0 =~= init.push(prev));
    assert((init.push(w) + s0.push(prev)).to_multiset() =~= (w0 + s0).to_multiset().insert(w));
}

proof fn lemma_run_end_is_latest(all: Seq<UpsertWork>, ranked: Seq<UpsertWork>, w: UpsertWork)
    requires
        ranking::in_rank_order(ranked),
        all.to_multiset() == ranked.to_multiset(),
        ends_run(ranked, w),
        forall|a: int, b: int|
            #![trigger all[a], all[b]]
            0 <= a < b < all.len() ==> all[a].position != all[b].position,
    ensures
        is_latest(all, w),
{
    ranking::same_elements(all, ranked);
    let i = choose|i: int|
        0 <= i < ranked.len() && (#[trigger] ranked[i]) == w && (i == ranked.len() - 1 || ranked[i
            + 1].id@ != w.id@);
    let wi = choose|j: int| 0 <= j < all.len() && all[j] == ranked[i];
    assert(all.contains(ranked[i]));
    assert forall|k: int| 0 <= k < all.len() && (#[trigger] all[k]).id@ == w.id@ implies all[k]
        == w || older(all[k], w) by {
        assert(ranked.contains(all[k]));
        let m = choose|m: int| 0 <= m < ranked.len() && ranked[m] == all[k];
        if m < i {
            assert(!ranked[i].precedes(&ranked[m]));
            if all[k] != w && !older(all[k], w) {
                assert(!older(w, all[k]));
                assert(k != wi);
                assert(all[k].position != all[wi].position);
            }
        } else if m > i {
            assert(!ranked[m].precedes(&ranked[i + 1]));
            assert(!ranked[i + 1].precedes(&ranked[i]));
            text::text_precedes_total(ranked[i + 1].id@, w.id@);
            text::text_precedes_irreflexive(w.id@);
            assert(text::text_precedes(w.id@, ranked[i + 1].id@));
            if m > i + 1 {
                assert(!text::text_precedes(ranked[m].id@, ranked[i + 1].id@));
            }
            assert(false);
        }
    }
}

proof fn lemma_successor_is_later(all: Seq<UpsertWork>, ranked: Seq<UpsertWork>, w: UpsertWork)
    requires
        ranking::in_rank_order(ranked),
        all.to_multiset() == ranked.to_multiset(),
        has_successor(ranked, w),
        forall|a: int, b: int|
            #![trigger all[a], all[b]]
            0 <= a < b < all.len() ==> all[a].position != all[b].position,
    ensures
        !is_latest(all, w),
{
    ranking::same_elements(all, ranked);
    let i = choose|i: int|
        0 <= i < ranked.len() - 1 && (#[trigger] ranked[i]) == w && ranked[i + 1].id@ == w.id@;
    let next = ranked[i + 1];
    assert(!next.precedes(&ranked[i]));
    assert(all.contains(ranked[i + 1]));
    let k = choose|k: int| 0 <= k < all.len() && all[k] == next;
    if is_latest(all, w) {
        assert(all[k].id@ == w.id@);
        assert(next == w);
        lemma_no_duplicates(all, ranked, i, i + 1);
    }
}

proof fn lemma_no_duplicates(all: Seq<UpsertWork>, ranked: Seq<UpsertWork>, a: int, b: int)
    requires
        all.to_multiset() == ranked.to_multiset(),
        0 <= a < b < ranked.len(),
        forall|a: int, b: int|
            #![trigger all[a], all[b]]
            0 <= a < b < all.len() ==> all[a].position != all[b].position,
    ensures
        ranked[a] != ranked[b],
{
    assert(all.no_duplicates()) by {
        assert forall|i: int, j: int|
            0 <= i < all.len() && 0 <= j < all.len() && i != j implies all[i] != all[j] by {
            if i < j {
                assert(all[i].position != all[j].position);
            } else {
                assert(all[j].position != all[i].position);
            }
        }
    }
    all.lemma_multiset_has_no_duplicates();
    assert forall|x: UpsertWork| #[trigger]
        ranked.to_multiset().contains(x) implies ranked.to_multiset().count(x) == 1 by {
        assert(all.to_multiset().contains(x));
    }
    ranked.lemma_multiset_has_no_duplicates_conv();
}

/// What is to be done with an operation of a claimed batch.
#[derive(Debug, Clone, Copy, PartialEq, Eq, Structural)]
pub enum Duty {
    /// An upsert without a document: the row fails.
    Fail,
    Upsert,
    Delete,
}

pub open spec fn duty(entry: QueueDocument) -> Duty {
    match entry.op_type {
        QueueOperationType::Delete => Duty::Delete,
        QueueOperationType::Upsert => if entry.document is None {
            Duty::Fail
        } else {
            Duty::Upsert
        },
    }
}

fn duty_of(entry: &QueueDocument) -> (r: Duty)
    ensures
        r == duty(*entry),
{
    match entry.op_type {
        QueueOperationType::Delete => Duty::Delete,
        QueueOperationType::Upsert => if entry.document.is_none() {
            Duty::Fail
        } else {
            Duty::Upsert
        },
    }
}

/// The positions of a batch's operations by what is to be done with them.
#[derive(Debug, PartialEq, Eq)]
pub struct Duties {
    pub failed: Vec<usize>,
    pub upserts: Vec<usize>,
    pub deletes: Vec<usize>,
}

/// Sorts the operations of a claimed batch by what is to be done with them.
pub fn split_duties(entries: &Vec<QueueDocument>) -> (r: Duties)
    ensures
        indices::positions(r.failed@) == indices::picked(
            entries@.len() as int,
            |i: int| duty(entries@[i]) is Fail,
        ),
        indices::positions(r.upserts@) == indices::picked(
            entries@.len() as int,
            |i: int| duty(entries@[i]) is Upsert,
        ),
        indices::positions(r.deletes@) == indices::picked(
            entries@.len() as int,
            |i: int| duty(entries@[i]) is Delete,
        ),
{
    let mut failed: Vec<usize> = Vec::new();
    let mut upserts: Vec<usize> = Vec::new();
    let mut deletes: Vec<usize> = Vec::new();
    let ghost f = |i: int| duty(entries@[i]) is Fail;
    let ghost u = |i: int| duty(entries@[i]) is Upsert;
    let ghost d = |i: int| duty(entries@[i]) is Delete;
    assert(indices::positions(failed@) =~= indices::picked(0, f));
    assert(indices::positions(upserts@) =~= indices::picked(0, u));
    assert(indices::positions(deletes@) =~= indices::picked(0, d));
    let mut i: usize = 0;
    while i < entries.len()
        invariant
            i <= entries@.len(),
            f == (|i: int| duty(entries@[i]) is Fail),
            u == (|i: int| duty(entries@[i]) is Upsert),
            d == (|i: int| duty(entries@[i]) is Delete),
            indices::positions(failed@) == indices::picked(i as int, f),
            indices::positions(upserts@) == indices::picked(i as int, u),
            indices::positions(deletes@) == indices::picked(i as int, d),
        decreases entries.len() - i,
    {
        let ghost f0 = failed@;
        let ghost u0 = upserts@;
        let ghost d0 = deletes@;
        match duty_of(&entries[i]) {
            Duty::Fail => {
                failed.push(i);
                assert(indices::positions(failed@) =~= indices::positions(f0).push(i as int));
            },
            Duty::Upsert => {
                upserts.push(i);
                assert(indices::positions(upserts@) =~= indices::positions(u0).push(i as int));
            },
            Duty::Delete => {
                deletes.push(i);
                assert(indices::positions(deletes@) =~= indices::positions(d0).push(i as int));
            },
        }
        i += 1;
    }
    Duties { failed, upserts, deletes }
}

/// Every operation of a batch is failed, upserted or deleted, and only one of
/// these.
pub proof fn every_operation_has_one_duty(entries: Seq<QueueDocument>, i: int)
    requires
        0 <= i < entries.len(),
    ensures
        indices::picked(entries.len() as int, |i: int| duty(entries[i]) is Fail).contains(i)
            || indices::picked(entries.len() as int, |i: int| duty(entries[i]) is Upsert).contains(
            i,
        ) || indices::picked(entries.len() as int, |i: int| duty(entries[i]) is Delete).contains(i),
        !(indices::picked(entries.len() as int, |i: int| duty(entries[i]) is Fail).contains(i)
            && indices::picked(entries.len() as int, |i: int| duty(entries[i]) is Upsert).contains(
            i,
        )),
        !(indices::picked(entries.len() as int, |i: int| duty(entries[i]) is Upsert).contains(i)
            && indices::picked(entries.len() as int, |i: int| duty(entries[i]) is Delete).contains(
            i,
        )),
        !(indices::picked(entries.len() as int, |i: int| duty(entries[i]) is Fail).contains(i)
            && indices::picked(entries.len() as int, |i: int| duty(entries[i]) is Delete).contains(
            i,
        )),
{
    indices::picked_is_exact(entries.len() as int, |i: int| duty(entries[i]) is Fail);
    indices::picked_is_exact(entries.len() as int, |i: int| duty(entries[i]) is Upsert);
    indices::picked_is_exact(entries.len() as int, |i: int| duty(entries[i]) is Delete);
}

/// What becomes of the row of an upsert that holds no document.
pub fn mark_missing_document(queue_id: &str, try_count: u32) -> (a: RowAction)
    ensures
        a matches RowAction::Mark(m) && m.queue_id@ == queue_id@ && m.try_count
            == try_count.saturating_add(1) && m.status is Failed && m.info@
            == "missing document payload"@,
{
    RowAction::Mark(
        RowMark {
            queue_id: queue_id.to_owned(),
            try_count: try_count.saturating_add(1),
            status: QueuedDocumentStatus::Failed,
            info: "missing document payload".to_owned(),
        },
    )
}

/// The upserts of one collection of a batch: the collection's name with the
/// places of its operations in the list of upserts, and which of them are
/// carried out.
#[derive(Debug, PartialEq, Eq)]
pub struct CollectionUpserts {
    pub group: Group,
    pub selection: Selection,
}

/// The groups behind the upserts of a batch.
pub open spec fn groups_of(v: Seq<CollectionUpserts>) -> Seq<Group> {
    Seq::new(v.len(), |g: int| v[g].group)
}

/// The collections of the operations at some positions.
pub open spec fn collections_at(entries: Seq<QueueDocument>, upserts: Seq<usize>) -> Seq<Seq<char>> {
    Seq::new(upserts.len(), |k: int| entries[upserts[k] as int].collection_name@)
}

/// The works of some positions of a batch.
pub open spec fn works_at(entries: Seq<QueueDocument>, works: Seq<UpsertWork>, positions: Seq<
    usize,
>) -> bool {
    &&& works.len() == positions.len()
    &&& forall|k: int|
        0 <= k < works.len() ==> (#[trigger] works[k]).position == positions[k] && works[k].id@
            == entries[positions[k] as int].document->0.id@ && works[k].timestamp
            == entries[positions[k] as int].document->0.timestamp
}

/// Whether the upserts of one collection are selected from its operations.
pub open spec fn serves(
    entries: Seq<QueueDocument>,
    upserts: Seq<usize>,
    c: CollectionUpserts,
) -> bool {
    exists|works: Seq<UpsertWork>|
        #![trigger selects(works, c.selection)]
        works_at(
            entries,
            works,
            Seq::new(c.group.members@.len(), |k: int| upserts[c.group.members@[k] as int]),
        ) && selects(works, c.selection)
}

fn collection_names(entries: &Vec<QueueDocument>, upserts: &Vec<usize>) -> (r: Vec<String>)
    requires
        forall|k: int| 0 <= k < upserts@.len() ==> (#[trigger] upserts@[k]) < entries@.len(),
    ensures
        text::views(r@) == collections_at(entries@, upserts@),
{
    let mut out: Vec<String> = Vec::new();
    let mut k: usize = 0;
    while k < upserts.len()
        invariant
            k <= upserts@.len(),
            out@.len() == k,
            forall|j: int| 0 <= j < upserts@.len() ==> (#[trigger] upserts@[j]) < entries@.len(),
            forall|j: int|
                0 <= j < k ==> (#[trigger] out@[j])@
                    == entries@[upserts@[j] as int].collection_name@,
        decreases upserts.len() - k,
    {
        out.push(entries[upserts[k]].collection_name.clone());
        k += 1;
    }
    assert(text::views(out@) =~= collections_at(entries@, upserts@));
    out
}

/// The upserts of a batch, collection by collection: which of them are carried
/// out, and which are superseded.
pub fn plan_upserts(entries: &Vec<QueueDocument>, upserts: &Vec<usize>) -> (r: Vec<
    CollectionUpserts,
>)
    requires
        forall|k: int| 0 <= k < upserts@.len() ==> (#[trigger] upserts@[k]) < entries@.len(),
        forall|k: int|
            0 <= k < upserts@.len() ==> duty(entries@[#[trigger] upserts@[k] as int]) is Upsert,
        forall|a: int, b: int|
            #![trigger upserts@[a], upserts@[b]]
            0 <= a < b < upserts@.len() ==> upserts@[a] < upserts@[b],
    ensures
        ingress::gathers(
            collections_at(entries@, upserts@),
            upserts@.len() as int,
            groups_of(r@),
        ),
        forall|g: int| 0 <= g < r@.len() ==> serves(entries@, upserts@, #[trigger] r@[g]),
{
    let names = collection_names(entries, upserts);
    let groups = group_by_name(&names);
    let ghost all_names = text::views(names@);
    let ghost all_groups = groups@;
    assert(all_names.len() == names@.len());
    let mut out: Vec<CollectionUpserts> = Vec::new();
    for group in it: groups
        invariant
            it.seq() == all_groups,
            out@.len() == it.index(),
            forall|h: int| 0 <= h < it.index() ==> (#[trigger] out@[h]).group == all_groups[h],
            all_names.len() == upserts@.len(),
            ingress::gathers(all_names, upserts@.len() as int, all_groups),
            forall|k: int| 0 <= k < upserts@.len() ==> (#[trigger] upserts@[k]) < entries@.len(),
            forall|k: int|
                0 <= k < upserts@.len() ==> duty(entries@[#[trigger] upserts@[k] as int]) is Upsert,
            forall|a: int, b: int|
                #![trigger upserts@[a], upserts@[b]]
                0 <= a < b < upserts@.len() ==> upserts@[a] < upserts@[b],
            forall|h: int|
                0 <= h < it.index() ==> serves(entries@, upserts@, #[trigger] out@[h]),
    {
        let members = &group.members;
        let ghost at = Seq::new(members@.len(), |k: int| upserts@[members@[k] as int]);
        proof {
            assert(group == all_groups[it.index() as int]);
            let p = |i: int| all_names[i] == group.name@;
            indices::picked_is_exact(upserts@.len() as int, p);
            assert(indices::positions(members@) == indices::picked(upserts@.len() as int, p));
            assert forall|k: int| 0 <= k < members@.len() implies (#[trigger] members@[k])
                < upserts@.len() by {
                assert(indices::positions(members@)[k] == indices::picked(
                    upserts@.len() as int,
                    p,
                )[k]);
            }
            assert forall|a: int, b: int|
                #![trigger members@[a], members@[b]]
                0 <= a < b < members@.len() implies members@[a] < members@[b] by {
                assert(indices::positions(members@)[a] == indices::picked(
                    upserts@.len() as int,
                    p,
                )[a]);
                assert(indices::positions(members@)[b] == indices::picked(
                    upserts@.len() as int,
                    p,
                )[b]);
            }
        }
        let mut works: Vec<UpsertWork> = Vec::new();
        let mut k: usize = 0;
        while k < members.len()
            invariant
                k <= members@.len(),
                works@.len() == k,
                at == Seq::new(members@.len(), |k: int| upserts@[members@[k] as int]),
                forall|j: int|
                    0 <= j < members@.len() ==> (#[trigger] members@[j]) < upserts@.len(),
                forall|j: int|
                    0 <= j < upserts@.len() ==> (#[trigger] upserts@[j]) < entries@.len(),
                forall|j: int|
                    0 <= j < upserts@.len() ==> duty(
                        entries@[#[trigger] upserts@[j] as int],
                    ) is Upsert,
                works_at(entries@, works@, at.take(k as int)),
            decreases members.len() - k,
        {
            let position = upserts[members[k]];
            assert(duty(entries@[position as int]) is Upsert);
            if let Some(d) = &entries[position].document {
                works.push(
                    UpsertWork { id: d.id.clone(), timestamp: d.timestamp, position },
                );
            }
            k += 1;
        }
        assert(at.take(k as int) =~= at);
        proof {
            assert forall|a: int, b: int|
                #![trigger works@[a], works@[b]]
                0 <= a < b < works@.len() implies works@[a].position != works@[b].position by {
                assert(members@[a] < members@[b]);
                assert(upserts@[members@[a] as int] < upserts@[members@[b] as int]);
                assert(works@[a].position == at[a]);
                assert(works@[b].position == at[b]);
            }
        }
        let ghost gathered = works@;
        let selection = select_newest(works);
        let c = CollectionUpserts { group, selection };
        assert(selects(gathered, c.selection));
        assert(serves(entries@, upserts@, c));
        out.push(c);
    }
    assert(groups_of(out@) =~= all_groups);
    out
}

/// What becomes of the row of a winner after its collection's upsert.
pub open spec fn settles_upsert(
    queue_id: Seq<char>,
    try_count: u32,
    doc_id: Seq<char>,
    outcome: Result<BulkUpsertOutcome, UpsertSyncError>,
    limits: RetryLimits,
    a: RowAction,
) -> bool {
    match outcome {
        Ok(o) => if text::views(o.drained@).contains(doc_id) {
            a is Leave
        } else {
            a matches RowAction::Remove(id) && id@ == queue_id
        },
        Err(e) => marks(queue_id, try_count, e, limits, a),
    }
}

/// What becomes of the row of a winner after its collection's upsert. A row
/// that was gone under the lock is left alone.
pub fn settle_upsert(
    queue_id: &str,
    try_count: u32,
    doc_id: &str,
    outcome: &Result<BulkUpsertOutcome, UpsertSyncError>,
    limits: &RetryLimits,
) -> (a: RowAction)
    ensures
        settles_upsert(queue_id@, try_count, doc_id@, *outcome, *limits, a),
{
    match outcome {
        Ok(o) => if text_in(&o.drained, doc_id) {
            RowAction::Leave
        } else {
            RowAction::Remove(queue_id.to_owned())
        },
        Err(e) => mark_outcome(queue_id, try_count, e, limits),
    }
}

/// What becomes of the row of a deletion.
pub fn settle_delete(
    queue_id: &str,
    try_count: u32,
    outcome: &Result<Vec<String>, UpsertSyncError>,
    limits: &RetryLimits,
) -> (a: RowAction)
    ensures
        match outcome {
            Ok(_) => a matches RowAction::Remove(id) && id@ == queue_id@,
            Err(e) => marks(queue_id@, try_count, *e, *limits, a),
        },
{
    match outcome {
        Ok(_) => RowAction::Remove(queue_id.to_owned()),
        Err(e) => mark_outcome(queue_id, try_count, e, limits),
    }
}

/// A row whose document was drained is never removed, and neither is one whose
/// operation failed.
pub proof fn only_applied_rows_are_removed(
    queue_id: Seq<char>,
    try_count: u32,
    doc_id: Seq<char>,
    outcome: Result<BulkUpsertOutcome, UpsertSyncError>,
    limits: RetryLimits,
    a: RowAction,
)
    requires
        settles_upsert(queue_id, try_count, doc_id, outcome, limits, a),
    ensures
        a is Remove <==> (outcome matches Ok(o) && !text::views(o.drained@).contains(doc_id)),
{
}

/// A retry waits two seconds for every try before it, and between a tenth of a
/// second and one and a half more, but no longer than the longest wait; after one
/// try more it waits longer.
pub proof fn retries_wait_longer_each_time(try_count: u32, max_sleep_ms: u64)
    requires
        try_count < 0xffff_ffff,
    ensures
        2000 * try_count + 1500 <= max_sleep_ms ==> 2000 * try_count + 100 <= retry_delay(
            try_count,
            max_sleep_ms,
        ) < 2000 * try_count + 1500,
        2000 * try_count + 100 >= max_sleep_ms ==> retry_delay(try_count, max_sleep_ms)
            == max_sleep_ms,
        2000 * try_count + 3500 <= max_sleep_ms ==> retry_delay(try_count, max_sleep_ms)
            < retry_delay((try_count + 1) as u32, max_sleep_ms),
{
}

/// A failed operation is tried again exactly while the number of tries is below
/// the limit of its kind: that of deliveries where vectorizing failed, and that of
/// the database otherwise. What cannot succeed is not tried again.
pub proof fn failures_are_tried_again_within_limits(
    err: UpsertSyncError,
    new_try: u32,
    limits: RetryLimits,
)
    ensures
        failure_status(err, new_try, limits) is Requeued <==> match err {
            UpsertSyncError::Validation(_) => false,
            UpsertSyncError::QueueCollectionMismatch(_) => false,
            UpsertSyncError::NotFound(_) => false,
            UpsertSyncError::Vectorization(_) => new_try < limits.delivery_attempts,
            _ => new_try < limits.db_retries,
        },
        failure_status(err, new_try, limits) is Requeued || failure_status(
            err,
            new_try,
            limits,
        ) is Failed,
{
}

/// A failed row is marked with one try more and with what went wrong; a row that
/// is gone is left alone.
pub proof fn failed_rows_are_marked(
    queue_id: Seq<char>,
    try_count: u32,
    err: UpsertSyncError,
    limits: RetryLimits,
    a: RowAction,
)
    requires
        marks(queue_id, try_count, err, limits, a),
    ensures
        err is QueueEntryGone ==> a is Leave,
        !(err is QueueEntryGone) ==> (a matches RowAction::Mark(m) && m.queue_id@ == queue_id
            && m.info@ == encoder::upsert_error_text(err) && m.status == failure_status(
            err,
            m.try_count,
            limits,
        ) && (try_count < 0xffff_ffff ==> m.try_count == try_count + 1) && (try_count == 0xffff_ffff
            ==> m.try_count == try_count)),
{
}

/// Of the upserts of one document the one with the latest time wins, and of equal
/// times the one that stands behind the others. Every upsert wins or is
/// superseded.
pub proof fn the_newest_upsert_wins(works: Seq<UpsertWork>, s: Selection, k: int, w: UpsertWork)
    requires
        selects(works, s),
        0 <= k < s.winners@.len(),
        works.contains(w),
        w.id@ == s.winners@[k].id@,
        w != s.winners@[k],
    ensures
        ({
            let best = s.winners@[k];
            &&& w.timestamp.secs < best.timestamp.secs || (w.timestamp.secs == best.timestamp.secs
                && w.timestamp.nanos <= best.timestamp.nanos)
            &&& w.timestamp == best.timestamp ==> w.position < best.position
        }),
{
    let best = s.winners@[k];
    assert(is_latest(works, best));
    let i = choose|i: int| 0 <= i < works.len() && works[i] == w;
    assert(works[i].id@ == best.id@);
}

/// Every upsert wins or is superseded, and nothing else does.
pub proof fn every_upsert_is_selected(works: Seq<UpsertWork>, s: Selection, w: UpsertWork)
    requires
        selects(works, s),
    ensures
        works.contains(w) <==> s.winners@.contains(w) || s.superseded@.contains(w),
        s.winners@.len() + s.superseded@.len() == works.len(),
{
    let all = s.winners@ + s.superseded@;
    crate::ranking::same_elements(all, works);
    if works.contains(w) {
        let i = choose|i: int| 0 <= i < works.len() && works[i] == w;
        assert(all.contains(works[i]));
        let j = choose|j: int| 0 <= j < all.len() && all[j] == w;
        if j < s.winners@.len() {
            assert(s.winners@[j] == w);
        } else {
            assert(s.superseded@[j - s.winners@.len()] == w);
        }
    }
    if s.winners@.contains(w) {
        let j = choose|j: int| 0 <= j < s.winners@.len() && s.winners@[j] == w;
        assert(all[j] == w);
        assert(works.contains(all[j]));
    }
    if s.superseded@.contains(w) {
        let j = choose|j: int| 0 <= j < s.superseded@.len() && s.superseded@[j] == w;
        assert(all[s.winners@.len() + j] == w);
        assert(works.contains(all[s.winners@.len() + j]));
    }
}

/// A deletion is deleted, an upsert with its document upserted, and an upsert
/// without one fails.
pub proof fn operations_do_what_they_say(entries: Seq<QueueDocument>, i: int)
    requires
        0 <= i < entries.len(),
    ensures
        indices::picked(entries.len() as int, |i: int| duty(entries[i]) is Delete).contains(i)
            <==> entries[i].op_type is Delete,
        indices::picked(entries.len() as int, |i: int| duty(entries[i]) is Upsert).contains(i)
            <==> entries[i].op_type is Upsert && entries[i].document is Some,
        indices::picked(entries.len() as int, |i: int| duty(entries[i]) is Fail).contains(i)
            <==> entries[i].op_type is Upsert && entries[i].document is None,
{
    let n = entries.len() as int;
    indices::picked_is_exact(n, |i: int| duty(entries[i]) is Delete);
    indices::picked_is_exact(n, |i: int| duty(entries[i]) is Upsert);
    indices::picked_is_exact(n, |i: int| duty(entries[i]) is Fail);
}

/// A row whose upsert went through is removed unless it was drained; else it is
/// marked with what went wrong.
pub proof fn rows_are_settled_by_their_outcome(
    queue_id: Seq<char>,
    try_count: u32,
    doc_id: Seq<char>,
    outcome: Result<BulkUpsertOutcome, UpsertSyncError>,
    limits: RetryLimits,
    a: RowAction,
)
    requires
        settles_upsert(queue_id, try_count, doc_id, outcome, limits, a),
    ensures
        outcome matches Ok(o) ==> (if text::views(o.drained@).contains(doc_id) {
            a is Leave
        } else {
            a matches RowAction::Remove(id) && id@ == queue_id
        }),
        outcome matches Err(e) ==> !(a is Remove) && (!(e is QueueEntryGone) ==> a is Mark),
{
}

} // verus!
