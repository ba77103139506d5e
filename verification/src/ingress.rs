//! How ingested documents are grouped, cut into chunks and answered.

use vstd::prelude::*;
use crate::datetime_parse::Timestamp;
use crate::encoder;
use crate::encoder::{
    replicate_upsert_sync_err, BulkUpsertOutcome, QueueVerify, UpsertSyncError,
};
use crate::indices;
use crate::text;
use crate::text::{same_text, text_in};

verus! {

/// Max bulk jobs buffered.
pub const BULK_UPSERT_QUEUE_CAPACITY: usize = 128;

/// Max bulk jobs processed concurrently.
pub const BULK_UPSERT_CONCURRENT_MAX: usize = 4;

/// Bulk batches are split into chunks of this size before vectorization.
pub const BULK_UPSERT_CHUNK_SIZE: usize = 16;

/// Max single-document micro-batches in flight at once.
pub const SINGLE_UPSERT_CONCURRENT_MICROBATCH_MAX: usize = 4;

/// Max single-document jobs buffered.
pub const SINGLE_UPSERT_QUEUE_CAPACITY: usize = 10240;

/// Max single-document jobs pulled into one micro-batch.
pub const SINGLE_UPSERT_MICROBATCH_DRAIN_MAX: usize = 32;

/// Max search requests buffered.
pub const SEARCH_INGRESS_QUEUE_CAPACITY: usize = 10240;

/// Max search micro-batches in flight at once.
pub const SEARCH_INGRESS_CONCURRENT_MICROBATCH_MAX: usize = 8;

/// Max search jobs pulled into one micro-batch.
pub const SEARCH_INGRESS_MICROBATCH_DRAIN_MAX: usize = 64;

/// A run of positions: from `start` up to, but without, `end`.
#[derive(Debug, Clone, Copy, PartialEq, Eq, Structural)]
pub struct ChunkRange {
    pub start: usize,
    pub end: usize,
}

/// The end of the chunk that starts at `start` in a list of `n`.
pub open spec fn chunk_end(start: int, size: int, n: int) -> int {
    if start + size < n {
        start + size
    } else {
        n
    }
}

/// Whether the ranges cut a list of `n` into chunks of `size`: they follow one
/// another without gaps, and all but the last are full.
pub open spec fn cuts(ranges: Seq<ChunkRange>, n: int, size: int) -> bool {
    &&& n <= 0 ==> ranges.len() == 0
    &&& n > 0 ==> ranges.len() > 0 && ranges[0].start == 0 && ranges.last().end == n
    &&& forall|i: int|
        0 <= i < ranges.len() ==> (#[trigger] ranges[i]).start < ranges[i].end && ranges[i].end
            == chunk_end(ranges[i].start as int, size, n)
    &&& forall|i: int| 0 <= i < ranges.len() - 1 ==> (#[trigger] ranges[i]).end == ranges[i + 1].start
}

/// Cuts a list of `n` into chunks of `size`, the last one possibly shorter.
/// Documents and their queue rows are cut by the same ranges and so stay
/// parallel.
pub fn chunk_ranges(n: usize, size: usize) -> (r: Vec<ChunkRange>)
    requires
        size > 0,
    ensures
        cuts(r@, n as int, size as int),
{
    let mut out: Vec<ChunkRange> = Vec::new();
    let mut start: usize = 0;
    while start < n
        invariant
            size > 0,
            start <= n,
            start == 0 ==> out@.len() == 0,
            start > 0 ==> out@.len() > 0 && out@[0].start == 0 && out@.last().end == start,
            forall|i: int|
                0 <= i < out@.len() ==> (#[trigger] out@[i]).start < out@[i].end && out@[i].end
                    == chunk_end(out@[i].start as int, size as int, n as int),
            forall|i: int|
                0 <= i < out@.len() - 1 ==> (#[trigger] out@[i]).end == out@[i + 1].start,
        decreases n - start,
    {
        let end: usize = if n - start > size {
            start + size
        } else {
            n
        };
        let ghost before = out@;
        out.push(ChunkRange { start, end });
        proof {
            assert forall|i: int| 0 <= i < out@.len() - 1 implies (#[trigger] out@[i]).end
                == out@[i + 1].start by {
                assert(out@[i] == before[i]);
                if i < before.len() - 1 {
                    assert(out@[i + 1] == before[i + 1]);
                }
            }
        }
        start = end;
    }
    out
}

proof fn lemma_ranges_reach(ranges: Seq<ChunkRange>, n: int, size: int, k: int)
    requires
        cuts(ranges, n, size),
        size > 0,
        0 <= k < ranges.len(),
    ensures
        ranges[k].start == k * size,
    decreases k,
{
    if k > 0 {
        lemma_ranges_reach(ranges, n, size, k - 1);
        assert(ranges[k - 1].end == ranges[k].start);
        assert(ranges[k].start < ranges[k].end <= n);
        assert((k - 1) * size + size == k * size) by (nonlinear_arith);
    } else {
        assert(0 * size == 0);
    }
}

/// Every document of a bulk job is in exactly one chunk: the one whose number
/// is its position divided by the chunk size.
pub proof fn every_position_is_in_one_chunk(
    ranges: Seq<ChunkRange>,
    n: int,
    size: int,
    p: int,
    k: int,
)
    requires
        cuts(ranges, n, size),
        size > 0,
        0 <= p < n,
        0 <= k < ranges.len(),
    ensures
        ranges[k].start <= p < ranges[k].end <==> k == p / size,
{
    lemma_ranges_reach(ranges, n, size, k);
    let last = ranges.len() - 1;
    lemma_ranges_reach(ranges, n, size, last);
    assert(ranges[k].end == chunk_end(k * size, size, n));
    assert(k * size <= p < k * size + size <==> k == p / size) by (nonlinear_arith)
        requires
            size > 0,
            p >= 0,
    ;
    if ranges[k].start <= p && p < k * size + size {
        assert(p < ranges[k].end);
    }
}

/// Whether a bulk job came from the queue.
pub open spec fn from_queue(verifies: Seq<Option<QueueVerify>>) -> bool {
    exists|i: int| 0 <= i < verifies.len() && (#[trigger] verifies[i]) is Some
}

/// Whether a bulk job came from the queue.
pub fn any_queue_row(verifies: &Vec<Option<QueueVerify>>) -> (r: bool)
    ensures
        r == from_queue(verifies@),
{
    let mut i: usize = 0;
    while i < verifies.len()
        invariant
            i <= verifies@.len(),
            forall|k: int| 0 <= k < i ==> (#[trigger] verifies@[k]) is None,
        decreases verifies.len() - i,
    {
        if verifies[i].is_some() {
            assert(verifies@[i as int] is Some);
            return true;
        }
        i += 1;
    }
    false
}

/// The skipped ids of the chunks that went through, in the order in which the
/// chunks were done.
pub open spec fn all_skipped(
    results: Seq<Option<Result<BulkUpsertOutcome, UpsertSyncError>>>,
) -> Seq<Seq<char>>
    decreases results.len(),
{
    if results.len() == 0 {
        Seq::empty()
    } else {
        let rest = all_skipped(results.drop_last());
        match results.last() {
            Some(Ok(o)) => rest + text::views(o.skipped@),
            _ => rest,
        }
    }
}

/// The drained ids of the chunks that went through.
pub open spec fn all_drained(
    results: Seq<Option<Result<BulkUpsertOutcome, UpsertSyncError>>>,
) -> Seq<Seq<char>>
    decreases results.len(),
{
    if results.len() == 0 {
        Seq::empty()
    } else {
        let rest = all_drained(results.drop_last());
        match results.last() {
            Some(Ok(o)) => rest + text::views(o.drained@),
            _ => rest,
        }
    }
}

/// The first error of any chunk.
pub open spec fn first_error(
    results: Seq<Option<Result<BulkUpsertOutcome, UpsertSyncError>>>,
) -> Option<UpsertSyncError>
    decreases results.len(),
{
    if results.len() == 0 {
        None
    } else {
        match first_error(results.drop_last()) {
            Some(e) => Some(e),
            None => match results.last() {
                Some(Err(e)) => Some(e),
                _ => None,
            },
        }
    }
}

/// Whether the task of a chunk broke down.
pub open spec fn broke_down(
    results: Seq<Option<Result<BulkUpsertOutcome, UpsertSyncError>>>,
) -> bool {
    exists|i: int| 0 <= i < results.len() && (#[trigger] results[i]) is None
}

/// Whether every chunk went through.
pub open spec fn all_went_through(
    results: Seq<Option<Result<BulkUpsertOutcome, UpsertSyncError>>>,
) -> bool {
    forall|i: int| 0 <= i < results.len() ==> ((#[trigger] results[i]) matches Some(Ok(_)))
}

proof fn lemma_first_error(results: Seq<Option<Result<BulkUpsertOutcome, UpsertSyncError>>>, i: int)
    requires
        0 <= i < results.len(),
        first_error(results) is None,
    ensures
        !(results[i] matches Some(Err(_))),
    decreases results.len(),
{
    if i < results.len() - 1 {
        assert(results.drop_last()[i] == results[i]);
        lemma_first_error(results.drop_last(), i);
    }
}

proof fn lemma_no_error(results: Seq<Option<Result<BulkUpsertOutcome, UpsertSyncError>>>)
    requires
        all_went_through(results),
    ensures
        first_error(results) is None,
        !broke_down(results),
    decreases results.len(),
{
    if results.len() > 0 {
        assert(results[results.len() - 1] == results.last());
        assert forall|i: int| 0 <= i < results.drop_last().len() implies ((
        #[trigger] results.drop_last()[i]) matches Some(Ok(_))) by {
            assert(results[i] == results.drop_last()[i]);
        }
        lemma_no_error(results.drop_last());
    }
}

/// The answer to a bulk job from those of its chunks, in the order in which
/// they were done. Any chunk that did not go through fails the whole job: with
/// the first error, or with one of its own where a chunk's task broke down
/// (`None`) and none reported an error. Only where all went through, what they
/// skipped and drained is put together.
pub fn merge_chunk_results(
    results: Vec<Option<Result<BulkUpsertOutcome, UpsertSyncError>>>,
) -> (r: Result<BulkUpsertOutcome, UpsertSyncError>)
    ensures
        r is Ok <==> all_went_through(results@),
        match r {
            Err(e) => match first_error(results@) {
                Some(f) => e == f,
                None => broke_down(results@) && (e matches UpsertSyncError::IngressWorkerExited(m)
                    && m@ == "Bulk chunk task stopped."@),
            },
            Ok(o) => {
                &&& first_error(results@) is None
                &&& text::views(o.skipped@) == all_skipped(results@)
                &&& text::views(o.drained@) == all_drained(results@)
            },
        },
{
    let ghost all = results@;
    let mut skipped: Vec<String> = Vec::new();
    let mut drained: Vec<String> = Vec::new();
    let mut first: Option<UpsertSyncError> = None;
    let mut broken = false;
    assert(all.take(0) =~= Seq::<Option<Result<BulkUpsertOutcome, UpsertSyncError>>>::empty());
    assert(text::views(skipped@) =~= Seq::<Seq<char>>::empty());
    assert(text::views(drained@) =~= Seq::<Seq<char>>::empty());
    for x in it: results
        invariant
            it.seq() == all,
            text::views(skipped@) == all_skipped(all.take(it.index() as int)),
            text::views(drained@) == all_drained(all.take(it.index() as int)),
            first == first_error(all.take(it.index() as int)),
            broken == broke_down(all.take(it.index() as int)),
    {
        let ghost i = it.index() as int;
        proof {
            assert(all.take(i + 1).drop_last() =~= all.take(i));
            assert(all.take(i + 1).last() == x);
            assert(broke_down(all.take(i + 1)) == (broke_down(all.take(i)) || x is None)) by {
                if broke_down(all.take(i)) {
                    let k = choose|k: int| 0 <= k < i && (#[trigger] all.take(i)[k]) is None;
                    assert(all.take(i + 1)[k] is None);
                }
                if broke_down(all.take(i + 1)) {
                    let k = choose|k: int|
                        0 <= k < i + 1 && (#[trigger] all.take(i + 1)[k]) is None;
                    if k < i {
                        assert(all.take(i)[k] is None);
                    }
                }
                if x is None {
                    assert(all.take(i + 1)[i] is None);
                }
            }
        }
        match x {
            Some(Ok(o)) => {
                let mut more_skipped = o.skipped;
                let mut more_drained = o.drained;
                let ghost s0 = skipped@;
                let ghost d0 = drained@;
                let ghost s1 = more_skipped@;
                let ghost d1 = more_drained@;
                skipped.append(&mut more_skipped);
                drained.append(&mut more_drained);
                assert(text::views(skipped@) =~= text::views(s0) + text::views(s1));
                assert(text::views(drained@) =~= text::views(d0) + text::views(d1));
            },
            Some(Err(e)) => {
                if first.is_none() {
                    first = Some(e);
                }
            },
            None => {
                broken = true;
            },
        }
    }
    assert(all.take(all.len() as int) =~= all);
    proof {
        if first is None && !broken {
            assert forall|i: int| 0 <= i < all.len() implies ((#[trigger] all[i]) matches Some(
                Ok(_),
            )) by {
                lemma_first_error(all, i);
            }
        }
        if all_went_through(all) {
            lemma_no_error(all);
        }
    }
    match first {
        Some(e) => Err(e),
        None => if broken {
            Err(UpsertSyncError::IngressWorkerExited("Bulk chunk task stopped.".to_owned()))
        } else {
            Ok(BulkUpsertOutcome { skipped, drained })
        },
    }
}

/// What an ingress worker does next.
#[derive(Debug, Clone, Copy, PartialEq, Eq, Structural)]
pub enum WorkerStep {
    /// All slots are taken: wait until a running task is done.
    AwaitTask,
    /// Wait for the first job of the next batch.
    AwaitJob,
    /// Take one more job if one is waiting.
    TryJob,
    /// Run the batch.
    Dispatch,
}

/// The next step of a worker that runs at most `max_in_flight` tasks and puts
/// at most `max_batch` jobs into one. A batch is begun only when a slot is free.
pub open spec fn next_step(
    in_flight: int,
    batched: int,
    more_waiting: bool,
    max_in_flight: int,
    max_batch: int,
) -> WorkerStep {
    if batched == 0 {
        if in_flight >= max_in_flight {
            WorkerStep::AwaitTask
        } else {
            WorkerStep::AwaitJob
        }
    } else if batched < max_batch && more_waiting {
        WorkerStep::TryJob
    } else {
        WorkerStep::Dispatch
    }
}

/// The next step of a worker. `more_waiting` is false once a look for a further
/// job found none.
pub fn worker_step(
    in_flight: usize,
    batched: usize,
    more_waiting: bool,
    max_in_flight: usize,
    max_batch: usize,
) -> (r: WorkerStep)
    ensures
        r == next_step(
            in_flight as int,
            batched as int,
            more_waiting,
            max_in_flight as int,
            max_batch as int,
        ),
{
    if batched == 0 {
        if in_flight >= max_in_flight {
            WorkerStep::AwaitTask
        } else {
            WorkerStep::AwaitJob
        }
    } else if batched < max_batch && more_waiting {
        WorkerStep::TryJob
    } else {
        WorkerStep::Dispatch
    }
}

/// A worker that follows its steps never runs more tasks than it may, and
/// never puts more jobs into one batch than it may.
pub proof fn workers_stay_within_limits(
    in_flight: int,
    batched: int,
    more_waiting: bool,
    max_in_flight: int,
    max_batch: int,
)
    requires
        0 <= in_flight <= max_in_flight,
        0 <= batched <= max_batch,
        batched > 0 ==> in_flight < max_in_flight,
        max_in_flight > 0,
        max_batch > 0,
    ensures
        match next_step(in_flight, batched, more_waiting, max_in_flight, max_batch) {
            WorkerStep::AwaitTask => in_flight == max_in_flight,
            WorkerStep::AwaitJob => in_flight < max_in_flight && batched + 1 <= max_batch,
            WorkerStep::TryJob => in_flight < max_in_flight && batched + 1 <= max_batch,
            WorkerStep::Dispatch => 0 < batched && in_flight + 1 <= max_in_flight,
        },
{
}

/// Positions that share a name.
#[derive(Debug, PartialEq, Eq)]
pub struct Group {
    pub name: String,
    pub members: Vec<usize>,
}

/// Whether the groups gather the positions of `names` below `n` by name.
pub open spec fn gathers(names: Seq<Seq<char>>, n: int, groups: Seq<Group>) -> bool {
    &&& forall|g: int, h: int|
        #![trigger groups[g], groups[h]]
        0 <= g < h < groups.len() ==> groups[g].name@ != groups[h].name@
    &&& forall|g: int|
        0 <= g < groups.len() ==> indices::positions((#[trigger] groups[g]).members@)
            == indices::picked(n, |i: int| names[i] == groups[g].name@)
            && groups[g].members@.len() > 0
    &&& forall|i: int| 0 <= i < n ==> has_group(groups, #[trigger] names[i])
}

/// Whether one of the groups has the name.
pub open spec fn has_group(groups: Seq<Group>, name: Seq<char>) -> bool {
    exists|g: int| 0 <= g < groups.len() && (#[trigger] groups[g]).name@ == name
}

/// Gathers positions by name, in the order of first appearance.
pub fn group_by_name(names: &Vec<String>) -> (r: Vec<Group>)
    ensures
        gathers(text::views(names@), names@.len() as int, r@),
{
    let ghost all = text::views(names@);
    let mut groups: Vec<Group> = Vec::new();
    let mut n: usize = 0;
    while n < names.len()
        invariant
            n <= names@.len(),
            all == text::views(names@),
            gathers(all, n as int, groups@),
        decreases names.len() - n,
    {
        let name = &names[n];
        let ghost before = groups@;
        assert(all[n as int] == name@);
        let mut g: usize = 0;
        while g < groups.len() && !same_text(groups[g].name.as_str(), name.as_str())
            invariant
                g <= groups@.len(),
                forall|k: int| 0 <= k < g ==> (#[trigger] groups@[k]).name@ != name@,
            decreases groups.len() - g,
        {
            g += 1;
        }
        if g == groups.len() {
            proof {
                assert forall|i: int| 0 <= i < n implies all[i] != name@ by {
                    assert(has_group(before, all[i]));
                }
            }
            groups.push(Group { name: name.clone(), members: vec![n] });
            proof {
                assert(indices::positions(groups@[g as int].members@) =~= seq![n as int]);
                let p = |i: int| all[i] == name@;
                assert(p(n as int));
                indices::none_picked(n as int, p);
                assert(indices::picked(n as int + 1, p) == indices::picked(n as int, p).push(
                    n as int,
                ));
                assert(indices::picked(n as int + 1, p) =~= seq![n as int]);
            }
        } else {
            let ghost members = groups@[g as int].members@;
            groups[g].members.push(n);
            proof {
                assert(groups@[g as int].members@ == members.push(n));
                assert(indices::positions(members.push(n)) =~= indices::positions(members).push(
                    n as int,
                ));
                assert(groups@ == before.update(g as int, groups@[g as int]));
            }
        }
        proof {
            assert forall|k: int| 0 <= k < groups@.len() implies indices::positions(
                (#[trigger] groups@[k]).members@,
            ) == indices::picked(n as int + 1, |i: int| all[i] == groups@[k].name@)
                && groups@[k].members@.len() > 0 by {
                if k != g {
                    assert(groups@[k] == before[k]);
                    assert(groups@[k].name@ != name@) by {
                        if k > g {
                            assert(before[g as int].name@ == name@);
                        }
                    }
                }
            }
            assert forall|i: int| 0 <= i < n + 1 implies has_group(groups@, #[trigger] all[i]) by {
                if i < n {
                    assert(has_group(before, all[i]));
                    let k = choose|k: int| 0 <= k < before.len() && (#[trigger] before[k]).name@
                        == all[i];
                    assert(groups@[k].name@ == all[i]);
                } else {
                    assert(groups@[g as int].name@ == all[i]);
                }
            }
            assert forall|a: int, b: int|
                #![trigger groups@[a], groups@[b]]
                0 <= a < b < groups@.len() implies groups@[a].name@ != groups@[b].name@ by {
                if b < before.len() {
                    assert(before[a].name@ != before[b].name@);
                }
            }
        }
        n += 1;
    }
    groups
}

/// The version of a document: its id and its timestamp.
#[derive(Debug, PartialEq, Eq)]
pub struct DocVersion {
    pub id: String,
    pub timestamp: Timestamp,
}

/// Whether, of the first `n` versions, the one at `i` is the newest of its
/// document; of equally new ones the first.
pub open spec fn is_newest(versions: Seq<DocVersion>, n: int, i: int) -> bool {
    &&& 0 <= i < n
    &&& forall|j: int|
        0 <= j < n && j != i && (#[trigger] versions[j]).id@ == versions[i].id@ ==> if j < i {
            versions[j].timestamp.precedes(versions[i].timestamp)
        } else {
            !versions[i].timestamp.precedes(versions[j].timestamp)
        }
}

/// Tells, for each version of a micro-batch, whether a newer or equally new
/// one of the same document supersedes it. Superseded versions are answered as
/// skipped right away.
pub fn superseded_versions(versions: &Vec<DocVersion>) -> (r: Vec<bool>)
    ensures
        r@.len() == versions@.len(),
        forall|i: int|
            0 <= i < r@.len() ==> #[trigger] r@[i] == !is_newest(
                versions@,
                versions@.len() as int,
                i,
            ),
{
    let ghost v = versions@;
    let mut out: Vec<bool> = Vec::new();
    let mut n: usize = 0;
    while n < versions.len()
        invariant
            n <= versions@.len(),
            v == versions@,
            out@.len() == n,
            forall|i: int| 0 <= i < n ==> #[trigger] out@[i] == !is_newest(v, n as int, i),
            forall|i: int| 0 <= i < n ==> has_newest(v, n as int, (#[trigger] v[i]).id@),
        decreases versions.len() - n,
    {
        let ghost before = out@;
        let mut w: usize = 0;
        while w < n && (out[w] || !same_text(versions[w].id.as_str(), versions[n].id.as_str()))
            invariant
                w <= n < versions@.len(),
                v == versions@,
                out@.len() == n,
                forall|k: int|
                    0 <= k < w ==> #[trigger] out@[k] || v[k].id@ != v[n as int].id@,
            decreases n - w,
        {
            w += 1;
        }
        if w == n {
            out.push(false);
            proof {
                assert forall|j: int| 0 <= j < n implies (#[trigger] v[j]).id@ != v[n as int].id@ by {
                    if v[j].id@ == v[n as int].id@ {
                        assert(has_newest(v, n as int, v[j].id@));
                        let k = choose|k: int|
                            is_newest(v, n as int, k) && (#[trigger] v[k]).id@ == v[j].id@;
                        assert(out@[k] == before[k]);
                        assert(!before[k]);
                    }
                }
                assert forall|i: int| 0 <= i < n + 1 implies #[trigger] out@[i] == !is_newest(
                    v,
                    n as int + 1,
                    i,
                ) by {
                    if i < n {
                        assert(out@[i] == before[i]);
                        assert(is_newest(v, n as int, i) == is_newest(v, n as int + 1, i));
                    }
                }
                assert(is_newest(v, n as int + 1, n as int));
                assert forall|i: int| 0 <= i < n + 1 implies has_newest(
                    v,
                    n as int + 1,
                    (#[trigger] v[i]).id@,
                ) by {
                    if i < n {
                        let k = choose|k: int|
                            is_newest(v, n as int, k) && (#[trigger] v[k]).id@ == v[i].id@;
                        assert(is_newest(v, n as int + 1, k));
                    }
                }
            }
        } else {
            assert(is_newest(v, n as int, w as int)) by {
                assert(!out@[w as int]);
            }
            let newer = versions[w].timestamp.before(&versions[n].timestamp);
            if newer {
                out.set(w, true);
                out.push(false);
            } else {
                out.push(true);
            }
            proof {
                let top = if newer {
                    n as int
                } else {
                    w as int
                };
                assert(is_newest(v, n as int + 1, top)) by {
                    assert forall|j: int|
                        0 <= j < n + 1 && j != top && (#[trigger] v[j]).id@
                            == v[top].id@ implies if j < top {
                        v[j].timestamp.precedes(v[top].timestamp)
                    } else {
                        !v[top].timestamp.precedes(v[j].timestamp)
                    } by {
                        if j != w && j != n {
                            assert(v[j].id@ == v[w as int].id@);
                        }
                    }
                }
                assert forall|i: int| 0 <= i < n + 1 implies #[trigger] out@[i] == !is_newest(
                    v,
                    n as int + 1,
                    i,
                ) by {
                    if v[i].id@ == v[top].id@ {
                        if i != top {
                            if is_newest(v, n as int + 1, i) {
                                assert(v[top].id@ == v[i].id@);
                            }
                            if i < n && i != w {
                                assert(out@[i] == before[i]);
                                if is_newest(v, n as int, i) {
                                    assert(v[w as int].id@ == v[i].id@);
                                }
                            }
                        }
                    } else {
                        assert(out@[i] == before[i]);
                        assert(is_newest(v, n as int, i) == is_newest(v, n as int + 1, i));
                    }
                }
                assert forall|i: int| 0 <= i < n + 1 implies has_newest(
                    v,
                    n as int + 1,
                    (#[trigger] v[i]).id@,
                ) by {
                    if v[i].id@ == v[top].id@ {
                    } else {
                        let k = choose|k: int|
                            is_newest(v, n as int, k) && (#[trigger] v[k]).id@ == v[i].id@;
                        assert(is_newest(v, n as int + 1, k));
                    }
                }
            }
        }
        n += 1;
    }
    out
}

/// Whether one of the first `n` versions is the newest of the document.
pub open spec fn has_newest(versions: Seq<DocVersion>, n: int, id: Seq<char>) -> bool {
    exists|k: int| is_newest(versions, n, k) && (#[trigger] versions[k]).id@ == id
}

/// Every document of a micro-batch has exactly one version that is applied.
pub proof fn one_version_is_applied(versions: Seq<DocVersion>, i: int, j: int)
    requires
        is_newest(versions, versions.len() as int, i),
        is_newest(versions, versions.len() as int, j),
        versions[i].id@ == versions[j].id@,
    ensures
        i == j,
{
    if i < j {
        assert(versions[i].id@ == versions[j].id@);
    } else if j < i {
        assert(versions[j].id@ == versions[i].id@);
    }
}

/// Every document of a micro-batch has a version that is applied.
pub proof fn some_version_is_applied(versions: Seq<DocVersion>, n: int, i: int)
    requires
        0 <= i < n <= versions.len(),
    ensures
        has_newest(versions, n, versions[i].id@),
    decreases n,
{
    let last = n - 1;
    if i < last {
        some_version_is_applied(versions, last, i);
        let w = choose|k: int|
            is_newest(versions, last, k) && (#[trigger] versions[k]).id@ == versions[i].id@;
        if versions[last].id@ != versions[i].id@ || !versions[w].timestamp.precedes(
            versions[last].timestamp,
        ) {
            assert(is_newest(versions, n, w));
        } else {
            lemma_last_is_newest(versions, n, w);
        }
    } else {
        let earlier = exists|j: int| 0 <= j < last && (#[trigger] versions[j]).id@
            == versions[i].id@;
        if earlier {
            let j = choose|j: int| 0 <= j < last && (#[trigger] versions[j]).id@ == versions[i].id@;
            some_version_is_applied(versions, last, j);
            let w = choose|k: int|
                is_newest(versions, last, k) && (#[trigger] versions[k]).id@ == versions[j].id@;
            if !versions[w].timestamp.precedes(versions[last].timestamp) {
                assert(is_newest(versions, n, w));
            } else {
                lemma_last_is_newest(versions, n, w);
            }
        } else {
            assert(is_newest(versions, n, last));
        }
    }
}

proof fn lemma_last_is_newest(versions: Seq<DocVersion>, n: int, w: int)
    requires
        0 < n <= versions.len(),
        is_newest(versions, n - 1, w),
        versions[w].id@ == versions[n - 1].id@,
        versions[w].timestamp.precedes(versions[n - 1].timestamp),
    ensures
        is_newest(versions, n, n - 1),
{
    assert forall|j: int|
        0 <= j < n && j != n - 1 && (#[trigger] versions[j]).id@ == versions[n
            - 1].id@ implies versions[j].timestamp.precedes(versions[n - 1].timestamp) by {
        if j != w {
            assert(versions[j].id@ == versions[w].id@);
        }
    }
}

/// Whether a reply names exactly one skipped document.
pub open spec fn skips(reply: Result<Vec<String>, UpsertSyncError>, id: Seq<char>) -> bool {
    reply matches Ok(ids) && text::views(ids@) == seq![id]
}

/// Whether `reply` answers a version of a micro-batch: a superseded version is
/// skipped; the version that was applied shares the fate of the batch.
pub open spec fn answers(
    version: DocVersion,
    superseded: bool,
    outcome: Result<BulkUpsertOutcome, UpsertSyncError>,
    reply: Result<Vec<String>, UpsertSyncError>,
) -> bool {
    if superseded {
        skips(reply, version.id@)
    } else {
        match outcome {
            Err(e) => reply matches Err(f) && encoder::replicates(e, f),
            Ok(o) => if text::views(o.drained@).contains(version.id@) {
                reply matches Err(UpsertSyncError::QueueEntryGone)
            } else if text::views(o.skipped@).contains(version.id@) {
                skips(reply, version.id@)
            } else {
                reply matches Ok(ids) && ids@.len() == 0
            },
        }
    }
}

fn skipped_reply(id: &String) -> (r: Result<Vec<String>, UpsertSyncError>)
    ensures
        skips(r, id@),
{
    let ids = vec![id.clone()];
    assert(text::views(ids@) =~= seq![id@]);
    Ok(ids)
}

/// The replies to all versions of a micro-batch, once the versions that are
/// not superseded were upserted together with this outcome.
pub fn microbatch_replies(
    versions: &Vec<DocVersion>,
    superseded: &Vec<bool>,
    outcome: &Result<BulkUpsertOutcome, UpsertSyncError>,
) -> (r: Vec<Result<Vec<String>, UpsertSyncError>>)
    requires
        superseded@.len() == versions@.len(),
    ensures
        r@.len() == versions@.len(),
        forall|i: int|
            0 <= i < r@.len() ==> answers(
                versions@[i],
                superseded@[i],
                *outcome,
                #[trigger] r@[i],
            ),
{
    let mut out: Vec<Result<Vec<String>, UpsertSyncError>> = Vec::new();
    let mut i: usize = 0;
    while i < versions.len()
        invariant
            i <= versions@.len(),
            superseded@.len() == versions@.len(),
            out@.len() == i,
            forall|k: int|
                0 <= k < i ==> answers(
                    versions@[k],
                    superseded@[k],
                    *outcome,
                    #[trigger] out@[k],
                ),
        decreases versions.len() - i,
    {
        let id = &versions[i].id;
        let reply = if superseded[i] {
            skipped_reply(id)
        } else {
            match outcome {
                Err(e) => Err(replicate_upsert_sync_err(e)),
                Ok(o) => if text_in(&o.drained, id.as_str()) {
                    Err(UpsertSyncError::QueueEntryGone)
                } else if text_in(&o.skipped, id.as_str()) {
                    skipped_reply(id)
                } else {
                    Ok(Vec::new())
                },
            }
        };
        out.push(reply);
        i += 1;
    }
    out
}

/// The positions of the versions that are applied, ascending.
pub fn applied_positions(superseded: &Vec<bool>) -> (r: Vec<usize>)
    ensures
        indices::positions(r@) == indices::picked(
            superseded@.len() as int,
            |i: int| !superseded@[i],
        ),
{
    let mut out: Vec<usize> = Vec::new();
    let mut i: usize = 0;
    let ghost p = |i: int| !superseded@[i];
    assert(indices::positions(out@) =~= indices::picked(0, p));
    while i < superseded.len()
        invariant
            i <= superseded@.len(),
            p == (|i: int| !superseded@[i]),
            indices::positions(out@) == indices::picked(i as int, p),
        decreases superseded.len() - i,
    {
        let ghost before = out@;
        if !superseded[i] {
            out.push(i);
            assert(indices::positions(out@) =~= indices::positions(before).push(i as int));
        }
        i += 1;
    }
    out
}

/// The error of a document that finds the queue of single documents full.
pub fn single_queue_full() -> (r: UpsertSyncError)
    ensures
        r matches UpsertSyncError::IngressQueueFull(m) && m@
            == "Single-document ingress queue full (capacity "@ + text::decimal(
            SINGLE_UPSERT_QUEUE_CAPACITY as nat,
        ) + "); retry later."@,
{
    let n = text::decimal_text(SINGLE_UPSERT_QUEUE_CAPACITY as u64);
    UpsertSyncError::IngressQueueFull(
        text::text3("Single-document ingress queue full (capacity ", n.as_str(), "); retry later."),
    )
}

/// The error of a document whose worker is gone.
pub fn single_worker_gone() -> (r: UpsertSyncError)
    ensures
        r matches UpsertSyncError::IngressWorkerExited(m) && m@
            == "Single-document ingress worker stopped."@,
{
    UpsertSyncError::IngressWorkerExited("Single-document ingress worker stopped.".to_owned())
}

/// The error of a batch that finds the queue of batches full.
pub fn bulk_queue_full() -> (r: UpsertSyncError)
    ensures
        r matches UpsertSyncError::IngressQueueFull(m) && m@ == "Bulk ingest queue full (capacity "@
            + text::decimal(BULK_UPSERT_QUEUE_CAPACITY as nat) + "); retry later."@,
{
    let n = text::decimal_text(BULK_UPSERT_QUEUE_CAPACITY as u64);
    UpsertSyncError::IngressQueueFull(
        text::text3("Bulk ingest queue full (capacity ", n.as_str(), "); retry later."),
    )
}

/// The error of a batch whose worker is gone.
pub fn bulk_worker_gone() -> (r: UpsertSyncError)
    ensures
        r matches UpsertSyncError::IngressWorkerExited(m) && m@ == "Bulk ingest worker stopped."@,
{
    UpsertSyncError::IngressWorkerExited("Bulk ingest worker stopped.".to_owned())
}

/// A worker sends its batch off as soon as it is full or nothing more waits; with
/// an empty batch it waits for a job, or for a task to end where as many as may be
/// are running.
pub proof fn workers_batch_what_waits(
    in_flight: int,
    batched: int,
    more_waiting: bool,
    max_in_flight: int,
    max_batch: int,
)
    ensures
        batched == 0 && in_flight >= max_in_flight ==> next_step(
            in_flight,
            batched,
            more_waiting,
            max_in_flight,
            max_batch,
        ) is AwaitTask,
        batched == 0 && in_flight < max_in_flight ==> next_step(
            in_flight,
            batched,
            more_waiting,
            max_in_flight,
            max_batch,
        ) is AwaitJob,
        batched > 0 && batched < max_batch && more_waiting ==> next_step(
            in_flight,
            batched,
            more_waiting,
            max_in_flight,
            max_batch,
        ) is TryJob,
        batched > 0 && (batched >= max_batch || !more_waiting) ==> next_step(
            in_flight,
            batched,
            more_waiting,
            max_in_flight,
            max_batch,
        ) is Dispatch,
{
}

/// The first chunk that fails is the one that is told of.
pub proof fn the_first_failed_chunk_is_told_of(
    results: Seq<Option<Result<BulkUpsertOutcome, UpsertSyncError>>>,
    i: int,
)
    ensures
        (forall|k: int| 0 <= k < results.len() ==> !((#[trigger] results[k]) matches Some(Err(_))))
            <==> first_error(results) is None,
        0 <= i < results.len() && (results[i] matches Some(Err(_))) && (forall|k: int|
            0 <= k < i ==> !((#[trigger] results[k]) matches Some(Err(_)))) ==> Some(
            Err::<BulkUpsertOutcome, UpsertSyncError>(first_error(results)->0),
        ) == results[i],
    decreases results.len(),
{
    if results.len() > 0 {
        let init = results.drop_last();
        the_first_failed_chunk_is_told_of(init, i);
        assert(forall|k: int| 0 <= k < init.len() ==> #[trigger] init[k] == results[k]);
        let last = results.len() - 1;
        assert(results[last] == results.last());
        if first_error(results) is None {
            assert forall|k: int| 0 <= k < results.len() implies !((
            #[trigger] results[k]) matches Some(Err(_))) by {
                if k < init.len() {
                    assert(!(init[k] matches Some(Err(_))));
                }
            }
        }
        if i == last && (forall|k: int|
            0 <= k < i ==> !((#[trigger] results[k]) matches Some(Err(_)))) {
            assert forall|k: int| 0 <= k < init.len() implies !((#[trigger] init[k]) matches Some(
                Err(_),
            )) by {
                assert(!(results[k] matches Some(Err(_))));
            }
        }
    }
}

/// What is skipped and drained altogether is what the chunks skipped and drained,
/// chunk after chunk.
pub proof fn chunks_add_up(
    results: Seq<Option<Result<BulkUpsertOutcome, UpsertSyncError>>>,
    o: BulkUpsertOutcome,
)
    ensures
        all_skipped(results.push(Some(Ok(o)))) == all_skipped(results) + text::views(o.skipped@),
        all_drained(results.push(Some(Ok(o)))) == all_drained(results) + text::views(o.drained@),
        all_skipped(Seq::empty()) == Seq::<Seq<char>>::empty(),
        all_drained(Seq::empty()) == Seq::<Seq<char>>::empty(),
{
    assert(results.push(Some(Ok(o))).drop_last() =~= results);
}

/// What is gathered under a name is everything of that name, and nothing else.
pub proof fn names_are_gathered(names: Seq<Seq<char>>, groups: Seq<Group>, g: int, i: int)
    requires
        gathers(names, names.len() as int, groups),
        0 <= g < groups.len(),
        0 <= i < names.len(),
    ensures
        indices::positions(groups[g].members@).contains(i) <==> names[i] == groups[g].name@,
        exists|h: int| 0 <= h < groups.len() && (#[trigger] groups[h]).name@ == names[i],
{
    let p = |i: int| names[i] == groups[g].name@;
    indices::picked_is_exact(names.len() as int, p);
    assert(has_group(groups, names[i]));
}

/// Of the versions of one document the one with the latest time is applied, and of
/// equal times the first.
pub proof fn the_newest_version_is_applied(versions: Seq<DocVersion>, i: int, j: int)
    requires
        is_newest(versions, versions.len() as int, i),
        0 <= j < versions.len(),
        j != i,
        versions[j].id@ == versions[i].id@,
    ensures
        ({
            let best = versions[i].timestamp;
            let other = versions[j].timestamp;
            &&& other.secs < best.secs || (other.secs == best.secs && other.nanos <= best.nanos)
            &&& other == best ==> i < j
        }),
{
    assert(versions[j].id@ == versions[i].id@);
}

/// Each document of a batch is told its own outcome: skipped if a newer version
/// was there, gone if its row was, an error if the batch failed, and done
/// otherwise.
pub proof fn documents_are_told_their_outcome(
    version: DocVersion,
    superseded: bool,
    outcome: Result<BulkUpsertOutcome, UpsertSyncError>,
    reply: Result<Vec<String>, UpsertSyncError>,
)
    requires
        answers(version, superseded, outcome, reply),
    ensures
        superseded ==> (reply matches Ok(ids) && ids@.len() == 1 && ids@[0]@ == version.id@),
        !superseded && outcome is Err ==> reply is Err,
        !superseded ==> (outcome matches Ok(o) ==> {
            let gone = text::views(o.drained@).contains(version.id@);
            let skipped = text::views(o.skipped@).contains(version.id@);
            &&& gone ==> (reply matches Err(e) && e is QueueEntryGone)
            &&& !gone && skipped ==> (reply matches Ok(ids) && ids@.len() == 1 && ids@[0]@
                == version.id@)
            &&& !gone && !skipped ==> (reply matches Ok(ids) && ids@.len() == 0)
        }),
{
    if let Ok(ids) = reply {
        assert(text::views(ids@).len() == ids@.len());
        if ids@.len() > 0 {
            assert(text::views(ids@)[0] == ids@[0]@);
        }
    }
}

/// Documents come from the queue exactly if one of them has a row.
pub proof fn rows_are_from_the_queue(verifies: Seq<Option<QueueVerify>>)
    ensures
        !from_queue(verifies) <==> forall|i: int|
            0 <= i < verifies.len() ==> (#[trigger] verifies[i]) is None,
{
}

} // verus!
