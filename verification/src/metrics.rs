//! Metrics: which bucket an event falls into, which buckets a window covers,
//! which buckets are complete and which can be forgotten.
//!
//! The values of buckets are sums that the caller keeps under the buckets'
//! numbers; here are their times, their counts and what is summed into what.

use vstd::prelude::*;
use crate::indices;
use crate::json::Double;
use crate::ranking;
use crate::ranking::{sort_ranked, Ranked};
use crate::text;
use crate::text::{char_count, copy_texts, same_text, text3, text_before};

pub mod keys;

verus! {

/// The length of a live bucket, in seconds.
pub const LIVE_BUCKET_SECONDS: i64 = 5;

/// The length of a minute's bucket, in seconds.
pub const MINUTE_SECONDS: i64 = 60;

/// The length of the bucket of five minutes, in seconds.
pub const FIVE_MINUTES_SECONDS: i64 = 300;

/// How long a bucket waits to be written, in seconds: a day.
pub const PENDING_BUCKET_MAX_AGE_S: i64 = 86_400;

/// The most events waiting.
pub const EVENT_BUFFER_MAXLEN: usize = 100_000;

/// The longest window that is reported, in seconds.
pub const MAX_WINDOW: i64 = 60;

/// How the values of a key are put together.
#[derive(Debug, Clone, Copy, PartialEq, Eq, Structural)]
pub enum Agg {
    Sum,
    Avg,
}

/// The start of the bucket that a time falls into. Times before the epoch go
/// to the end of theirs, which is nearer to the epoch.
pub open spec fn floor_of(ts: int, bucket: int) -> int {
    if ts >= 0 {
        (ts / bucket) * bucket
    } else {
        -(((-ts) / bucket) * bucket)
    }
}

/// The start of the bucket that a time falls into.
pub fn floor_to(ts: i64, bucket: i64) -> (r: i64)
    requires
        bucket > 0,
    ensures
        r == floor_of(ts as int, bucket as int),
        ts >= 0 ==> 0 <= r <= ts < r + bucket,
        ts < 0 ==> r - bucket < ts <= r <= 0,
{
    if ts < 0 {
        let size: i128 = -(ts as i128);
        let length: i128 = bucket as i128;
        let q: i128 = size / length;
        proof {
            let n = -(ts as int);
            vstd::arithmetic::div_mod::lemma_fundamental_div_mod(n, bucket as int);
            vstd::arithmetic::div_mod::lemma_mod_bound(n, bucket as int);
            vstd::arithmetic::mul::lemma_mul_is_commutative(bucket as int, n / bucket as int);
            vstd::arithmetic::div_mod::lemma_div_pos_is_pos(n, bucket as int);
            vstd::arithmetic::mul::lemma_mul_nonnegative(n / bucket as int, bucket as int);
        }
        return (-(q * length)) as i64;
    }
    let q: i64 = ts / bucket;
    proof {
        vstd::arithmetic::div_mod::lemma_fundamental_div_mod(ts as int, bucket as int);
        vstd::arithmetic::div_mod::lemma_mod_bound(ts as int, bucket as int);
        vstd::arithmetic::mul::lemma_mul_is_commutative(bucket as int, ts as int / bucket as int);
        vstd::arithmetic::div_mod::lemma_div_pos_is_pos(ts as int, bucket as int);
        assert(0 <= floor_of(ts as int, bucket as int) <= ts) by {
            vstd::arithmetic::mul::lemma_mul_nonnegative(
                ts as int / bucket as int,
                bucket as int,
            );
        }
    }
    q * bucket
}

/// A bucket's start is at or before every time in it, and less than its length
/// away; it is its own start.
pub proof fn buckets_hold_their_times(ts: int, bucket: int)
    requires
        ts >= 0,
        bucket > 0,
    ensures
        floor_of(ts, bucket) <= ts < floor_of(ts, bucket) + bucket,
        floor_of(floor_of(ts, bucket), bucket) == floor_of(ts, bucket),
{
    vstd::arithmetic::div_mod::lemma_fundamental_div_mod(ts, bucket);
    vstd::arithmetic::div_mod::lemma_mod_bound(ts, bucket);
    vstd::arithmetic::mul::lemma_mul_is_commutative(bucket, ts / bucket);
    vstd::arithmetic::div_mod::lemma_div_multiples_vanish(ts / bucket, bucket);
}

/// A live bucket: the number under which its value is kept, its start, and the
/// count of an average.
#[derive(Debug, Clone, Copy, PartialEq, Eq, Structural)]
pub struct LiveBucket {
    pub id: u64,
    pub bucket_start: i64,
    pub n: Option<i64>,
}

/// The live buckets of a key and its dimensions, in the order they were opened.
#[derive(Debug, PartialEq, Eq)]
pub struct Series {
    /// The key, then its dimensions.
    pub key: Vec<String>,
    pub agg: Agg,
    pub buckets: Vec<LiveBucket>,
    /// When the key was last seen, in seconds.
    pub last_seen: Double,
}

/// A complete bucket: what it is of, when it starts, the count of an average,
/// and the numbers of the buckets whose values it sums.
#[derive(Debug, PartialEq, Eq)]
pub struct Rollup {
    pub key: Vec<String>,
    pub bucket_start: i64,
    pub n: Option<i64>,
    pub id: u64,
    pub parts: Vec<u64>,
}

/// What is known of the events so far.
#[derive(Debug, PartialEq, Eq)]
pub struct ReportState {
    pub series: Vec<Series>,
    pub last_flushed_1m_start: i64,
    pub last_flushed_5m_start: i64,
    /// The minutes that wait to go into a bucket of five minutes.
    pub pending_for_5m: Vec<Part>,
    /// The number of the next bucket.
    pub next_id: u64,
}

/// What became of an event.
#[derive(Debug, Clone, Copy, PartialEq, Eq, Structural)]
pub enum EventFate {
    /// Its key is put together in another way: it does not count.
    Dropped,
    /// Its value is added to that of a bucket.
    Joined(u64),
    /// Its value is the first of a bucket.
    Opened(u64),
}

/// The position of the series of a key, or the number of series.
pub open spec fn series_index(series: Seq<Series>, key: Seq<Seq<char>>) -> int
    decreases series.len(),
{
    if series.len() == 0 || text::views(series[0].key@) == key {
        0
    } else {
        1 + series_index(series.drop_first(), key)
    }
}

fn same_key(a: &Vec<String>, b: &Vec<String>) -> (r: bool)
    ensures
        r == (text::views(a@) == text::views(b@)),
{
    assert(text::views(a@).len() == a@.len());
    assert(text::views(b@).len() == b@.len());
    if a.len() != b.len() {
        return false;
    }
    let mut i: usize = 0;
    while i < a.len()
        invariant
            i <= a@.len(),
            a@.len() == b@.len(),
            forall|k: int| 0 <= k < i ==> (#[trigger] a@[k])@ == b@[k]@,
        decreases a.len() - i,
    {
        if !same_text(a[i].as_str(), b[i].as_str()) {
            assert(text::views(a@)[i as int] != text::views(b@)[i as int]);
            return false;
        }
        i += 1;
    }
    assert(text::views(a@) =~= text::views(b@));
    true
}

fn find_series(series: &Vec<Series>, key: &Vec<String>) -> (r: usize)
    ensures
        r == series_index(series@, text::views(key@)),
        r <= series@.len(),
        r < series@.len() ==> text::views(series@[r as int].key@) == text::views(key@),
{
    let mut i: usize = 0;
    assert(series@.skip(0) =~= series@);
    while i < series.len()
        invariant
            i <= series@.len(),
            series_index(series@, text::views(key@)) == i + series_index(
                series@.skip(i as int),
                text::views(key@),
            ),
        decreases series.len() - i,
    {
        assert(series@.skip(i as int)[0] == series@[i as int]);
        assert(series@.skip(i as int).drop_first() =~= series@.skip(i as int + 1));
        if same_key(&series[i].key, key) {
            return i;
        }
        i += 1;
    }
    i
}

/// The count that an event of an average brings.
pub open spec fn count_or_zero(n: Option<i64>) -> i64 {
    match n {
        Some(n) => n,
        None => 0,
    }
}

/// A bucket after one more event.
pub open spec fn joined_bucket(b: LiveBucket, agg: Agg, n: Option<i64>) -> LiveBucket {
    match agg {
        Agg::Sum => b,
        Agg::Avg => LiveBucket {
            n: Some(count_or_zero(b.n).wrapping_add(count_or_zero(n))),
            ..b
        },
    }
}

/// A new bucket with its first event.
pub open spec fn opened_bucket(id: u64, start: i64, agg: Agg, n: Option<i64>) -> LiveBucket {
    LiveBucket {
        id,
        bucket_start: start,
        n: match agg {
            Agg::Sum => None,
            Agg::Avg => Some(count_or_zero(n)),
        },
    }
}

/// The buckets of a key after an event at a time: the last one, if it has the
/// time, or a new one.
pub open spec fn buckets_after(
    buckets: Seq<LiveBucket>,
    agg: Agg,
    n: Option<i64>,
    start: i64,
    id: u64,
) -> Seq<LiveBucket> {
    if buckets.len() > 0 && buckets.last().bucket_start == start {
        buckets.update(buckets.len() - 1, joined_bucket(buckets.last(), agg, n))
    } else {
        buckets.push(opened_bucket(id, start, agg, n))
    }
}

fn add_to_buckets(
    buckets: &mut Vec<LiveBucket>,
    agg: Agg,
    n: Option<i64>,
    start: i64,
    id: u64,
) -> (r: EventFate)
    ensures
        final(buckets)@ == buckets_after(old(buckets)@, agg, n, start, id),
        if old(buckets)@.len() > 0 && old(buckets)@.last().bucket_start == start {
            r == EventFate::Joined(old(buckets)@.last().id)
        } else {
            r == EventFate::Opened(id)
        },
{
    let len: usize = buckets.len();
    let count: i64 = match n {
        Some(n) => n,
        None => 0,
    };
    if len > 0 && buckets[len - 1].bucket_start == start {
        let b = buckets[len - 1];
        if let Agg::Avg = agg {
            let before: i64 = match b.n {
                Some(m) => m,
                None => 0,
            };
            buckets.set(
                len - 1,
                LiveBucket {
                    id: b.id,
                    bucket_start: b.bucket_start,
                    n: Some(before.wrapping_add(count)),
                },
            );
        } else {
            assert(buckets@ =~= buckets_after(old(buckets)@, agg, n, start, id));
        }
        return EventFate::Joined(b.id);
    }
    let n = match agg {
        Agg::Sum => None,
        Agg::Avg => Some(count),
    };
    buckets.push(LiveBucket { id, bucket_start: start, n });
    EventFate::Opened(id)
}

/// A key with its dimensions.
pub fn event_key(key: &str, dims: &Vec<String>) -> (r: Vec<String>)
    ensures
        text::views(r@) == seq![key@] + text::views(dims@),
{
    let mut out: Vec<String> = Vec::new();
    out.push(key.to_owned());
    let mut i: usize = 0;
    while i < dims.len()
        invariant
            i <= dims@.len(),
            out@.len() == i + 1,
            out@[0]@ == key@,
            forall|k: int| 0 <= k < i ==> (#[trigger] out@[k + 1])@ == dims@[k]@,
        decreases dims.len() - i,
    {
        out.push(dims[i].as_str().to_owned());
        i += 1;
    }
    assert(text::views(out@) =~= seq![key@] + text::views(dims@)) by {
        assert forall|k: int| 0 <= k < out@.len() implies text::views(out@)[k] == (seq![key@]
            + text::views(dims@))[k] by {
            if k > 0 {
                assert(out@[k - 1 + 1]@ == dims@[k - 1]@);
            }
        }
    }
    out
}

/// The start of the window of so many seconds that ends with the bucket of a
/// time.
pub open spec fn window_cut(now: int, window: int) -> int {
    floor_of(now, LIVE_BUCKET_SECONDS as int) - window + LIVE_BUCKET_SECONDS
}

/// The number of buckets at the end, up to the first from there that starts
/// before the cut.
pub open spec fn tail_length(buckets: Seq<LiveBucket>, cut: int) -> nat
    decreases buckets.len(),
{
    if buckets.len() == 0 || buckets.last().bucket_start < cut {
        0
    } else {
        1 + tail_length(buckets.drop_last(), cut)
    }
}

/// The numbers of the buckets in a window, the newest first.
pub open spec fn window_ids(buckets: Seq<LiveBucket>, cut: int) -> Seq<u64> {
    Seq::new(tail_length(buckets, cut), |i: int| buckets[buckets.len() - 1 - i].id)
}

/// A count with those of the buckets in a window, the newest first.
pub open spec fn window_count_from(buckets: Seq<LiveBucket>, cut: int, count: i64) -> i64
    decreases buckets.len(),
{
    if buckets.len() == 0 || buckets.last().bucket_start < cut {
        count
    } else {
        window_count_from(
            buckets.drop_last(),
            cut,
            count.wrapping_add(count_or_zero(buckets.last().n)),
        )
    }
}

/// A key's sum over a window: the numbers of the buckets to sum, and the count
/// of an average.
#[derive(Debug, PartialEq, Eq)]
pub struct WindowSum {
    pub ids: Vec<u64>,
    pub n: Option<i64>,
}

/// Whether a sum is that of a key over a window.
pub open spec fn is_window_sum(s: Series, now: int, window: int, w: WindowSum) -> bool {
    &&& w.ids@ == window_ids(s.buckets@, window_cut(now, window))
    &&& w.n == (match s.agg {
        Agg::Sum => None,
        Agg::Avg => Some(window_count_from(s.buckets@, window_cut(now, window), 0)),
    })
}

/// Sums a key over a window of so many seconds.
pub fn sum_window(series: &Series, now: i64, window: i64) -> (r: WindowSum)
    requires
        0 <= now,
        LIVE_BUCKET_SECONDS <= window <= MAX_WINDOW,
    ensures
        is_window_sum(*series, now as int, window as int, r),
{
    let current = floor_to(now, LIVE_BUCKET_SECONDS);
    let cut: i64 = current - window + LIVE_BUCKET_SECONDS;
    let buckets = &series.buckets;
    let mut ids: Vec<u64> = Vec::new();
    let mut count: i64 = 0;
    let mut n: usize = buckets.len();
    assert(buckets@.take(n as int) =~= buckets@);
    while n > 0 && buckets[n - 1].bucket_start >= cut
        invariant
            n <= buckets@.len(),
            *buckets == series.buckets,
            cut == window_cut(now as int, window as int),
            ids@.len() == buckets@.len() - n,
            tail_length(buckets@, cut as int) == ids@.len() + tail_length(
                buckets@.take(n as int),
                cut as int,
            ),
            window_count_from(buckets@, cut as int, 0) == window_count_from(
                buckets@.take(n as int),
                cut as int,
                count,
            ),
            forall|i: int| 0 <= i < ids@.len() ==> ids@[i] == buckets@[buckets@.len() - 1 - i].id,
        decreases n,
    {
        let b = buckets[n - 1];
        assert(buckets@.take(n as int).last() == b);
        assert(buckets@.take(n as int).drop_last() =~= buckets@.take(n as int - 1));
        ids.push(b.id);
        let more: i64 = match b.n {
            Some(m) => m,
            None => 0,
        };
        count = count.wrapping_add(more);
        n -= 1;
    }
    proof {
        if n > 0 {
            assert(buckets@.take(n as int).last() == buckets@[n - 1]);
        }
        assert(ids@ =~= window_ids(buckets@, cut as int));
    }
    let n = match series.agg {
        Agg::Sum => None,
        Agg::Avg => Some(count),
    };
    WindowSum { ids, n }
}

/// A bucket that goes into a longer one.
#[derive(Debug, PartialEq, Eq)]
pub struct Part {
    pub key: Vec<String>,
    pub bucket_start: i64,
    pub n: Option<i64>,
    pub id: u64,
}

/// What parts go into one bucket: those of a key and its dimensions that start
/// in it.
pub open spec fn label_of(p: Part, seconds: int) -> (Seq<Seq<char>>, int) {
    (text::views(p.key@), floor_of(p.bucket_start as int, seconds))
}

/// Whether a part belongs to a bucket that is complete and not yet collected.
pub open spec fn is_due(p: Part, seconds: int, low: int, current: int) -> bool {
    low <= floor_of(p.bucket_start as int, seconds) < current
}

/// The label of a bucket.
pub open spec fn rollup_label(r: Rollup) -> (Seq<Seq<char>>, int) {
    (text::views(r.key@), r.bucket_start as int)
}

/// Whether one of the buckets has the label.
pub open spec fn has_label(rollups: Seq<Rollup>, label: (Seq<Seq<char>>, int)) -> bool {
    exists|i: int| 0 <= i < rollups.len() && rollup_label(#[trigger] rollups[i]) == label
}

/// The positions of the first parts with a label.
pub open spec fn part_positions(
    parts: Seq<Part>,
    seconds: int,
    label: (Seq<Seq<char>>, int),
    n: int,
) -> Seq<int> {
    indices::picked(n, |i: int| label_of(parts[i], seconds) == label)
}

/// The numbers of the parts at some positions.
pub open spec fn ids_at(parts: Seq<Part>, positions: Seq<int>) -> Seq<u64> {
    Seq::new(positions.len(), |i: int| parts[positions[i]].id)
}

/// The count of the parts at some positions: the sum of theirs, or none if
/// none of them has one.
pub open spec fn count_at(parts: Seq<Part>, positions: Seq<int>) -> Option<i64>
    decreases positions.len(),
{
    if positions.len() == 0 {
        None
    } else {
        let rest = count_at(parts, positions.drop_last());
        match parts[positions.last()].n {
            Some(m) => Some(count_or_zero(rest).wrapping_add(m)),
            None => rest,
        }
    }
}

/// Whether a bucket sums the first parts with its label, in order.
pub open spec fn is_rollup(parts: Seq<Part>, seconds: int, r: Rollup, n: int) -> bool {
    let positions = part_positions(parts, seconds, rollup_label(r), n);
    &&& positions.len() > 0
    &&& r.parts@ == ids_at(parts, positions)
    &&& r.n == count_at(parts, positions)
}

/// Whether buckets are the complete ones of the first parts: each once, and
/// every part that is due in one.
pub open spec fn rolls_up(
    parts: Seq<Part>,
    seconds: int,
    low: int,
    current: int,
    rollups: Seq<Rollup>,
    n: int,
) -> bool {
    &&& forall|i: int|
        0 <= i < rollups.len() ==> is_rollup(parts, seconds, #[trigger] rollups[i], n) && low
            <= rollups[i].bucket_start < current
    &&& forall|i: int, j: int|
        #![trigger rollups[i], rollups[j]]
        0 <= i < j < rollups.len() ==> rollup_label(rollups[i]) != rollup_label(rollups[j])
    &&& forall|k: int|
        0 <= k < n && is_due(#[trigger] parts[k], seconds, low, current) ==> has_label(
            rollups,
            label_of(parts[k], seconds),
        )
}

/// Whether all parts start at or after zero.
pub open spec fn starts_ok(parts: Seq<Part>) -> bool {
    forall|i: int| 0 <= i < parts.len() ==> (#[trigger] parts[i]).bucket_start >= 0
}

fn find_label(rollups: &Vec<Rollup>, key: &Vec<String>, slot: i64) -> (r: usize)
    ensures
        r <= rollups@.len(),
        r < rollups@.len() ==> rollup_label(rollups@[r as int]) == (
            text::views(key@),
            slot as int,
        ),
        r == rollups@.len() ==> !has_label(rollups@, (text::views(key@), slot as int)),
{
    let mut i: usize = 0;
    while i < rollups.len()
        invariant
            i <= rollups@.len(),
            forall|k: int|
                0 <= k < i ==> rollup_label(#[trigger] rollups@[k]) != (
                    text::views(key@),
                    slot as int,
                ),
        decreases rollups.len() - i,
    {
        if rollups[i].bucket_start == slot && same_key(&rollups[i].key, key) {
            return i;
        }
        i += 1;
    }
    i
}

proof fn lemma_rollup_grows(parts: Seq<Part>, seconds: int, before: Rollup, after: Rollup, k: int)
    requires
        0 <= k < parts.len(),
        is_rollup(parts, seconds, before, k),
        label_of(parts[k], seconds) == rollup_label(before),
        rollup_label(after) == rollup_label(before),
        after.parts@ == before.parts@.push(parts[k].id),
        after.n == (match parts[k].n {
            Some(m) => Some(count_or_zero(before.n).wrapping_add(m)),
            None => before.n,
        }),
    ensures
        is_rollup(parts, seconds, after, k + 1),
{
    let old_p = part_positions(parts, seconds, rollup_label(before), k);
    let new_p = part_positions(parts, seconds, rollup_label(before), k + 1);
    assert(new_p == old_p.push(k));
    assert(new_p.drop_last() =~= old_p);
    assert(after.parts@ =~= ids_at(parts, new_p));
}

proof fn lemma_rollup_starts(parts: Seq<Part>, seconds: int, r: Rollup, k: int)
    requires
        0 <= k < parts.len(),
        label_of(parts[k], seconds) == rollup_label(r),
        part_positions(parts, seconds, rollup_label(r), k).len() == 0,
        r.parts@ == seq![parts[k].id],
        r.n == (match parts[k].n {
            Some(m) => Some(0i64.wrapping_add(m)),
            None => None,
        }),
    ensures
        is_rollup(parts, seconds, r, k + 1),
{
    let old_p = part_positions(parts, seconds, rollup_label(r), k);
    let new_p = part_positions(parts, seconds, rollup_label(r), k + 1);
    assert(new_p == old_p.push(k));
    assert(new_p.drop_last() =~= old_p);
    assert(r.parts@ =~= ids_at(parts, new_p));
    assert(count_at(parts, old_p) is None);
}

proof fn lemma_rollup_stays(parts: Seq<Part>, seconds: int, r: Rollup, k: int)
    requires
        0 <= k < parts.len(),
        is_rollup(parts, seconds, r, k),
        label_of(parts[k], seconds) != rollup_label(r),
    ensures
        is_rollup(parts, seconds, r, k + 1),
{
    assert(part_positions(parts, seconds, rollup_label(r), k + 1) == part_positions(
        parts,
        seconds,
        rollup_label(r),
        k,
    ));
}

/// Sums the parts of complete buckets of so many seconds. The buckets' numbers
/// are the next ones.
pub fn roll_up(parts: &Vec<Part>, seconds: i64, low: i64, current: i64, next_id: u64) -> (r: Vec<
    Rollup,
>)
    requires
        seconds > 0,
        starts_ok(parts@),
        next_id + parts@.len() <= u64::MAX,
    ensures
        rolls_up(parts@, seconds as int, low as int, current as int, r@, parts@.len() as int),
        r@.len() <= parts@.len(),
        forall|i: int| 0 <= i < r@.len() ==> (#[trigger] r@[i]).id == next_id + i,
{
    let mut out: Vec<Rollup> = Vec::new();
    let mut k: usize = 0;
    while k < parts.len()
        invariant
            k <= parts@.len(),
            seconds > 0,
            starts_ok(parts@),
            next_id + parts@.len() <= u64::MAX,
            out@.len() <= k,
            rolls_up(parts@, seconds as int, low as int, current as int, out@, k as int),
            forall|i: int| 0 <= i < out@.len() ==> (#[trigger] out@[i]).id == next_id + i,
        decreases parts.len() - k,
    {
        let b = &parts[k];
        assert(parts@[k as int].bucket_start >= 0);
        let slot = floor_to(b.bucket_start, seconds);
        let ghost before = out@;
        let ghost label = label_of(*b, seconds as int);
        let mut touched: usize = out.len();
        if slot >= low && slot < current {
            let at = find_label(&out, &b.key, slot);
            touched = at;
            if at < out.len() {
                let ghost old_rollup = out@[at as int];
                if let Some(m) = b.n {
                    let so_far: i64 = match out[at].n {
                        Some(x) => x,
                        None => 0,
                    };
                    out[at].n = Some(so_far.wrapping_add(m));
                }
                out[at].parts.push(b.id);
                proof {
                    let new_rollup = out@[at as int];
                    assert(out@ == before.update(at as int, new_rollup));
                    lemma_rollup_grows(parts@, seconds as int, old_rollup, new_rollup, k as int);
                }
            } else {
                let n = match b.n {
                    Some(m) => Some(0i64.wrapping_add(m)),
                    None => None,
                };
                let r = Rollup {
                    key: copy_texts(&b.key),
                    bucket_start: slot,
                    n,
                    id: next_id + out.len() as u64,
                    parts: vec![b.id],
                };
                proof {
                    let p = part_positions(parts@, seconds as int, label, k as int);
                    if p.len() > 0 {
                        let q = |i: int| label_of(parts@[i], seconds as int) == label;
                        indices::picked_is_exact(k as int, q);
                        assert(p == indices::picked(k as int, q));
                        let x = p[0];
                        assert(q(x));
                        assert(is_due(parts@[x], seconds as int, low as int, current as int));
                        assert(has_label(before, label));
                    }
                    assert(r.parts@ =~= seq![b.id]);
                    lemma_rollup_starts(parts@, seconds as int, r, k as int);
                }
                out.push(r);
            }
        }
        proof {
            let after = out@;
            assert forall|i: int| 0 <= i < after.len() implies is_rollup(
                parts@,
                seconds as int,
                #[trigger] after[i],
                k as int + 1,
            ) && low <= after[i].bucket_start < current by {
                if i < before.len() && i != touched {
                    assert(after[i] == before[i]);
                    assert(is_rollup(parts@, seconds as int, before[i], k as int));
                    if label == rollup_label(before[i]) {
                        assert(low <= before[i].bucket_start < current);
                        if touched < before.len() {
                            assert(rollup_label(before[touched as int]) == label);
                            if i < touched {
                                assert(rollup_label(before[i]) != rollup_label(
                                    before[touched as int],
                                ));
                            } else {
                                assert(rollup_label(before[touched as int]) != rollup_label(
                                    before[i],
                                ));
                            }
                        } else {
                            assert(has_label(before, label));
                        }
                    }
                    lemma_rollup_stays(parts@, seconds as int, before[i], k as int);
                }
            }
            assert forall|i: int, j: int|
                #![trigger after[i], after[j]]
                0 <= i < j < after.len() implies rollup_label(after[i]) != rollup_label(
                after[j],
            ) by {
                assert(rollup_label(after[i]) == rollup_label(before[i]));
                if j < before.len() {
                    assert(rollup_label(before[i]) != rollup_label(before[j]));
                    assert(rollup_label(after[j]) == rollup_label(before[j]));
                } else {
                    assert(!has_label(before, label));
                }
            }
            assert forall|x: int|
                0 <= x < k + 1 && is_due(
                    #[trigger] parts@[x],
                    seconds as int,
                    low as int,
                    current as int,
                ) implies has_label(after, label_of(parts@[x], seconds as int)) by {
                if x < k {
                    let w = label_of(parts@[x], seconds as int);
                    assert(has_label(before, w));
                    let i = choose|i: int|
                        0 <= i < before.len() && rollup_label(#[trigger] before[i]) == w;
                    assert(rollup_label(after[i]) == w);
                } else {
                    assert(rollup_label(after[touched as int]) == label);
                }
            }
        }
        k += 1;
    }
    out
}

/// The number of live buckets of the first series.
pub open spec fn live_count(series: Seq<Series>, n: int) -> int
    decreases n,
{
    if n <= 0 {
        0
    } else {
        live_count(series, n - 1) + series[n - 1].buckets@.len()
    }
}

/// Whether a part is a live bucket.
pub open spec fn is_live_part(p: Part, s: Series, b: LiveBucket) -> bool {
    &&& text::views(p.key@) == text::views(s.key@)
    &&& p.bucket_start == b.bucket_start
    &&& p.n == b.n
    &&& p.id == b.id
}

/// Whether a live bucket is among the parts, at its place.
pub open spec fn lists_bucket(series: Seq<Series>, parts: Seq<Part>, i: int, j: int) -> bool {
    let at = live_count(series, i) + j;
    0 <= at < parts.len() && is_live_part(parts[at], series[i], series[i].buckets@[j])
}

/// Whether parts are the live buckets of the first series, in order.
pub open spec fn lists_live(series: Seq<Series>, parts: Seq<Part>, n: int) -> bool {
    &&& parts.len() == live_count(series, n)
    &&& forall|i: int, j: int|
        0 <= i < n && 0 <= j < series[i].buckets@.len() ==> #[trigger] lists_bucket(
            series,
            parts,
            i,
            j,
        )
}

proof fn lemma_live_count(series: Seq<Series>, i: int, n: int)
    requires
        0 <= i <= n,
    ensures
        0 <= live_count(series, i) <= live_count(series, n),
    decreases n,
{
    if i < n {
        lemma_live_count(series, i, n - 1);
    } else if n > 0 {
        lemma_live_count(series, n - 1, n - 1);
    }
}

fn live_parts(series: &Vec<Series>) -> (r: Vec<Part>)
    requires
        series_ok(series@),
    ensures
        lists_live(series@, r@, series@.len() as int),
        starts_ok(r@),
{
    let mut out: Vec<Part> = Vec::new();
    let mut i: usize = 0;
    while i < series.len()
        invariant
            i <= series@.len(),
            series_ok(series@),
            lists_live(series@, out@, i as int),
            starts_ok(out@),
        decreases series.len() - i,
    {
        let s = &series[i];
        let ghost before = out@;
        let mut j: usize = 0;
        assert(times_ok(series@[i as int]));
        while j < s.buckets.len()
            invariant
                i < series@.len(),
                *s == series@[i as int],
                times_ok(*s),
                j <= s.buckets@.len(),
                starts_ok(out@),
                lists_live(series@, before, i as int),
                out@.len() == before.len() + j,
                out@.take(before.len() as int) == before,
                forall|x: int|
                    0 <= x < j ==> is_live_part(
                        #[trigger] out@[before.len() + x],
                        *s,
                        s.buckets@[x],
                    ),
            decreases s.buckets.len() - j,
        {
            let b = s.buckets[j];
            assert(s.buckets@[j as int].bucket_start >= 0);
            let ghost mid = out@;
            out.push(
                Part { key: copy_texts(&s.key), bucket_start: b.bucket_start, n: b.n, id: b.id },
            );
            assert(out@.take(before.len() as int) =~= mid.take(before.len() as int));
            j += 1;
        }
        proof {
            assert(live_count(series@, i as int + 1) == live_count(series@, i as int)
                + s.buckets@.len());
            assert(before.len() == live_count(series@, i as int));
            assert forall|a: int, c: int|
                0 <= a < i + 1 && 0 <= c < series@[a].buckets@.len() implies #[trigger] lists_bucket(
                series@,
                out@,
                a,
                c,
            ) by {
                let at = live_count(series@, a) + c;
                lemma_live_count(series@, a, i as int);
                if a < i {
                    lemma_live_count(series@, a + 1, i as int);
                    assert(lists_bucket(series@, before, a, c));
                    assert(out@.take(before.len() as int)[at] == out@[at]);
                } else {
                    assert(is_live_part(out@[before.len() + c], *s, s.buckets@[c]));
                }
            }
        }
        i += 1;
    }
    out
}

/// Whether all times in a series are at or after zero.
pub open spec fn times_ok(s: Series) -> bool {
    forall|i: int| 0 <= i < s.buckets@.len() ==> (#[trigger] s.buckets@[i]).bucket_start >= 0
}

/// Whether all times in all series are at or after zero.
pub open spec fn series_ok(series: Seq<Series>) -> bool {
    forall|i: int| 0 <= i < series.len() ==> times_ok(#[trigger] series[i])
}

/// Whether a bucket is too old to wait any longer. The time is in whole seconds,
/// with or without a fraction beyond them.
pub open spec fn too_old(bucket_start: int, now: int, fraction: bool) -> bool {
    bucket_start + PENDING_BUCKET_MAX_AGE_S < now + (if fraction {
        1int
    } else {
        0int
    })
}

fn is_too_old(bucket_start: i64, now: i64, fraction: bool) -> (r: bool)
    requires
        0 <= now,
    ensures
        r == too_old(bucket_start as int, now as int, fraction),
{
    let cut: i64 = now - PENDING_BUCKET_MAX_AGE_S;
    bucket_start < cut || (bucket_start == cut && fraction)
}

/// The parts that do not wait too long yet.
pub open spec fn recent_parts(parts: Seq<Part>, now: int, fraction: bool) -> Seq<Part>
    decreases parts.len(),
{
    if parts.len() == 0 {
        Seq::empty()
    } else {
        let rest = recent_parts(parts.drop_last(), now, fraction);
        if too_old(parts.last().bucket_start as int, now, fraction) {
            rest
        } else {
            rest.push(parts.last())
        }
    }
}

/// The parts that start in a bucket of five minutes that is not complete.
pub open spec fn unfinished_parts(parts: Seq<Part>, current: int) -> Seq<Part>
    decreases parts.len(),
{
    if parts.len() == 0 {
        Seq::empty()
    } else {
        let rest = unfinished_parts(parts.drop_last(), current);
        if floor_of(parts.last().bucket_start as int, FIVE_MINUTES_SECONDS as int) >= current {
            rest.push(parts.last())
        } else {
            rest
        }
    }
}

/// Whether a part is a complete minute.
pub open spec fn is_minute_part(p: Part, r: Rollup) -> bool {
    &&& text::views(p.key@) == text::views(r.key@)
    &&& p.bucket_start == r.bucket_start
    &&& p.n == r.n
    &&& p.id == r.id
}

/// Whether parts are some parts followed by complete minutes.
pub open spec fn followed_by(first: Seq<Part>, minutes: Seq<Rollup>, all: Seq<Part>) -> bool {
    &&& all.len() == first.len() + minutes.len()
    &&& forall|i: int| 0 <= i < first.len() ==> all[i] == #[trigger] first[i]
    &&& forall|i: int|
        0 <= i < minutes.len() ==> is_minute_part(all[first.len() + i], #[trigger] minutes[i])
}

fn keep_recent(parts: Vec<Part>, now: i64, fraction: bool) -> (r: Vec<Part>)
    requires
        starts_ok(parts@),
        0 <= now,
    ensures
        r@ == recent_parts(parts@, now as int, fraction),
        starts_ok(r@),
{
    let ghost all = parts@;
    let mut out: Vec<Part> = Vec::new();
    assert(all.take(0) =~= Seq::empty());
    for p in it: parts
        invariant
            it.seq() == all,
            starts_ok(all),
            starts_ok(out@),
            0 <= now,
            out@ == recent_parts(all.take(it.index() as int), now as int, fraction),
    {
        proof {
            let i = it.index() as int;
            assert(all.take(i + 1).last() == p);
            assert(all.take(i + 1).drop_last() =~= all.take(i));
        }
        if !is_too_old(p.bucket_start, now, fraction) {
            out.push(p);
        }
    }
    assert(all.take(all.len() as int) =~= all);
    out
}

fn add_minutes(parts: Vec<Part>, minutes: &Vec<Rollup>) -> (r: Vec<Part>)
    requires
        starts_ok(parts@),
        forall|i: int| 0 <= i < minutes@.len() ==> (#[trigger] minutes@[i]).bucket_start >= 0,
    ensures
        followed_by(parts@, minutes@, r@),
        starts_ok(r@),
{
    let ghost first = parts@;
    let mut all = parts;
    let mut i: usize = 0;
    while i < minutes.len()
        invariant
            i <= minutes@.len(),
            all@.len() == first.len() + i,
            starts_ok(all@),
            forall|k: int| 0 <= k < minutes@.len() ==> (#[trigger] minutes@[k]).bucket_start >= 0,
            forall|k: int| 0 <= k < first.len() ==> all@[k] == #[trigger] first[k],
            forall|k: int|
                0 <= k < i ==> is_minute_part(all@[first.len() + k], #[trigger] minutes@[k]),
        decreases minutes.len() - i,
    {
        let m = &minutes[i];
        assert(minutes@[i as int].bucket_start >= 0);
        all.push(
            Part { key: copy_texts(&m.key), bucket_start: m.bucket_start, n: m.n, id: m.id },
        );
        i += 1;
    }
    all
}

fn keep_unfinished(parts: Vec<Part>, current: i64) -> (r: Vec<Part>)
    requires
        starts_ok(parts@),
    ensures
        r@ == unfinished_parts(parts@, current as int),
        starts_ok(r@),
{
    let ghost all = parts@;
    let mut out: Vec<Part> = Vec::new();
    assert(all.take(0) =~= Seq::empty());
    for p in it: parts
        invariant
            it.seq() == all,
            starts_ok(all),
            starts_ok(out@),
            out@ == unfinished_parts(all.take(it.index() as int), current as int),
    {
        proof {
            let i = it.index() as int;
            assert(all.take(i + 1).last() == p);
            assert(all.take(i + 1).drop_last() =~= all.take(i));
        }
        if floor_to(p.bucket_start, FIVE_MINUTES_SECONDS) >= current {
            out.push(p);
        }
    }
    assert(all.take(all.len() as int) =~= all);
    out
}

/// The buckets without those at the front that start before the cut.
pub open spec fn trimmed(buckets: Seq<LiveBucket>, cut: int) -> Seq<LiveBucket>
    decreases buckets.len(),
{
    if buckets.len() > 0 && buckets[0].bucket_start < cut {
        trimmed(buckets.drop_first(), cut)
    } else {
        buckets
    }
}

fn trim_front(buckets: &Vec<LiveBucket>, cut: i64) -> (r: Vec<LiveBucket>)
    ensures
        r@ == trimmed(buckets@, cut as int),
{
    let mut i: usize = 0;
    assert(buckets@.skip(0) =~= buckets@);
    while i < buckets.len() && buckets[i].bucket_start < cut
        invariant
            i <= buckets@.len(),
            trimmed(buckets@, cut as int) == trimmed(buckets@.skip(i as int), cut as int),
        decreases buckets.len() - i,
    {
        assert(buckets@.skip(i as int)[0] == buckets@[i as int]);
        assert(buckets@.skip(i as int).drop_first() =~= buckets@.skip(i as int + 1));
        i += 1;
    }
    let ghost rest = buckets@.skip(i as int);
    assert(trimmed(rest, cut as int) == rest) by {
        if i < buckets@.len() {
            assert(rest[0] == buckets@[i as int]);
        }
    }
    let mut out: Vec<LiveBucket> = Vec::new();
    let mut k: usize = i;
    while k < buckets.len()
        invariant
            i <= k <= buckets@.len(),
            rest == buckets@.skip(i as int),
            out@ == rest.take(k - i),
        decreases buckets.len() - k,
    {
        out.push(buckets[k]);
        assert(out@ =~= rest.take(k - i + 1));
        k += 1;
    }
    assert(out@ =~= rest);
    out
}

proof fn lemma_trimmed_times(buckets: Seq<LiveBucket>, cut: int, i: int)
    requires
        forall|k: int| 0 <= k < buckets.len() ==> (#[trigger] buckets[k]).bucket_start >= 0,
        0 <= i < trimmed(buckets, cut).len(),
    ensures
        trimmed(buckets, cut)[i].bucket_start >= 0,
    decreases buckets.len(),
{
    if buckets.len() > 0 && buckets[0].bucket_start < cut {
        let rest = buckets.drop_first();
        assert forall|k: int| 0 <= k < rest.len() implies (#[trigger] rest[k]).bucket_start
            >= 0 by {
            assert(buckets[k + 1].bucket_start >= 0);
        }
        lemma_trimmed_times(rest, cut, i);
    }
}

/// The positions of the series that keep a bucket.
pub open spec fn kept_series(series: Seq<Series>, cut: int, n: int) -> Seq<int> {
    indices::picked(n, |i: int| trimmed(series[i].buckets@, cut).len() > 0)
}

/// Whether a series is another without its old buckets.
pub open spec fn is_trimmed(old: Series, new: Series, cut: int) -> bool {
    &&& new.key == old.key
    &&& new.agg == old.agg
    &&& new.last_seen == old.last_seen
    &&& new.buckets@ == trimmed(old.buckets@, cut)
}

/// What collecting buckets of five minutes does to the state: in between two of
/// their ends the minutes are put with those that wait; at an end the minutes
/// that wait and are not too old, and the new ones, are rolled up, and those
/// of the five minutes under way wait on.
pub open spec fn collects_5m(
    before: ReportState,
    minutes: Seq<Rollup>,
    now: int,
    fraction: bool,
    after: ReportState,
    r: Seq<Rollup>,
) -> bool {
    let current = floor_of(now, FIVE_MINUTES_SECONDS as int);
    if current <= before.last_flushed_5m_start {
        &&& r.len() == 0
        &&& after.next_id == before.next_id
        &&& after.last_flushed_5m_start == before.last_flushed_5m_start
        &&& followed_by(before.pending_for_5m@, minutes, after.pending_for_5m@)
    } else {
        &&& after.last_flushed_5m_start == current
        &&& after.next_id == before.next_id + r.len()
        &&& exists|all: Seq<Part>|
            #![trigger unfinished_parts(all, current)]
            followed_by(recent_parts(before.pending_for_5m@, now, fraction), minutes, all)
                && after.pending_for_5m@ == unfinished_parts(all, current) && rolls_up(
                all,
                FIVE_MINUTES_SECONDS as int,
                before.last_flushed_5m_start as int,
                current,
                r,
                all.len() as int,
            )
    }
}

/// Before which buckets can be forgotten: what no window covers and no minute
/// to collect needs.
pub open spec fn trim_cut(now: int, flushed: int) -> int {
    if window_cut(now, MAX_WINDOW as int) < flushed {
        window_cut(now, MAX_WINDOW as int)
    } else {
        flushed
    }
}

impl ReportState {
    /// Whether all times are at or after zero.
    pub open spec fn wf(&self) -> bool {
        &&& series_ok(self.series@)
        &&& starts_ok(self.pending_for_5m@)
        &&& self.last_flushed_1m_start >= 0
        &&& self.last_flushed_5m_start >= 0
    }

    /// Nothing is known yet.
    pub fn new() -> (r: Self)
        ensures
            r.wf(),
            r.series@.len() == 0,
            r.pending_for_5m@.len() == 0,
            r.last_flushed_1m_start == 0,
            r.last_flushed_5m_start == 0,
            r.next_id == 0,
    {
        ReportState {
            series: Vec::new(),
            last_flushed_1m_start: 0,
            last_flushed_5m_start: 0,
            pending_for_5m: Vec::new(),
            next_id: 0,
        }
    }

    /// Counts an event of a key at a time.
    pub fn apply_event(
        &mut self,
        key: &Vec<String>,
        agg: Agg,
        n: Option<i64>,
        now: i64,
        seen: Double,
    ) -> (r: EventFate)
        requires
            old(self).wf(),
            0 <= now,
            old(self).next_id < u64::MAX,
        ensures
            final(self).wf(),
            final(self).last_flushed_1m_start == old(self).last_flushed_1m_start,
            final(self).last_flushed_5m_start == old(self).last_flushed_5m_start,
            final(self).pending_for_5m == old(self).pending_for_5m,
            ({
                let i = series_index(old(self).series@, text::views(key@));
                let start = floor_of(now as int, LIVE_BUCKET_SECONDS as int) as i64;
                let id = old(self).next_id;
                if 0 <= i < old(self).series@.len() {
                    let before = old(self).series@[i];
                    if before.agg != agg {
                        r is Dropped && *final(self) == *old(self)
                    } else {
                        let after = final(self).series@[i];
                        &&& final(self).series@ == old(self).series@.update(i, after)
                        &&& after.key == before.key
                        &&& after.agg == before.agg
                        &&& after.last_seen == seen
                        &&& after.buckets@ == buckets_after(before.buckets@, agg, n, start, id)
                        &&& if before.buckets@.len() > 0 && before.buckets@.last().bucket_start
                            == start {
                            r == EventFate::Joined(before.buckets@.last().id)
                                && final(self).next_id == id
                        } else {
                            r == EventFate::Opened(id) && final(self).next_id == id + 1
                        }
                    }
                } else {
                    let after = final(self).series@.last();
                    &&& final(self).series@ == old(self).series@.push(after)
                    &&& text::views(after.key@) == text::views(key@)
                    &&& after.agg == agg
                    &&& after.last_seen == seen
                    &&& after.buckets@ == seq![opened_bucket(id, start, agg, n)]
                    &&& r == EventFate::Opened(id)
                    &&& final(self).next_id == id + 1
                }
            }),
    {
        let at = find_series(&self.series, key);
        let start = floor_to(now, LIVE_BUCKET_SECONDS);
        let id: u64 = self.next_id;
        if at < self.series.len() {
            if self.series[at].agg != agg {
                return EventFate::Dropped;
            }
            let ghost before = self.series@;
            assert(times_ok(before[at as int]));
            self.series[at].last_seen = seen;
            let fate = add_to_buckets(&mut self.series[at].buckets, agg, n, start, id);
            if let EventFate::Opened(_) = fate {
                self.next_id = id + 1;
            }
            proof {
                let after = self.series@;
                assert(after == before.update(at as int, after[at as int]));
                assert(times_ok(after[at as int])) by {
                    let b = before[at as int].buckets@;
                    let a = after[at as int].buckets@;
                    assert forall|k: int| 0 <= k < a.len() implies (#[trigger] a[k]).bucket_start
                        >= 0 by {
                        if k < b.len() {
                            assert(b[k].bucket_start >= 0);
                        }
                    }
                }
                assert forall|k: int| 0 <= k < after.len() implies times_ok(
                    #[trigger] after[k],
                ) by {
                    if k != at {
                        assert(after[k] == before[k]);
                    }
                }
            }
            return fate;
        }
        let mut buckets: Vec<LiveBucket> = Vec::new();
        let fate = add_to_buckets(&mut buckets, agg, n, start, id);
        assert(buckets@ =~= seq![opened_bucket(id, start, agg, n)]);
        self.next_id = id + 1;
        let ghost before = self.series@;
        self.series.push(Series { key: copy_texts(key), agg, buckets, last_seen: seen });
        proof {
            let after = self.series@;
            assert forall|k: int| 0 <= k < after.len() implies times_ok(#[trigger] after[k]) by {
                if k < before.len() {
                    assert(after[k] == before[k]);
                    assert(times_ok(before[k]));
                }
            }
        }
        fate
    }

    /// Collects the minutes that are complete at a time and not yet collected.
    pub fn collect_completed_1m(&mut self, now: i64) -> (r: Vec<Rollup>)
        requires
            old(self).wf(),
            0 <= now,
            old(self).next_id + live_count(old(self).series@, old(self).series@.len() as int)
                <= u64::MAX,
        ensures
            final(self).wf(),
            final(self).series == old(self).series,
            final(self).pending_for_5m == old(self).pending_for_5m,
            final(self).last_flushed_5m_start == old(self).last_flushed_5m_start,
            ({
                let current = floor_of(now as int, MINUTE_SECONDS as int);
                if current <= old(self).last_flushed_1m_start {
                    r@.len() == 0 && *final(self) == *old(self)
                } else {
                    &&& final(self).last_flushed_1m_start == current
                    &&& final(self).next_id == old(self).next_id + r@.len()
                    &&& exists|parts: Seq<Part>|
                        #![trigger lists_live(old(self).series@, parts, old(self).series@.len() as int)]
                        lists_live(old(self).series@, parts, old(self).series@.len() as int)
                            && rolls_up(
                            parts,
                            MINUTE_SECONDS as int,
                            old(self).last_flushed_1m_start as int,
                            current,
                            r@,
                            parts.len() as int,
                        )
                }
            }),
            forall|i: int| 0 <= i < r@.len() ==> (#[trigger] r@[i]).id == old(self).next_id + i,
            forall|i: int| 0 <= i < r@.len() ==> (#[trigger] r@[i]).bucket_start >= 0,
    {
        let current = floor_to(now, MINUTE_SECONDS);
        if current <= self.last_flushed_1m_start {
            return Vec::new();
        }
        let parts = live_parts(&self.series);
        let low: i64 = self.last_flushed_1m_start;
        let r = roll_up(&parts, MINUTE_SECONDS, low, current, self.next_id);
        assert(lists_live(self.series@, parts@, self.series@.len() as int));
        self.next_id = self.next_id + r.len() as u64;
        self.last_flushed_1m_start = current;
        r
    }

    /// Collects the buckets of five minutes that are complete at a time, from
    /// the minutes collected now and those that wait. In between two of their
    /// ends nothing is collected, and the minutes wait.
    pub fn collect_completed_5m_from_1m(
        &mut self,
        completed_1m: &Vec<Rollup>,
        now: i64,
        fraction: bool,
    ) -> (r: Vec<Rollup>)
        requires
            old(self).wf(),
            0 <= now,
            forall|i: int|
                0 <= i < completed_1m@.len() ==> (#[trigger] completed_1m@[i]).bucket_start >= 0,
            old(self).next_id + old(self).pending_for_5m@.len() + completed_1m@.len() <= u64::MAX,
        ensures
            final(self).wf(),
            final(self).series == old(self).series,
            final(self).last_flushed_1m_start == old(self).last_flushed_1m_start,
            collects_5m(
                *old(self),
                completed_1m@,
                now as int,
                fraction,
                *final(self),
                r@,
            ),
            forall|i: int| 0 <= i < r@.len() ==> (#[trigger] r@[i]).id == old(self).next_id + i,
    {
        let current = floor_to(now, FIVE_MINUTES_SECONDS);
        let mut waiting: Vec<Part> = Vec::new();
        std::mem::swap(&mut waiting, &mut self.pending_for_5m);
        let ghost waited = waiting@;
        if current <= self.last_flushed_5m_start {
            self.pending_for_5m = add_minutes(waiting, completed_1m);
            return Vec::new();
        }
        proof {
            lemma_recent_len(waited, now as int, fraction);
        }
        let all = add_minutes(keep_recent(waiting, now, fraction), completed_1m);
        let low: i64 = self.last_flushed_5m_start;
        let r = roll_up(&all, FIVE_MINUTES_SECONDS, low, current, self.next_id);
        self.next_id = self.next_id + r.len() as u64;
        self.last_flushed_5m_start = current;
        let ghost parts = all@;
        self.pending_for_5m = keep_unfinished(all, current);
        assert(self.pending_for_5m@ == unfinished_parts(parts, current as int));
        r
    }

    /// Forgets the buckets that no window covers and no minute needs, and the
    /// keys without buckets.
    pub fn trim_buckets(&mut self, now: i64)
        requires
            old(self).wf(),
            0 <= now,
        ensures
            final(self).wf(),
            final(self).last_flushed_1m_start == old(self).last_flushed_1m_start,
            final(self).last_flushed_5m_start == old(self).last_flushed_5m_start,
            final(self).pending_for_5m == old(self).pending_for_5m,
            final(self).next_id == old(self).next_id,
            ({
                let cut = trim_cut(now as int, old(self).last_flushed_1m_start as int);
                let kept = kept_series(old(self).series@, cut, old(self).series@.len() as int);
                &&& final(self).series@.len() == kept.len()
                &&& forall|k: int|
                    0 <= k < kept.len() ==> is_trimmed(
                        old(self).series@[kept[k]],
                        #[trigger] final(self).series@[k],
                        cut,
                    )
            }),
    {
        let current = floor_to(now, LIVE_BUCKET_SECONDS);
        let window: i64 = current - (MAX_WINDOW - LIVE_BUCKET_SECONDS);
        let cut: i64 = if window < self.last_flushed_1m_start {
            window
        } else {
            self.last_flushed_1m_start
        };
        let mut series: Vec<Series> = Vec::new();
        std::mem::swap(&mut series, &mut self.series);
        let ghost before = series@;
        let mut out: Vec<Series> = Vec::new();
        for s in it: series
            invariant
                it.seq() == before,
                series_ok(before),
                series_ok(out@),
                out@.len() == kept_series(before, cut as int, it.index() as int).len(),
                forall|k: int|
                    0 <= k < out@.len() ==> is_trimmed(
                        before[kept_series(before, cut as int, it.index() as int)[k]],
                        #[trigger] out@[k],
                        cut as int,
                    ),
        {
            let ghost i = it.index() as int;
            assert(before[i] == s);
            assert(times_ok(before[i]));
            let buckets = trim_front(&s.buckets, cut);
            if buckets.len() > 0 {
                proof {
                    assert forall|k: int| 0 <= k < buckets@.len() implies (
                    #[trigger] buckets@[k]).bucket_start >= 0 by {
                        lemma_trimmed_times(s.buckets@, cut as int, k);
                    }
                }
                let ghost so_far = out@;
                out.push(Series { key: s.key, agg: s.agg, buckets, last_seen: s.last_seen });
                proof {
                    assert forall|k: int| 0 <= k < out@.len() implies times_ok(
                        #[trigger] out@[k],
                    ) by {
                        if k < so_far.len() {
                            assert(out@[k] == so_far[k]);
                            assert(times_ok(so_far[k]));
                        }
                    }
                }
            }
        }
        self.series = out;
    }
}

proof fn lemma_recent_len(parts: Seq<Part>, now: int, fraction: bool)
    ensures
        recent_parts(parts, now, fraction).len() <= parts.len(),
    decreases parts.len(),
{
    if parts.len() > 0 {
        lemma_recent_len(parts.drop_last(), now, fraction);
    }
}

/// A bucket that can be forgotten lies before every window, now and later, and
/// its minute was collected.
pub proof fn forgotten_buckets_are_not_missed(
    bucket_start: int,
    now: int,
    later: int,
    window: int,
    flushed: int,
)
    requires
        0 <= bucket_start < trim_cut(now, flushed),
        0 <= now <= later,
        window <= MAX_WINDOW,
    ensures
        bucket_start < window_cut(later, window),
        floor_of(bucket_start, MINUTE_SECONDS as int) < flushed,
{
    vstd::arithmetic::div_mod::lemma_div_is_ordered(now, later, LIVE_BUCKET_SECONDS as int);
    vstd::arithmetic::mul::lemma_mul_inequality(
        now / (LIVE_BUCKET_SECONDS as int),
        later / (LIVE_BUCKET_SECONDS as int),
        LIVE_BUCKET_SECONDS as int,
    );
    buckets_hold_their_times(bucket_start, MINUTE_SECONDS as int);
}

/// Every live bucket of a complete minute goes into the bucket of its key and
/// minute, and into no other.
pub proof fn due_parts_are_collected_once(
    parts: Seq<Part>,
    seconds: int,
    low: int,
    current: int,
    rollups: Seq<Rollup>,
    k: int,
)
    requires
        rolls_up(parts, seconds, low, current, rollups, parts.len() as int),
        0 <= k < parts.len(),
        is_due(parts[k], seconds, low, current),
    ensures
        exists|i: int|
            0 <= i < rollups.len() && rollup_label(#[trigger] rollups[i]) == label_of(
                parts[k],
                seconds,
            ) && part_positions(
                parts,
                seconds,
                rollup_label(rollups[i]),
                parts.len() as int,
            ).contains(k),
        forall|i: int, j: int|
            #![trigger rollups[i], rollups[j]]
            0 <= i < rollups.len() && 0 <= j < rollups.len() && rollup_label(rollups[i])
                == label_of(parts[k], seconds) && rollup_label(rollups[j]) == label_of(
                parts[k],
                seconds,
            ) ==> i == j,
{
    let label = label_of(parts[k], seconds);
    assert(has_label(rollups, label));
    let i = choose|i: int| 0 <= i < rollups.len() && rollup_label(#[trigger] rollups[i]) == label;
    let p = |x: int| label_of(parts[x], seconds) == label;
    indices::picked_is_exact(parts.len() as int, p);
    assert(part_positions(parts, seconds, rollup_label(rollups[i]), parts.len() as int)
        == indices::picked(parts.len() as int, p));
    assert(p(k));
    assert forall|a: int, b: int|
        #![trigger rollups[a], rollups[b]]
        0 <= a < rollups.len() && 0 <= b < rollups.len() && rollup_label(rollups[a]) == label
            && rollup_label(rollups[b]) == label implies a == b by {
        if a < b {
            assert(rollup_label(rollups[a]) != rollup_label(rollups[b]));
        } else if b < a {
            assert(rollup_label(rollups[b]) != rollup_label(rollups[a]));
        }
    }
}

proof fn lemma_unfinished(parts: Seq<Part>, current: int, i: int)
    requires
        0 <= i < parts.len(),
        floor_of(parts[i].bucket_start as int, FIVE_MINUTES_SECONDS as int) >= current,
    ensures
        unfinished_parts(parts, current).contains(parts[i]),
    decreases parts.len(),
{
    let all = unfinished_parts(parts, current);
    if i == parts.len() - 1 {
        assert(all.last() == parts[i]);
    } else {
        assert(parts.drop_last()[i] == parts[i]);
        lemma_unfinished(parts.drop_last(), current, i);
        let rest = unfinished_parts(parts.drop_last(), current);
        let k = choose|k: int| 0 <= k < rest.len() && rest[k] == parts[i];
        assert(all[k] == parts[i]);
    }
}

proof fn lemma_unfinished_only(parts: Seq<Part>, current: int, i: int)
    requires
        0 <= i < unfinished_parts(parts, current).len(),
    ensures
        floor_of(
            unfinished_parts(parts, current)[i].bucket_start as int,
            FIVE_MINUTES_SECONDS as int,
        ) >= current,
    decreases parts.len(),
{
    if parts.len() > 0 {
        let rest = unfinished_parts(parts.drop_last(), current);
        if i < rest.len() {
            lemma_unfinished_only(parts.drop_last(), current, i);
        }
    }
}

proof fn lemma_recent(parts: Seq<Part>, now: int, fraction: bool, i: int)
    requires
        0 <= i < parts.len(),
        !too_old(parts[i].bucket_start as int, now, fraction),
    ensures
        recent_parts(parts, now, fraction).contains(parts[i]),
    decreases parts.len(),
{
    let all = recent_parts(parts, now, fraction);
    if i == parts.len() - 1 {
        assert(all.last() == parts[i]);
    } else {
        assert(parts.drop_last()[i] == parts[i]);
        lemma_recent(parts.drop_last(), now, fraction, i);
        let rest = recent_parts(parts.drop_last(), now, fraction);
        let k = choose|k: int| 0 <= k < rest.len() && rest[k] == parts[i];
        assert(all[k] == parts[i]);
    }
}

/// Whether two parts are the same bucket.
pub open spec fn same_part(a: Part, b: Part) -> bool {
    &&& text::views(a.key@) == text::views(b.key@)
    &&& a.bucket_start == b.bucket_start
    &&& a.n == b.n
    &&& a.id == b.id
}

/// Whether all minutes that wait are of five minutes that were not collected.
pub open spec fn waits_in_time(state: ReportState) -> bool {
    forall|j: int|
        0 <= j < state.pending_for_5m@.len() ==> state.last_flushed_5m_start <= floor_of(
            (#[trigger] state.pending_for_5m@[j]).bucket_start as int,
            FIVE_MINUTES_SECONDS as int,
        )
}

/// Whether a bucket of five minutes counts a minute.
pub open spec fn counts_minute(r: Rollup, minute: Part) -> bool {
    rollup_label(r) == label_of(minute, FIVE_MINUTES_SECONDS as int) && r.parts@.contains(minute.id)
}

/// Whether a minute goes into one bucket of five minutes, and only one.
pub open spec fn reaches_one(r: Seq<Rollup>, minute: Part) -> bool {
    &&& exists|i: int| 0 <= i < r.len() && counts_minute(#[trigger] r[i], minute)
    &&& forall|i: int, j: int|
        #![trigger r[i], r[j]]
        0 <= i < r.len() && 0 <= j < r.len() && rollup_label(r[i]) == label_of(
            minute,
            FIVE_MINUTES_SECONDS as int,
        ) && rollup_label(r[j]) == label_of(minute, FIVE_MINUTES_SECONDS as int) ==> i == j
}

proof fn lemma_part_is_counted(all: Seq<Part>, low: int, current: int, r: Seq<Rollup>, k: int)
    requires
        rolls_up(all, FIVE_MINUTES_SECONDS as int, low, current, r, all.len() as int),
        0 <= k < all.len(),
        is_due(all[k], FIVE_MINUTES_SECONDS as int, low, current),
    ensures
        reaches_one(r, all[k]),
{
    let seconds = FIVE_MINUTES_SECONDS as int;
    due_parts_are_collected_once(all, seconds, low, current, r, k);
    let i = choose|i: int|
        0 <= i < r.len() && rollup_label(#[trigger] r[i]) == label_of(all[k], seconds)
            && part_positions(all, seconds, rollup_label(r[i]), all.len() as int).contains(k);
    assert(is_rollup(all, seconds, r[i], all.len() as int));
    let at = part_positions(all, seconds, rollup_label(r[i]), all.len() as int);
    let x = choose|x: int| 0 <= x < at.len() && at[x] == k;
    assert(ids_at(all, at)[x] == all[k].id);
    assert(r[i].parts@[x] == all[k].id);
    assert(counts_minute(r[i], all[k]));
}

/// A complete minute reaches exactly one bucket of five minutes. A minute that
/// is handed over, or waits and is not too old, is counted by one bucket as
/// soon as its five minutes are complete; before that it waits, and no bucket
/// counts it. The buckets of different rounds never overlap, so that none
/// counts it again. Left out are minutes of a bucket that was collected before
/// they came.
pub proof fn minutes_reach_one_bucket(
    before: ReportState,
    minutes: Seq<Rollup>,
    now: int,
    fraction: bool,
    after: ReportState,
    r: Seq<Rollup>,
    minute: Part,
)
    requires
        before.wf(),
        collects_5m(before, minutes, now, fraction, after, r),
        (exists|k: int| 0 <= k < minutes.len() && is_minute_part(minute, #[trigger] minutes[k])) || (
        before.pending_for_5m@.contains(minute) && !too_old(
            minute.bucket_start as int,
            now,
            fraction,
        )),
        before.last_flushed_5m_start <= floor_of(
            minute.bucket_start as int,
            FIVE_MINUTES_SECONDS as int,
        ),
    ensures
        ({
            let start = floor_of(minute.bucket_start as int, FIVE_MINUTES_SECONDS as int);
            if start < after.last_flushed_5m_start {
                reaches_one(r, minute)
            } else {
                &&& exists|j: int|
                    0 <= j < after.pending_for_5m@.len() && same_part(
                        #[trigger] after.pending_for_5m@[j],
                        minute,
                    )
                &&& !has_label(r, label_of(minute, FIVE_MINUTES_SECONDS as int))
            }
        }),
        forall|i: int|
            0 <= i < r.len() ==> before.last_flushed_5m_start <= (#[trigger] r[i]).bucket_start
                < after.last_flushed_5m_start,
{
    let seconds = FIVE_MINUTES_SECONDS as int;
    let current = floor_of(now, seconds);
    let start = floor_of(minute.bucket_start as int, seconds);
    let handed = exists|k: int|
        0 <= k < minutes.len() && is_minute_part(minute, #[trigger] minutes[k]);
    if current <= before.last_flushed_5m_start {
        let first = before.pending_for_5m@;
        let at = if handed {
            let k = choose|k: int|
                0 <= k < minutes.len() && is_minute_part(minute, #[trigger] minutes[k]);
            first.len() + k
        } else {
            choose|k: int| 0 <= k < first.len() && first[k] == minute
        };
        if handed {
            assert(is_minute_part(after.pending_for_5m@[at], minutes[at - first.len()]));
        } else {
            assert(after.pending_for_5m@[at] == first[at]);
        }
        assert(same_part(after.pending_for_5m@[at], minute));
    } else {
        let first = recent_parts(before.pending_for_5m@, now, fraction);
        let all = choose|all: Seq<Part>|
            #![trigger unfinished_parts(all, current)]
            followed_by(first, minutes, all) && after.pending_for_5m@ == unfinished_parts(
                all,
                current,
            ) && rolls_up(
                all,
                seconds,
                before.last_flushed_5m_start as int,
                current,
                r,
                all.len() as int,
            );
        let at = if handed {
            let k = choose|k: int|
                0 <= k < minutes.len() && is_minute_part(minute, #[trigger] minutes[k]);
            assert(is_minute_part(all[first.len() + k], minutes[k]));
            first.len() + k
        } else {
            let k = choose|k: int|
                0 <= k < before.pending_for_5m@.len() && before.pending_for_5m@[k] == minute;
            lemma_recent(before.pending_for_5m@, now, fraction, k);
            let x = choose|x: int| 0 <= x < first.len() && first[x] == minute;
            assert(all[x] == first[x]);
            x
        };
        assert(same_part(all[at], minute));
        if start < current {
            lemma_part_is_counted(all, before.last_flushed_5m_start as int, current, r, at);
            let i = choose|i: int| 0 <= i < r.len() && counts_minute(#[trigger] r[i], all[at]);
            assert(counts_minute(r[i], minute));
        } else {
            lemma_unfinished(all, current, at);
            let rest = unfinished_parts(all, current);
            let j = choose|j: int| 0 <= j < rest.len() && rest[j] == all[at];
            assert(same_part(after.pending_for_5m@[j], minute));
            if has_label(r, label_of(minute, seconds)) {
                let i = choose|i: int|
                    0 <= i < r.len() && rollup_label(#[trigger] r[i]) == label_of(minute, seconds);
                assert(r[i].bucket_start < current);
            }
        }
    }
}

/// The minutes that wait are of five minutes that were not collected yet, and
/// stay so, unless a minute comes too late for its own.
pub proof fn waiting_minutes_are_not_collected(
    before: ReportState,
    minutes: Seq<Rollup>,
    now: int,
    fraction: bool,
    after: ReportState,
    r: Seq<Rollup>,
)
    requires
        waits_in_time(before),
        collects_5m(before, minutes, now, fraction, after, r),
        forall|k: int|
            0 <= k < minutes.len() ==> before.last_flushed_5m_start <= floor_of(
                (#[trigger] minutes[k]).bucket_start as int,
                FIVE_MINUTES_SECONDS as int,
            ),
    ensures
        waits_in_time(after),
{
    let seconds = FIVE_MINUTES_SECONDS as int;
    let current = floor_of(now, seconds);
    let first = before.pending_for_5m@;
    assert forall|j: int| 0 <= j < after.pending_for_5m@.len() implies after.last_flushed_5m_start
        <= floor_of((#[trigger] after.pending_for_5m@[j]).bucket_start as int, seconds) by {
        if current <= before.last_flushed_5m_start {
            if j < first.len() {
                assert(after.pending_for_5m@[j] == first[j]);
            } else {
                assert(is_minute_part(after.pending_for_5m@[j], minutes[j - first.len()]));
            }
        } else {
            let all = choose|all: Seq<Part>|
                #![trigger unfinished_parts(all, current)]
                followed_by(recent_parts(first, now, fraction), minutes, all)
                    && after.pending_for_5m@ == unfinished_parts(all, current) && rolls_up(
                    all,
                    seconds,
                    before.last_flushed_5m_start as int,
                    current,
                    r,
                    all.len() as int,
                );
            lemma_unfinished_only(all, current, j);
        }
    }
}

/// A complete bucket with its value, ready to be written.
#[derive(Debug, Clone, PartialEq, Eq)]
pub struct MetricsBucket {
    pub key: String,
    pub dims: Vec<String>,
    pub bucket_start: i64,
    pub bucket_seconds: i64,
    pub value: Double,
    pub n: Option<i64>,
}

/// Whether two buckets are of the same key, dimensions and time.
pub open spec fn same_bucket(a: MetricsBucket, b: MetricsBucket) -> bool {
    &&& a.key@ == b.key@
    &&& text::views(a.dims@) == text::views(b.dims@)
    &&& a.bucket_start == b.bucket_start
    &&& a.bucket_seconds == b.bucket_seconds
}

/// Whether a bucket is among others.
pub open spec fn was_flushed(b: MetricsBucket, flushed: Seq<MetricsBucket>) -> bool {
    exists|i: int| 0 <= i < flushed.len() && same_bucket(b, #[trigger] flushed[i])
}

fn is_flushed(b: &MetricsBucket, flushed: &Vec<MetricsBucket>) -> (r: bool)
    ensures
        r == was_flushed(*b, flushed@),
{
    let mut i: usize = 0;
    while i < flushed.len()
        invariant
            i <= flushed@.len(),
            forall|k: int| 0 <= k < i ==> !same_bucket(*b, #[trigger] flushed@[k]),
        decreases flushed.len() - i,
    {
        let f = &flushed[i];
        if same_text(b.key.as_str(), f.key.as_str()) && same_key(&b.dims, &f.dims)
            && b.bucket_start == f.bucket_start && b.bucket_seconds == f.bucket_seconds {
            assert(same_bucket(*b, flushed@[i as int]));
            return true;
        }
        i += 1;
    }
    false
}

/// The buckets that were not written.
pub open spec fn unflushed(pending: Seq<MetricsBucket>, flushed: Seq<MetricsBucket>) -> Seq<
    MetricsBucket,
>
    decreases pending.len(),
{
    if pending.len() == 0 {
        Seq::empty()
    } else {
        let rest = unflushed(pending.drop_last(), flushed);
        if was_flushed(pending.last(), flushed) {
            rest
        } else {
            rest.push(pending.last())
        }
    }
}

/// Keeps the buckets that were not written: those that came while the others
/// were, too.
pub fn retain_unflushed(pending: Vec<MetricsBucket>, flushed: &Vec<MetricsBucket>) -> (r: Vec<
    MetricsBucket,
>)
    ensures
        r@ == unflushed(pending@, flushed@),
{
    let ghost all = pending@;
    let mut out: Vec<MetricsBucket> = Vec::new();
    assert(all.take(0) =~= Seq::empty());
    for b in it: pending
        invariant
            it.seq() == all,
            out@ == unflushed(all.take(it.index() as int), flushed@),
    {
        proof {
            let i = it.index() as int;
            assert(all.take(i + 1).last() == b);
            assert(all.take(i + 1).drop_last() =~= all.take(i));
        }
        if !is_flushed(&b, flushed) {
            out.push(b);
        }
    }
    assert(all.take(all.len() as int) =~= all);
    out
}

/// The buckets that do not wait too long yet.
pub open spec fn recent_buckets(pending: Seq<MetricsBucket>, now: int, fraction: bool) -> Seq<
    MetricsBucket,
>
    decreases pending.len(),
{
    if pending.len() == 0 {
        Seq::empty()
    } else {
        let rest = recent_buckets(pending.drop_last(), now, fraction);
        if too_old(pending.last().bucket_start as int, now, fraction) {
            rest
        } else {
            rest.push(pending.last())
        }
    }
}

/// Keeps the buckets that do not wait too long yet. The time is in whole
/// seconds, with or without a fraction beyond them.
pub fn retain_recent(pending: Vec<MetricsBucket>, now: i64, fraction: bool) -> (r: Vec<
    MetricsBucket,
>)
    requires
        0 <= now,
    ensures
        r@ == recent_buckets(pending@, now as int, fraction),
{
    let ghost all = pending@;
    let mut out: Vec<MetricsBucket> = Vec::new();
    assert(all.take(0) =~= Seq::empty());
    for b in it: pending
        invariant
            it.seq() == all,
            0 <= now,
            out@ == recent_buckets(all.take(it.index() as int), now as int, fraction),
    {
        proof {
            let i = it.index() as int;
            assert(all.take(i + 1).last() == b);
            assert(all.take(i + 1).drop_last() =~= all.take(i));
        }
        if !is_too_old(b.bucket_start, now, fraction) {
            out.push(b);
        }
    }
    assert(all.take(all.len() as int) =~= all);
    out
}

/// Whether buckets are written now: some wait, and no writing is under way.
pub fn flush_due(completed: bool, pending: bool, in_flight: bool) -> (r: bool)
    ensures
        r == ((completed || pending) && !in_flight),
{
    (completed || pending) && !in_flight
}

/// What became of an event on its way to be counted.
#[derive(Debug, Clone, Copy, PartialEq, Eq, Structural)]
pub enum SendOutcome {
    Sent,
    BufferFull,
    /// Nothing counts events any more.
    Disconnected,
}

/// What to log of it.
#[derive(Debug, Clone, Copy, PartialEq, Eq, Structural)]
pub enum SendNotice {
    Nothing,
    Dropping,
    Lost,
}

/// What was logged of events that did not arrive: that they are dropped, until
/// one arrives again, and that all are lost, once.
#[derive(Debug, Clone, Copy, PartialEq, Eq, Structural)]
pub struct DropNotices {
    pub dropping: bool,
    pub lost: bool,
}

impl DropNotices {
    /// Decides what to log after an event.
    pub fn on_send(&mut self, outcome: SendOutcome) -> (r: SendNotice)
        ensures
            match outcome {
                SendOutcome::Sent => r is Nothing && *final(self) == (DropNotices {
                    dropping: false,
                    ..*old(self)
                }),
                SendOutcome::BufferFull => (r is Dropping <==> !old(self).dropping) && (r
                    is Nothing <==> old(self).dropping) && *final(self) == (DropNotices {
                    dropping: true,
                    ..*old(self)
                }),
                SendOutcome::Disconnected => (r is Lost <==> !old(self).lost) && (r is Nothing
                    <==> old(self).lost) && *final(self) == (DropNotices {
                    lost: true,
                    ..*old(self)
                }),
            },
    {
        match outcome {
            SendOutcome::Sent => {
                self.dropping = false;
                SendNotice::Nothing
            },
            SendOutcome::BufferFull => {
                let known = self.dropping;
                self.dropping = true;
                if known {
                    SendNotice::Nothing
                } else {
                    SendNotice::Dropping
                }
            },
            SendOutcome::Disconnected => {
                let known = self.lost;
                self.lost = true;
                if known {
                    SendNotice::Nothing
                } else {
                    SendNotice::Lost
                }
            },
        }
    }
}

/// A model in memory.
#[derive(Debug, PartialEq, Eq)]
pub struct LoadedModel {
    pub kind: String,
    pub model: String,
    pub revision: Option<String>,
    /// The position of the model in the list it came from.
    pub at: usize,
}

/// Whether an optional text comes before another: none comes first.
pub open spec fn opt_precedes(a: Option<String>, b: Option<String>) -> bool {
    match (a, b) {
        (None, Some(_)) => true,
        (Some(x), Some(y)) => text::text_precedes(x@, y@),
        _ => false,
    }
}

/// Whether two optional texts are the same.
pub open spec fn opt_same(a: Option<String>, b: Option<String>) -> bool {
    text::opt_view(a) == text::opt_view(b)
}

fn opt_before(a: &Option<String>, b: &Option<String>) -> (r: bool)
    ensures
        r == opt_precedes(*a, *b),
{
    match (a, b) {
        (None, Some(_)) => true,
        (Some(x), Some(y)) => text_before(x.as_str(), y.as_str()),
        _ => false,
    }
}

proof fn lemma_text_order(a: Seq<char>, b: Seq<char>, c: Seq<char>)
    ensures
        text::text_precedes(a, b) ==> !text::text_precedes(b, a),
        !text::text_precedes(a, a),
        a == b || text::text_precedes(a, b) || text::text_precedes(b, a),
        text::text_precedes(a, b) && text::text_precedes(b, c) ==> text::text_precedes(a, c),
{
    text::text_precedes_irreflexive(a);
    text::text_precedes_total(a, b);
    if text::text_precedes(a, b) && text::text_precedes(b, c) {
        text::text_precedes_transitive(a, b, c);
    }
    if text::text_precedes(a, b) && text::text_precedes(b, a) {
        text::text_precedes_transitive(a, b, a);
    }
}

impl Ranked for LoadedModel {
    /// By model, then by revision, then by kind.
    open spec fn precedes(&self, other: &Self) -> bool {
        if self.model@ != other.model@ {
            text::text_precedes(self.model@, other.model@)
        } else if !opt_same(self.revision, other.revision) {
            opt_precedes(self.revision, other.revision)
        } else {
            text::text_precedes(self.kind@, other.kind@)
        }
    }

    proof fn precedes_asymmetric(a: &Self, b: &Self) {
        lemma_text_order(a.model@, b.model@, a.model@);
        lemma_text_order(a.kind@, b.kind@, a.kind@);
        if let (Some(x), Some(y)) = (a.revision, b.revision) {
            lemma_text_order(x@, y@, x@);
        }
    }

    proof fn not_precedes_transitive(a: &Self, b: &Self, c: &Self) {
        lemma_text_order(c.model@, b.model@, a.model@);
        lemma_text_order(b.model@, a.model@, c.model@);
        lemma_text_order(a.model@, c.model@, b.model@);
        lemma_text_order(c.kind@, b.kind@, a.kind@);
        lemma_text_order(b.kind@, a.kind@, c.kind@);
        lemma_text_order(a.kind@, c.kind@, b.kind@);
        if let (Some(x), Some(y), Some(z)) = (a.revision, b.revision, c.revision) {
            lemma_text_order(z@, y@, x@);
            lemma_text_order(y@, x@, z@);
            lemma_text_order(x@, z@, y@);
        }
    }

    fn before(&self, other: &Self) -> (r: bool) {
        if !same_text(self.model.as_str(), other.model.as_str()) {
            text_before(self.model.as_str(), other.model.as_str())
        } else if !text::same_opt_text(&self.revision, &other.revision) {
            opt_before(&self.revision, &other.revision)
        } else {
            text_before(self.kind.as_str(), other.kind.as_str())
        }
    }
}

/// Puts models in the order in which they are reported.
pub fn order_models(models: Vec<LoadedModel>) -> (r: Vec<LoadedModel>)
    ensures
        ranking::in_rank_order(r@),
        r@.to_multiset() == models@.to_multiset(),
        r@.len() == models@.len(),
{
    sort_ranked(models)
}

/// The name under which a model is reported: with its revision, if it has one.
pub fn model_label(model: &str, revision: &Option<String>) -> (r: String)
    ensures
        r@ == (match *revision {
            Some(v) => if v@.len() == 0 {
                model@
            } else {
                model@ + ":"@ + v@
            },
            None => model@,
        }),
{
    match revision {
        Some(v) => if char_count(v.as_str()) == 0 {
            model.to_owned()
        } else {
            text3(model, ":", v.as_str())
        },
        None => model.to_owned(),
    }
}

/// How long a model counts as recently used, in milliseconds.
pub const MODEL_IDLE_GRACE_MS: u64 = 300_000;

/// Whether a model was used recently.
pub fn recently_used(idle_ms: u64) -> (r: bool)
    ensures
        r == (idle_ms < MODEL_IDLE_GRACE_MS),
{
    idle_ms < MODEL_IDLE_GRACE_MS
}

/// Buckets begin at the multiples of their length.
pub proof fn buckets_begin_at_multiples(ts: int, bucket: int, k: int)
    requires
        bucket > 0,
        k >= 0,
        k * bucket <= ts < (k + 1) * bucket,
    ensures
        floor_of(ts, bucket) == k * bucket,
{
    assert(0 <= k * bucket) by (nonlinear_arith)
        requires
            k >= 0,
            bucket > 0,
    ;
    assert(ts / bucket == k) by (nonlinear_arith)
        requires
            bucket > 0,
            k * bucket <= ts < (k + 1) * bucket,
    ;
}

/// A series is found by its key, the first with it.
pub proof fn series_are_found_by_key(series: Seq<Series>, key: Seq<Seq<char>>, i: int)
    ensures
        0 <= i < series.len() && text::views(series[i].key@) == key && (forall|k: int|
            0 <= k < i ==> text::views((#[trigger] series[k]).key@) != key) ==> series_index(
            series,
            key,
        ) == i,
        (forall|k: int| 0 <= k < series.len() ==> text::views((#[trigger] series[k]).key@) != key)
            ==> series_index(series, key) == series.len(),
    decreases series.len(),
{
    if series.len() > 0 && text::views(series[0].key@) != key {
        let rest = series.drop_first();
        assert(forall|k: int| 0 <= k < rest.len() ==> #[trigger] rest[k] == series[k + 1]);
        series_are_found_by_key(rest, key, i - 1);
        if 0 < i < series.len() {
            assert(rest[i - 1] == series[i]);
        }
    }
}

/// An event of the running bucket joins it, and its count is added where averages
/// are kept; any other event opens a bucket of its own, with its count where
/// averages are kept. No other bucket is touched.
pub proof fn events_join_or_open_a_bucket(
    buckets: Seq<LiveBucket>,
    agg: Agg,
    n: i64,
    start: i64,
    id: u64,
)
    requires
        buckets.len() > 0,
        buckets.last().n matches Some(m) ==> i64::MIN <= m + n <= i64::MAX,
    ensures
        ({
            let after = buckets_after(buckets, agg, Some(n), start, id);
            let running = buckets.last().bucket_start == start;
            &&& running ==> after.len() == buckets.len() && after.last().id == buckets.last().id
                && after.last().bucket_start == start && after.drop_last() == buckets.drop_last()
            &&& !running ==> after == buckets.push(after.last()) && after.last().id == id
                && after.last().bucket_start == start
            &&& running && agg is Sum ==> after.last().n == buckets.last().n
            &&& running && agg is Avg && (buckets.last().n matches Some(m)) ==> after.last().n
                == Some((buckets.last().n->0 + n) as i64)
            &&& !running && agg is Sum ==> after.last().n is None
            &&& !running && agg is Avg ==> after.last().n == Some(n)
        }),
{
    let after = buckets_after(buckets, agg, Some(n), start, id);
    if buckets.last().bucket_start == start {
        assert(after.drop_last() =~= buckets.drop_last());
    } else {
        assert(after =~= buckets.push(after.last()));
    }
}

/// A window holds exactly the buckets from its beginning on, the newest first.
pub proof fn windows_hold_the_newest_buckets(buckets: Seq<LiveBucket>, cut: int, i: int)
    requires
        0 <= i <= buckets.len(),
        forall|k: int| i <= k < buckets.len() ==> (#[trigger] buckets[k]).bucket_start >= cut,
        i > 0 ==> buckets[i - 1].bucket_start < cut,
    ensures
        window_ids(buckets, cut).len() == buckets.len() - i,
        forall|k: int|
            0 <= k < buckets.len() - i ==> #[trigger] window_ids(buckets, cut)[k]
                == buckets[buckets.len() - 1 - k].id,
{
    lemma_tail_length(buckets, cut, i);
}

proof fn lemma_tail_length(buckets: Seq<LiveBucket>, cut: int, i: int)
    requires
        0 <= i <= buckets.len(),
        forall|k: int| i <= k < buckets.len() ==> (#[trigger] buckets[k]).bucket_start >= cut,
        i > 0 ==> buckets[i - 1].bucket_start < cut,
    ensures
        tail_length(buckets, cut) == buckets.len() - i,
    decreases buckets.len(),
{
    if i < buckets.len() {
        let init = buckets.drop_last();
        assert(buckets[buckets.len() - 1].bucket_start >= cut);
        assert(forall|k: int| 0 <= k < init.len() ==> #[trigger] init[k] == buckets[k]);
        lemma_tail_length(init, cut, i);
    }
}

/// A window of seconds ends with the running bucket: it begins that many seconds
/// before the end of it.
pub proof fn windows_end_with_the_running_bucket(now: int, window: int, k: int)
    requires
        k >= 0,
        5 * k <= now < 5 * (k + 1),
    ensures
        window_cut(now, window) == 5 * (k + 1) - window,
{
    assert(now / 5 == k);
}

/// The count of a window is that of its buckets together.
pub proof fn windows_add_up_their_counts(buckets: Seq<LiveBucket>, one: LiveBucket, cut: int)
    requires
        one.n matches Some(m) ==> i64::MIN <= m <= i64::MAX,
    ensures
        one.bucket_start < cut ==> window_count_from(buckets.push(one), cut, 0) == 0,
        one.bucket_start >= cut ==> window_count_from(buckets.push(one), cut, 0)
            == window_count_from(
            buckets,
            cut,
            match one.n {
                Some(m) => m,
                None => 0,
            },
        ),
        window_count_from(Seq::empty(), cut, 0) == 0,
{
    assert(buckets.push(one).drop_last() =~= buckets);
}

/// A rollup counts what its parts count: one more part adds its count, and one
/// without a count adds nothing.
pub proof fn rollups_add_up_their_counts(parts: Seq<Part>, positions: Seq<int>, p: int)
    ensures
        count_at(parts, Seq::empty()) is None,
        parts[p].n is None ==> count_at(parts, positions.push(p)) == count_at(parts, positions),
        (parts[p].n matches Some(m) && count_at(parts, positions) matches Some(c) && i64::MIN <= c
            + m <= i64::MAX) ==> count_at(parts, positions.push(p)) == Some(
            (count_at(parts, positions)->0 + parts[p].n->0) as i64,
        ),
        parts[p].n is Some && count_at(parts, positions) is None ==> count_at(
            parts,
            positions.push(p),
        ) == parts[p].n,
{
    assert(positions.push(p).drop_last() =~= positions);
}

/// A part is of the rollup of its key that begins where its time lies.
pub proof fn parts_are_of_the_rollup_of_their_time(
    parts: Seq<Part>,
    seconds: int,
    r: Rollup,
    k: int,
)
    requires
        is_rollup(parts, seconds, r, parts.len() as int),
        0 <= k < parts.len(),
        text::views(parts[k].key@) == text::views(r.key@),
        r.bucket_start >= 0,
        seconds > 0,
        parts[k].bucket_start >= 0,
        floor_of(parts[k].bucket_start as int, seconds) == r.bucket_start,
    ensures
        r.parts@.contains(parts[k].id),
{
    let label = rollup_label(r);
    let p = |i: int| label_of(parts[i], seconds) == label;
    let at = part_positions(parts, seconds, label, parts.len() as int);
    indices::picked_is_exact(parts.len() as int, p);
    assert(at.contains(k));
    let x = choose|x: int| 0 <= x < at.len() && at[x] == k;
    assert(r.parts@[x] == parts[k].id);
}

/// What waits is too old after a day.
pub proof fn waiting_ends_after_a_day(bucket_start: int, now: int)
    ensures
        too_old(bucket_start, now, false) <==> now - bucket_start > 86_400,
        too_old(bucket_start, now, true) <==> now - bucket_start >= 86_400,
{
}

/// What is not too old goes on waiting, in order.
pub proof fn recent_parts_go_on_waiting(parts: Seq<Part>, one: Part, now: int, fraction: bool)
    ensures
        recent_parts(Seq::empty(), now, fraction) == Seq::<Part>::empty(),
        too_old(one.bucket_start as int, now, fraction) ==> recent_parts(
            parts.push(one),
            now,
            fraction,
        ) == recent_parts(parts, now, fraction),
        !too_old(one.bucket_start as int, now, fraction) ==> recent_parts(
            parts.push(one),
            now,
            fraction,
        ) == recent_parts(parts, now, fraction).push(one),
{
    assert(parts.push(one).drop_last() =~= parts);
}

/// Minutes of five that are not over go on waiting, in order.
pub proof fn unfinished_parts_go_on_waiting(parts: Seq<Part>, one: Part, current: int)
    ensures
        unfinished_parts(Seq::empty(), current) == Seq::<Part>::empty(),
        floor_of(one.bucket_start as int, 300) >= current ==> unfinished_parts(
            parts.push(one),
            current,
        ) == unfinished_parts(parts, current).push(one),
        floor_of(one.bucket_start as int, 300) < current ==> unfinished_parts(
            parts.push(one),
            current,
        ) == unfinished_parts(parts, current),
{
    assert(parts.push(one).drop_last() =~= parts);
}

/// Buckets before a time are forgotten up to the first that is not.
pub proof fn old_buckets_are_forgotten(buckets: Seq<LiveBucket>, cut: int, i: int)
    requires
        0 <= i <= buckets.len(),
        forall|k: int| 0 <= k < i ==> (#[trigger] buckets[k]).bucket_start < cut,
        i < buckets.len() ==> buckets[i].bucket_start >= cut,
    ensures
        trimmed(buckets, cut) == buckets.skip(i),
    decreases buckets.len(),
{
    if i == 0 {
        assert(buckets.skip(0) =~= buckets);
    } else {
        let rest = buckets.drop_first();
        assert(buckets[0].bucket_start < cut);
        assert(forall|k: int| 0 <= k < rest.len() ==> #[trigger] rest[k] == buckets[k + 1]);
        old_buckets_are_forgotten(rest, cut, i - 1);
        assert(rest.skip(i - 1) =~= buckets.skip(i));
    }
}

/// A bucket stays pending exactly if none that was written has its key, its
/// dimensions, its time and its length.
pub proof fn written_buckets_are_no_longer_pending(
    pending: Seq<MetricsBucket>,
    one: MetricsBucket,
    flushed: Seq<MetricsBucket>,
)
    ensures
        unflushed(Seq::empty(), flushed) == Seq::<MetricsBucket>::empty(),
        ({
            let written = exists|i: int|
                0 <= i < flushed.len() && (#[trigger] flushed[i]).key@ == one.key@ && text::views(
                    flushed[i].dims@,
                ) == text::views(one.dims@) && flushed[i].bucket_start == one.bucket_start
                    && flushed[i].bucket_seconds == one.bucket_seconds;
            &&& written ==> unflushed(pending.push(one), flushed) == unflushed(pending, flushed)
            &&& !written ==> unflushed(pending.push(one), flushed) == unflushed(
                pending,
                flushed,
            ).push(one)
        }),
{
    assert(pending.push(one).drop_last() =~= pending);
    if was_flushed(one, flushed) {
        let i = choose|i: int| 0 <= i < flushed.len() && same_bucket(one, #[trigger] flushed[i]);
        assert(flushed[i].key@ == one.key@);
    }
    if exists|i: int|
        0 <= i < flushed.len() && (#[trigger] flushed[i]).key@ == one.key@ && text::views(
            flushed[i].dims@,
        ) == text::views(one.dims@) && flushed[i].bucket_start == one.bucket_start
            && flushed[i].bucket_seconds == one.bucket_seconds {
        let i = choose|i: int|
            0 <= i < flushed.len() && (#[trigger] flushed[i]).key@ == one.key@ && text::views(
                flushed[i].dims@,
            ) == text::views(one.dims@) && flushed[i].bucket_start == one.bucket_start
                && flushed[i].bucket_seconds == one.bucket_seconds;
        assert(same_bucket(one, flushed[i]));
    }
}

/// A pending bucket that is not too old stays, in order.
pub proof fn recent_buckets_stay_pending(
    pending: Seq<MetricsBucket>,
    one: MetricsBucket,
    now: int,
    fraction: bool,
)
    ensures
        recent_buckets(Seq::empty(), now, fraction) == Seq::<MetricsBucket>::empty(),
        too_old(one.bucket_start as int, now, fraction) ==> recent_buckets(
            pending.push(one),
            now,
            fraction,
        ) == recent_buckets(pending, now, fraction),
        !too_old(one.bucket_start as int, now, fraction) ==> recent_buckets(
            pending.push(one),
            now,
            fraction,
        ) == recent_buckets(pending, now, fraction).push(one),
{
    assert(pending.push(one).drop_last() =~= pending);
}

/// Loaded models are listed by name, those of one name by revision, with none
/// first, and those of one revision by kind.
pub proof fn models_are_listed_by_name(v: Seq<LoadedModel>, i: int, j: int)
    requires
        ranking::in_rank_order(v),
        0 <= i < j < v.len(),
    ensures
        !text::text_precedes(v[j].model@, v[i].model@),
        v[i].model@ == v[j].model@ ==> !(v[j].revision is None && v[i].revision is Some),
        v[i].model@ == v[j].model@ && v[i].revision is Some && v[j].revision is Some
            ==> !text::text_precedes(v[j].revision->0@, v[i].revision->0@),
{
    assert(!v[j].precedes(&v[i]));
    if v[i].model@ == v[j].model@ {
        text::text_precedes_irreflexive(v[i].model@);
    }
    if v[i].revision is Some && v[j].revision is Some && v[i].revision->0@ == v[j].revision->0@ {
        text::text_precedes_irreflexive(v[i].revision->0@);
    }
}

} // verus!
