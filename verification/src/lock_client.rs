//! The client of the lock service: how locks are asked for, how long to wait
//! between attempts, and when to give up.

use vstd::prelude::*;
use crate::json::JsonValue;
use crate::text;
use crate::text::{copy_texts, debug_format, decimal_text, joined, sort_texts, text2, text5};

verus! {

/// How often a release is tried.
pub const RELEASE_MAX_ATTEMPTS: u32 = 3;

/// The pause between two attempts to release, in milliseconds.
pub const RELEASE_RETRY_MS: u64 = 200;

/// Why a lock was not acquired.
#[derive(Debug, PartialEq, Eq)]
pub enum LockError {
    /// The time was over; it is in milliseconds.
    AcquisitionTimeout { locks: Vec<String>, elapsed_ms: u64 },
    Rpc(String),
}

/// A time in seconds with one decimal, as `{:.1}` prints the seconds of a
/// `Duration` of so many milliseconds.
pub uninterp spec fn seconds_text(ms: u64) -> Seq<char>;

/// Formats the seconds of `std::time::Duration::from_millis` with `{:.1}`.
#[verifier::external_body]
fn format_seconds(ms: u64) -> (r: String)
    ensures
        r@ == seconds_text(ms),
{
    format!("{:.1}", std::time::Duration::from_millis(ms).as_secs_f64())
}

/// Texts as `{:?}` prints them.
pub open spec fn debug_texts(v: Seq<Seq<char>>) -> Seq<Seq<char>> {
    Seq::new(v.len(), |i: int| text::debug_text(v[i]))
}

/// A list of texts as `{:?}` prints it.
pub open spec fn debug_list(v: Seq<Seq<char>>) -> Seq<char> {
    "["@ + text::join(debug_texts(v), ", "@) + "]"@
}

fn debug_list_text(v: &Vec<String>) -> (r: String)
    ensures
        r@ == debug_list(text::views(v@)),
{
    let mut parts: Vec<String> = Vec::new();
    let mut i: usize = 0;
    while i < v.len()
        invariant
            i <= v@.len(),
            parts@.len() == i,
            forall|k: int| 0 <= k < i ==> (#[trigger] parts@[k])@ == text::debug_text(v@[k]@),
        decreases v.len() - i,
    {
        parts.push(debug_format(v[i].as_str()));
        i += 1;
    }
    assert(text::views(parts@) =~= debug_texts(text::views(v@)));
    let list = joined(&parts, ", ");
    text::text3("[", list.as_str(), "]")
}

impl LockError {
    pub open spec fn message_text(self) -> Seq<char> {
        match self {
            LockError::AcquisitionTimeout { locks, elapsed_ms } =>
                "Failed to acquire locks within "@ + seconds_text(elapsed_ms) + "s: "@
                + debug_list(text::views(locks@)),
            LockError::Rpc(m) => "Lock RPC error: "@ + m@,
        }
    }

    /// The error in words.
    pub fn message(&self) -> (r: String)
        ensures
            r@ == self.message_text(),
    {
        match self {
            LockError::AcquisitionTimeout { locks, elapsed_ms } => {
                let seconds = format_seconds(*elapsed_ms);
                let list = debug_list_text(locks);
                text::text4(
                    "Failed to acquire locks within ",
                    seconds.as_str(),
                    "s: ",
                    list.as_str(),
                )
            },
            LockError::Rpc(m) => text2("Lock RPC error: ", m.as_str()),
        }
    }
}

/// The name under which this process's own callers queue for a set of locks:
/// the same for the same locks in any order.
pub fn local_key(lock_names: &Vec<String>) -> (r: String)
    ensures
        r@ == text::join(text::sorted(text::views(lock_names@)), "|"@),
{
    let sorted = sort_texts(lock_names);
    joined(&sorted, "|")
}

/// The name by which the lock service knows this process.
pub fn owner_id(hostname: &str, pid: u32, unique: &str) -> (r: String)
    ensures
        r@ == hostname@ + "-"@ + text::decimal(pid as nat) + "-"@ + unique@,
{
    let number = decimal_text(pid as u64);
    text5(hostname, "-", number.as_str(), "-", unique)
}

/// The reply of a service.
#[derive(Debug, PartialEq, Eq)]
pub struct RpcResponse {
    pub success: bool,
    pub result: Option<JsonValue>,
    pub error: Option<String>,
    pub error_type: Option<String>,
    pub result_type: Option<String>,
}

/// What a reply without success says, or the given words.
pub open spec fn failure_text(error: Option<String>, otherwise: Seq<char>) -> Seq<char> {
    match error {
        Some(e) => e@,
        None => otherwise,
    }
}

fn failure_of(error: Option<String>, otherwise: &str) -> (r: String)
    ensures
        r@ == failure_text(error, otherwise@),
{
    match error {
        Some(e) => e,
        None => otherwise.to_owned(),
    }
}

/// Whether a reply to a request for locks grants them.
pub fn read_acquire_reply(reply: RpcResponse) -> (r: Result<bool, String>)
    ensures
        match r {
            Ok(granted) => reply.success && granted == (reply.result == Some(
                JsonValue::Bool(true),
            )),
            Err(e) => !reply.success && e@ == failure_text(
                reply.error,
                "lock-service returned failure"@,
            ),
        },
{
    if !reply.success {
        return Err(failure_of(reply.error, "lock-service returned failure"));
    }
    match reply.result {
        Some(JsonValue::Bool(b)) => Ok(b),
        _ => Ok(false),
    }
}

/// What a reply to a release or to a refresh says, in the words of the action.
pub fn read_plain_reply(reply: RpcResponse, otherwise: &str) -> (r: Result<(), String>)
    ensures
        match r {
            Ok(_) => reply.success,
            Err(e) => !reply.success && e@ == failure_text(reply.error, otherwise@),
        },
{
    if reply.success {
        Ok(())
    } else {
        Err(failure_of(reply.error, otherwise))
    }
}

/// The pause after the `attempt`th attempt, in milliseconds: longer each time,
/// up to a second.
pub open spec fn backoff_of(attempt: int) -> int {
    if attempt * 100 < 1000 {
        attempt * 100
    } else {
        1000
    }
}

/// What to do after an attempt to acquire locks.
#[derive(Debug, PartialEq, Eq)]
pub enum AcquireStep {
    Acquired,
    /// Wait so many milliseconds and try again, if the time is not over.
    Wait(u64),
}

/// An acquisition under way.
#[derive(Debug, PartialEq, Eq)]
pub struct AcquireRun {
    pub lock_names: Vec<String>,
    pub attempt: u32,
    /// Why the last attempt failed, if it was not for the locks being held.
    pub last_error: Option<String>,
}

impl AcquireRun {
    /// Starts to acquire locks.
    pub fn start(lock_names: &Vec<String>) -> (r: AcquireRun)
        ensures
            text::views(r.lock_names@) == text::views(lock_names@),
            r.attempt == 0,
            r.last_error is None,
    {
        AcquireRun { lock_names: copy_texts(lock_names), attempt: 0, last_error: None }
    }

    /// An attempt ended: with the locks, with the locks held by another, or with
    /// an error.
    pub fn on_reply(&mut self, reply: Result<bool, String>) -> (r: AcquireStep)
        ensures
            final(self).lock_names == old(self).lock_names,
            match reply {
                Ok(true) => r is Acquired && *final(self) == *old(self),
                Ok(false) => {
                    &&& final(self).last_error is None
                    &&& final(self).attempt == old(self).attempt.saturating_add(1)
                    &&& r == AcquireStep::Wait(backoff_of(final(self).attempt as int) as u64)
                },
                Err(e) => {
                    &&& final(self).last_error == Some(e)
                    &&& final(self).attempt == old(self).attempt.saturating_add(1)
                    &&& r == AcquireStep::Wait(backoff_of(final(self).attempt as int) as u64)
                },
            },
    {
        match reply {
            Ok(true) => {
                return AcquireStep::Acquired;
            },
            Ok(false) => {
                self.last_error = None;
            },
            Err(e) => {
                self.last_error = Some(e);
            },
        }
        self.attempt = self.attempt.saturating_add(1);
        let ms: u64 = if (self.attempt as u64) * 100 < 1000 {
            (self.attempt as u64) * 100
        } else {
            1000
        };
        AcquireStep::Wait(ms)
    }

    /// The time is over: the last error counts, or else the time.
    pub fn on_deadline(self, timeout_ms: u64) -> (r: LockError)
        ensures
            match self.last_error {
                Some(e) => r == LockError::Rpc(e),
                None => r == (LockError::AcquisitionTimeout {
                    locks: self.lock_names,
                    elapsed_ms: timeout_ms,
                }),
            },
    {
        match self.last_error {
            Some(e) => LockError::Rpc(e),
            None => LockError::AcquisitionTimeout {
                locks: self.lock_names,
                elapsed_ms: timeout_ms,
            },
        }
    }
}

/// The pauses grow with the attempts and never exceed a second.
pub proof fn pauses_are_bounded(a: int, b: int)
    requires
        0 <= a <= b,
    ensures
        backoff_of(a) <= backoff_of(b) <= 1000,
{
}

/// What to do after an attempt to release locks.
#[derive(Debug, PartialEq, Eq)]
pub enum ReleaseStep {
    Released,
    /// The service refused, or the attempts are used up.
    Failed(String),
    /// Wait so many milliseconds and try again.
    Retry(u64),
}

/// Decides after an attempt to release, counted from zero. A refusal is final;
/// a failure to ask is not, until the attempts are used up.
pub fn release_step(attempt: u32, reply: Result<RpcResponse, String>) -> (r: ReleaseStep)
    requires
        attempt < RELEASE_MAX_ATTEMPTS,
    ensures
        match reply {
            Ok(response) => if response.success {
                r is Released
            } else {
                r matches ReleaseStep::Failed(m) && m@ == failure_text(
                    response.error,
                    "release failed"@,
                )
            },
            Err(e) => if attempt + 1 < RELEASE_MAX_ATTEMPTS {
                r == ReleaseStep::Retry(RELEASE_RETRY_MS)
            } else {
                r == ReleaseStep::Failed(e)
            },
        },
{
    match reply {
        Ok(response) => if response.success {
            ReleaseStep::Released
        } else {
            ReleaseStep::Failed(failure_of(response.error, "release failed"))
        },
        Err(e) => if attempt + 1 < RELEASE_MAX_ATTEMPTS {
            ReleaseStep::Retry(RELEASE_RETRY_MS)
        } else {
            ReleaseStep::Failed(e)
        },
    }
}

proof fn lemma_sorted_alike(a: Seq<Seq<char>>, b: Seq<Seq<char>>)
    requires
        text::ascending(a),
        text::ascending(b),
        a.to_multiset() == b.to_multiset(),
    ensures
        a == b,
    decreases a.len(),
{
    crate::ranking::same_elements(a, b);
    if a.len() > 0 {
        let i = choose|i: int| 0 <= i < a.len() && a[i] == b[0];
        assert(a.contains(b[0]));
        let j = choose|j: int| 0 <= j < b.len() && b[j] == a[0];
        assert(b.contains(a[0]));
        assert(a[0] == b[0]) by {
            text::text_precedes_total(a[0], b[0]);
            if i > 0 && j > 0 {
                assert(!text::text_precedes(a[i], a[0]));
                assert(!text::text_precedes(b[j], b[0]));
            }
        }
        a.to_multiset_ensures();
        b.to_multiset_ensures();
        let ra = a.drop_first();
        let rb = b.drop_first();
        assert(ra =~= a.remove(0));
        assert(rb =~= b.remove(0));
        assert(ra.to_multiset() =~= a.to_multiset().remove(a[0]));
        assert(rb.to_multiset() =~= b.to_multiset().remove(b[0]));
        assert(text::ascending(ra)) by {
            assert forall|x: int, y: int|
                #![trigger ra[x], ra[y]]
                0 <= x < y < ra.len() implies !text::text_precedes(ra[y], ra[x]) by {
                assert(!text::text_precedes(a[y + 1], a[x + 1]));
            }
        }
        assert(text::ascending(rb)) by {
            assert forall|x: int, y: int|
                #![trigger rb[x], rb[y]]
                0 <= x < y < rb.len() implies !text::text_precedes(rb[y], rb[x]) by {
                assert(!text::text_precedes(b[y + 1], b[x + 1]));
            }
        }
        lemma_sorted_alike(ra, rb);
        assert(a =~= seq![a[0]] + ra);
        assert(b =~= seq![b[0]] + rb);
    } else {
        assert(a =~= b);
    }
}

/// The same locks in another order are queued for under the same name.
pub proof fn lock_order_does_not_matter(a: Seq<Seq<char>>, b: Seq<Seq<char>>)
    requires
        a.to_multiset() == b.to_multiset(),
    ensures
        text::join(text::sorted(a), "|"@) == text::join(text::sorted(b), "|"@),
{
    text::sorted_is_a_sorted_permutation(a);
    text::sorted_is_a_sorted_permutation(b);
    lemma_sorted_alike(text::sorted(a), text::sorted(b));
}

/// The pause after a failed attempt is a tenth of a second for every attempt, and
/// no longer than one second.
pub proof fn pauses_grow_with_the_attempts(attempt: int)
    requires
        attempt >= 0,
    ensures
        attempt <= 10 ==> backoff_of(attempt) == 100 * attempt,
        attempt > 10 ==> backoff_of(attempt) == 1000,
{
}

/// A failed call is told by its own error where it has one.
pub proof fn failures_are_told_by_their_error(e: String, otherwise: Seq<char>)
    ensures
        failure_text(Some(e), otherwise) == e@,
        failure_text(None, otherwise) == otherwise,
{
}

} // verus!
