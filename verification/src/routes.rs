//! What is counted of the requests that the API serves.

use vstd::prelude::*;

use crate::metrics::keys;
use crate::text;
use crate::text::{has_prefix, has_suffix, same_text, split_at_char, text_from};

verus! {

/// A kind of request that is counted by itself.
#[derive(Debug, Clone, Copy, PartialEq, Eq, Structural)]
pub enum RouteKind {
    AsyncUpload,
    SyncUpload,
    BulkUpload,
    Search,
    AsyncDelete,
    SyncDelete,
}

/// The kind of a path below a collection, by the parts that slashes separate.
pub open spec fn segments_kind(parts: Seq<Seq<char>>) -> Option<RouteKind> {
    if parts.len() == 2 && parts[1] == "documents"@ {
        Some(RouteKind::AsyncUpload)
    } else if parts.len() == 4 && parts[1] == "documents"@ && parts[3] == "sync"@ {
        Some(RouteKind::SyncDelete)
    } else if parts.len() == 3 && parts[1] == "documents"@ {
        Some(RouteKind::AsyncDelete)
    } else {
        None
    }
}

/// The kind of a path: by its end, or else by its parts.
pub open spec fn route_kind(path: Seq<char>) -> Option<RouteKind> {
    if "/documents/bulk"@.is_suffix_of(path) {
        Some(RouteKind::BulkUpload)
    } else if "/documents/sync"@.is_suffix_of(path) {
        Some(RouteKind::SyncUpload)
    } else if "/search"@.is_suffix_of(path) {
        Some(RouteKind::Search)
    } else if "/v1/collections/"@.is_prefix_of(path) {
        segments_kind(text::split(path.skip("/v1/collections/"@.len() as int), '/'))
    } else {
        None
    }
}

/// Finds the kind of a path.
pub fn classify_api_route(path: &str) -> (r: Option<RouteKind>)
    ensures
        r == route_kind(path@),
{
    if has_suffix(path, "/documents/bulk") {
        return Some(RouteKind::BulkUpload);
    }
    if has_suffix(path, "/documents/sync") {
        return Some(RouteKind::SyncUpload);
    }
    if has_suffix(path, "/search") {
        return Some(RouteKind::Search);
    }
    if !has_prefix(path, "/v1/collections/") {
        return None;
    }
    let start = text::char_count("/v1/collections/");
    let after = text_from(path, start);
    let parts = split_at_char(after.as_str(), '/');
    let ghost pieces = text::views(parts@);
    if parts.len() == 2 && same_text(parts[1].as_str(), "documents") {
        assert(pieces[1] == parts@[1]@);
        return Some(RouteKind::AsyncUpload);
    }
    if parts.len() == 4 && same_text(parts[1].as_str(), "documents") && same_text(
        parts[3].as_str(),
        "sync",
    ) {
        assert(pieces[1] == parts@[1]@ && pieces[3] == parts@[3]@);
        return Some(RouteKind::SyncDelete);
    }
    if parts.len() == 3 && same_text(parts[1].as_str(), "documents") {
        assert(pieces[1] == parts@[1]@);
        return Some(RouteKind::AsyncDelete);
    }
    None
}

/// The keys under which a request of a kind is counted and timed, and the
/// method that such a request has.
pub open spec fn kind_keys(kind: RouteKind) -> (Seq<char>, Seq<char>, Seq<char>) {
    match kind {
        RouteKind::AsyncUpload => (
            keys::API_ASYNC_UPLOAD@,
            keys::API_ASYNC_UPLOAD_MS@,
            "POST"@,
        ),
        RouteKind::SyncUpload => (keys::API_SYNC_UPLOAD@, keys::API_SYNC_UPLOAD_MS@, "POST"@),
        RouteKind::BulkUpload => (keys::API_BULK_UPLOAD@, keys::API_BULK_UPLOAD_MS@, "POST"@),
        RouteKind::Search => (keys::API_SEARCH@, keys::API_SEARCH_MS@, "POST"@),
        RouteKind::AsyncDelete => (
            keys::API_ASYNC_DELETE@,
            keys::API_ASYNC_DELETE_MS@,
            "DELETE"@,
        ),
        RouteKind::SyncDelete => (keys::API_SYNC_DELETE@, keys::API_SYNC_DELETE_MS@, "DELETE"@),
    }
}

fn find_keys(kind: RouteKind) -> (r: (&'static str, &'static str, &'static str))
    ensures
        (r.0@, r.1@, r.2@) == kind_keys(kind),
{
    match kind {
        RouteKind::AsyncUpload => (keys::API_ASYNC_UPLOAD, keys::API_ASYNC_UPLOAD_MS, "POST"),
        RouteKind::SyncUpload => (keys::API_SYNC_UPLOAD, keys::API_SYNC_UPLOAD_MS, "POST"),
        RouteKind::BulkUpload => (keys::API_BULK_UPLOAD, keys::API_BULK_UPLOAD_MS, "POST"),
        RouteKind::Search => (keys::API_SEARCH, keys::API_SEARCH_MS, "POST"),
        RouteKind::AsyncDelete => (keys::API_ASYNC_DELETE, keys::API_ASYNC_DELETE_MS, "DELETE"),
        RouteKind::SyncDelete => (keys::API_SYNC_DELETE, keys::API_SYNC_DELETE_MS, "DELETE"),
    }
}

/// One event to record of a request: one more under the key, or the time that
/// it took.
#[derive(Debug, Clone, Copy, PartialEq, Eq)]
pub struct RequestEvent {
    pub key: &'static str,
    pub timed: bool,
}

/// What events record.
pub open spec fn event_views(v: Seq<RequestEvent>) -> Seq<(Seq<char>, bool)> {
    Seq::new(v.len(), |i: int| (v[i].key@, v[i].timed))
}

/// What is recorded of every request.
pub open spec fn basic_events() -> Seq<(Seq<char>, bool)> {
    seq![(keys::API_REQUESTS@, false), (keys::API_REQUEST_MS@, true)]
}

/// What is recorded of a request that failed.
pub open spec fn failure_events(status: u16) -> Seq<(Seq<char>, bool)> {
    if status >= 500 {
        seq![(keys::API_ERROR_5XX@, false)]
    } else if status >= 400 {
        seq![(keys::API_ERROR_4XX@, false)]
    } else {
        Seq::empty()
    }
}

/// What is recorded of a request that is counted by itself.
pub open spec fn kind_events(method: Seq<char>, path: Seq<char>) -> Seq<(Seq<char>, bool)> {
    match route_kind(path) {
        Some(kind) => if method == kind_keys(kind).2 {
            seq![(kind_keys(kind).0, false), (kind_keys(kind).1, true)]
        } else {
            Seq::empty()
        },
        None => Seq::empty(),
    }
}

fn event(out: &mut Vec<RequestEvent>, key: &'static str, timed: bool)
    ensures
        event_views(final(out)@) == event_views(old(out)@).push((key@, timed)),
{
    let ghost before = event_views(out@);
    out.push(RequestEvent { key, timed });
    assert(event_views(out@) =~= before.push((key@, timed)));
}

/// Lists what to record of a request.
pub fn request_events(method: &str, path: &str, status: u16) -> (r: Vec<RequestEvent>)
    ensures
        event_views(r@) == basic_events() + failure_events(status) + kind_events(method@, path@),
{
    let mut out: Vec<RequestEvent> = Vec::new();
    event(&mut out, keys::API_REQUESTS, false);
    event(&mut out, keys::API_REQUEST_MS, true);
    assert(event_views(out@) =~= basic_events());
    if status >= 500 {
        event(&mut out, keys::API_ERROR_5XX, false);
    } else if status >= 400 {
        event(&mut out, keys::API_ERROR_4XX, false);
    }
    assert(event_views(out@) =~= basic_events() + failure_events(status));
    if let Some(kind) = classify_api_route(path) {
        let (count, time, expected) = find_keys(kind);
        if same_text(method, expected) {
            event(&mut out, count, false);
            event(&mut out, time, true);
        }
    }
    assert(event_views(out@) =~= basic_events() + failure_events(status) + kind_events(
        method@,
        path@,
    ));
    out
}

/// Whether the answer to a request is logged: every one that is no success.
pub fn is_logged(status: u16) -> (r: bool)
    ensures
        r == !(200 <= status < 300),
{
    !(200 <= status && status < 300)
}

/// The most characters of a body that are logged.
pub const MAX_LOGGED_CHARS: usize = 8192;

/// What is logged of a body: all of it, or its start and its length.
pub open spec fn logged_body(raw: Seq<char>) -> Seq<char> {
    if raw.len() <= MAX_LOGGED_CHARS {
        raw
    } else {
        raw.take(MAX_LOGGED_CHARS as int) + "\u{2026} (truncated, "@ + text::decimal(raw.len())
            + " chars)"@
    }
}

/// Shortens a body for the log.
pub fn truncate_body_for_log(raw: &str) -> (r: String)
    ensures
        r@ == logged_body(raw@),
{
    let cs = text::chars_of(raw);
    if cs.len() <= MAX_LOGGED_CHARS {
        return raw.to_owned();
    }
    let prefix = text::text_between(&cs, 0, MAX_LOGGED_CHARS);
    assert(prefix@ =~= raw@.take(MAX_LOGGED_CHARS as int));
    let count = text::decimal_text(cs.len() as u64);
    text::text4(prefix.as_str(), "\u{2026} (truncated, ", count.as_str(), " chars)")
}

/// A failed request is counted by its kind: one that is the server's, or one that
/// is the client's.
pub proof fn failures_are_counted_by_kind(status: u16)
    ensures
        status >= 500 ==> failure_events(status) == seq![(keys::API_ERROR_5XX@, false)],
        400 <= status < 500 ==> failure_events(status) == seq![(keys::API_ERROR_4XX@, false)],
        status < 400 ==> failure_events(status).len() == 0,
{
}

/// A path is known by its end, whatever collection it is of.
pub proof fn paths_are_known_by_their_end(before: Seq<char>)
    ensures
        route_kind(before + "/documents/bulk"@) == Some(RouteKind::BulkUpload),
        route_kind(before + "/documents/sync"@) == Some(RouteKind::SyncUpload),
        route_kind(before + "/search"@) == Some(RouteKind::Search),
{
    reveal_strlit("/documents/bulk");
    reveal_strlit("/documents/sync");
    reveal_strlit("/search");
    let b = before + "/documents/bulk"@;
    let s = before + "/documents/sync"@;
    let q = before + "/search"@;
    assert(b.subrange(b.len() - 15, b.len() as int) =~= "/documents/bulk"@);
    assert(s.subrange(s.len() - 15, s.len() as int) =~= "/documents/sync"@);
    assert(q.subrange(q.len() - 7, q.len() as int) =~= "/search"@);
    assert(s.last() == 'c');
    assert(b.last() == 'k');
    assert(q.last() == 'h');
    assert("/documents/bulk"@.last() == 'k');
    assert("/documents/sync"@.last() == 'c');
}

/// Paths of documents are uploads, deletions and awaited deletions, by their parts.
pub proof fn paths_of_documents_are_known_by_their_parts(
    name: Seq<char>,
    id: Seq<char>,
)
    ensures
        segments_kind(seq![name, "documents"@]) == Some(RouteKind::AsyncUpload),
        segments_kind(seq![name, "documents"@, id]) == Some(RouteKind::AsyncDelete),
        segments_kind(seq![name, "documents"@, id, "sync"@]) == Some(RouteKind::SyncDelete),
        segments_kind(seq![name]) is None,
{
}

/// A request is counted by itself exactly if its path is known and its method is
/// that of the path.
pub proof fn requests_are_counted_by_path_and_method(method: Seq<char>, path: Seq<char>)
    ensures
        route_kind(path) is None ==> kind_events(method, path).len() == 0,
        route_kind(path) matches Some(kind) ==> (kind_events(method, path).len() > 0 <==> method
            == (if kind is AsyncDelete || kind is SyncDelete {
            "DELETE"@
        } else {
            "POST"@
        })),
{
}

/// A body of up to the longest that is logged is logged whole; of a longer one the
/// beginning is, and how long it was.
pub proof fn long_bodies_are_cut(raw: Seq<char>)
    ensures
        raw.len() <= MAX_LOGGED_CHARS ==> logged_body(raw) == raw,
        raw.len() > MAX_LOGGED_CHARS ==> logged_body(raw).len() > MAX_LOGGED_CHARS
            && logged_body(raw).take(MAX_LOGGED_CHARS as int) == raw.take(MAX_LOGGED_CHARS as int),
{
    reveal_strlit(" chars)");
    if raw.len() > MAX_LOGGED_CHARS {
        assert(logged_body(raw).take(MAX_LOGGED_CHARS as int) =~= raw.take(
            MAX_LOGGED_CHARS as int,
        ));
    }
}

} // verus!
