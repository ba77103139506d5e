//! How the API answers what it refuses or cannot do.

use vstd::prelude::*;

use crate::encoder::{SearchError, UpsertSyncError};
use crate::models::{OkResponse, ReadyResponse};
use crate::qdrant::DbError;
use crate::text;
use crate::text::{
    char_count, chars_of, find_char, find_text, split_at_char, text2, text3, text_between, text_from,
};
use crate::validation::ValidationError;

verus! {

pub const STATUS_OK: u16 = 200;

/// The server is up, but not all that it depends on.
pub const STATUS_PARTIALLY_READY: u16 = 218;

pub const STATUS_BAD_REQUEST: u16 = 400;

pub const STATUS_NOT_FOUND: u16 = 404;

pub const STATUS_CONFLICT: u16 = 409;

pub const STATUS_UNSUPPORTED_MEDIA_TYPE: u16 = 415;

pub const STATUS_UNPROCESSABLE: u16 = 422;

pub const STATUS_TOO_MANY_REQUESTS: u16 = 429;

pub const STATUS_INTERNAL_ERROR: u16 = 500;

pub const STATUS_NOT_IMPLEMENTED: u16 = 501;

pub const STATUS_UNAVAILABLE: u16 = 503;

/// What the answer says of a problem: a text, or a text about a place in the
/// request.
#[derive(Debug, PartialEq, Eq)]
pub enum Detail {
    Message(String),
    Place { loc: Vec<String>, msg: String },
}

/// The answer to a request that fails.
#[derive(Debug, PartialEq, Eq)]
pub struct Problem {
    pub status: u16,
    pub detail: Detail,
}

/// What a `Detail` says.
#[verifier::ext_equal]
pub ghost enum DetailView {
    Message(Seq<char>),
    Place { place: Seq<Seq<char>>, words: Seq<char> },
}

/// What a `Problem` says.
#[verifier::ext_equal]
pub ghost struct ProblemView {
    pub status: u16,
    pub detail: DetailView,
}

impl Problem {
    pub open spec fn view(&self) -> ProblemView {
        ProblemView {
            status: self.status,
            detail: match self.detail {
                Detail::Message(m) => DetailView::Message(m@),
                Detail::Place { loc, msg } => DetailView::Place {
                    place: text::views(loc@),
                    words: msg@,
                },
            },
        }
    }
}

/// An answer with a status and a text.
pub open spec fn plain(status: u16, message: Seq<char>) -> ProblemView {
    ProblemView { status, detail: DetailView::Message(message) }
}

/// An answer about a place in the request.
pub open spec fn placed(status: u16, place: Seq<Seq<char>>, words: Seq<char>) -> ProblemView {
    ProblemView { status, detail: DetailView::Place { place, words } }
}

/// Answers with a status and a text.
pub fn api_error(status: u16, message: String) -> (r: Problem)
    ensures
        r@ == plain(status, message@),
{
    Problem { status, detail: Detail::Message(message) }
}

/// The place that the words of a validation name before the first `": "`, as a
/// path from the body of the request, and the words after it.
pub open spec fn validation_place(words: Seq<char>) -> (Seq<Seq<char>>, Seq<char>) {
    match text::first_occurrence(words, ": "@) {
        Some(i) => (seq!["body"@] + text::split(words.take(i), '.'), words.skip(i + 2)),
        None => (seq!["body"@], words),
    }
}

/// What the answer says of a validation that failed.
pub fn validation_error_detail_list(message: String) -> (r: Detail)
    ensures
        r matches Detail::Place { loc, msg } && (text::views(loc@), msg@) == validation_place(
            message@,
        ),
{
    let mut loc: Vec<String> = Vec::new();
    loc.push("body".to_owned());
    assert(text::views(loc@) =~= seq!["body"@]);
    match find_text(message.as_str(), ": ") {
        Some(i) => {
            proof {
                reveal_strlit(": ");
                assert(": "@.len() == 2);
            }
            let cs = chars_of(message.as_str());
            let path = text_between(&cs, 0, i);
            assert(message@.subrange(0, i as int) =~= message@.take(i as int));
            let mut parts = split_at_char(path.as_str(), '.');
            let ghost pieces = text::views(parts@);
            let ghost before = text::views(loc@);
            let ghost tail = parts@;
            let ghost head = loc@;
            loc.append(&mut parts);
            assert(loc@ =~= head + tail);
            assert(text::views(loc@) =~= before + pieces);
            Detail::Place { loc, msg: text_from(message.as_str(), i + 2) }
        },
        None => Detail::Place { loc, msg: message },
    }
}

/// The answer to a request that does not pass validation.
pub open spec fn invalid(words: Seq<char>) -> ProblemView {
    placed(STATUS_UNPROCESSABLE, validation_place(words).0, validation_place(words).1)
}

/// Answers a request that does not pass validation.
pub fn validation_error(e: ValidationError) -> (r: Problem)
    ensures
        r@ == invalid(e.0@),
{
    Problem { status: STATUS_UNPROCESSABLE, detail: validation_error_detail_list(e.0) }
}

/// The place that the message of a failed reading names: the body, and the
/// field that is missing from it.
pub open spec fn reading_place(message: Seq<char>) -> Seq<Seq<char>> {
    match text::first_occurrence(message, "missing field `"@) {
        Some(start) => {
            let after = message.skip(start + 15);
            let end = text::first_index(after, '`');
            if end < after.len() {
                seq!["body"@, after.take(end)]
            } else {
                seq!["body"@]
            }
        },
        None => seq!["body"@],
    }
}

/// Finds the place that the message of a failed reading names.
pub fn infer_json_error_loc(message: &str) -> (r: Vec<String>)
    ensures
        text::views(r@) == reading_place(message@),
{
    let mut loc: Vec<String> = Vec::new();
    loc.push("body".to_owned());
    assert(text::views(loc@) =~= seq!["body"@]);
    if let Some(start) = find_text(message, "missing field `") {
        proof {
            reveal_strlit("missing field `");
            assert("missing field `"@.len() == 15);
        }
        let whole = char_count(message);
        assert(start + 15 <= whole);
        let after = text_from(message, start + 15);
        let cs = chars_of(after.as_str());
        let end = find_char(&cs, '`');
        if end < cs.len() {
            let field = text_between(&cs, 0, end);
            assert(field@ =~= after@.take(end as int));
            loc.push(field);
            assert(text::views(loc@) =~= seq!["body"@, after@.take(end as int)]);
        }
    }
    loc
}

/// Why the body of a request could not be read.
#[derive(Debug, Clone, Copy, PartialEq, Eq, Structural)]
pub enum Rejection {
    /// It is JSON, but not what the request is made of.
    Data,
    /// It is no JSON.
    Syntax,
    /// It is not said to be JSON.
    ContentType,
    /// It did not arrive.
    Bytes,
    Other,
}

/// The status of the answer to a body that could not be read.
pub open spec fn rejection_status(kind: Rejection) -> u16 {
    match kind {
        Rejection::Data => STATUS_UNPROCESSABLE,
        Rejection::ContentType => STATUS_UNSUPPORTED_MEDIA_TYPE,
        _ => STATUS_BAD_REQUEST,
    }
}

/// Answers a request whose body could not be read.
pub fn json_rejection_response(kind: Rejection, message: String) -> (r: Problem)
    ensures
        r@ == placed(rejection_status(kind), reading_place(message@), message@),
{
    let status = match kind {
        Rejection::Data => STATUS_UNPROCESSABLE,
        Rejection::Syntax => STATUS_BAD_REQUEST,
        Rejection::ContentType => STATUS_UNSUPPORTED_MEDIA_TYPE,
        Rejection::Bytes => STATUS_BAD_REQUEST,
        Rejection::Other => STATUS_BAD_REQUEST,
    };
    let loc = infer_json_error_loc(message.as_str());
    Problem { status, detail: Detail::Place { loc, msg: message } }
}

/// Answers a request with a parameter that is not acceptable.
pub fn query_validation_error(field: &str, message: String) -> (r: Problem)
    ensures
        r@ == placed(STATUS_UNPROCESSABLE, seq!["query"@, field@], message@),
{
    let loc = vec!["query".to_owned(), field.to_owned()];
    assert(text::views(loc@) =~= seq!["query"@, field@]);
    Problem { status: STATUS_UNPROCESSABLE, detail: Detail::Place { loc, msg: message } }
}

/// How a request answers that the database does not have what it asks for.
#[derive(Debug, Clone, Copy, PartialEq, Eq)]
pub enum Missing<'a> {
    /// That there is no such collection.
    Collection(&'a str),
    /// In the words of the database layer.
    AsReported,
    /// As any other failure.
    Failure,
}

/// The answer to a request that the database fails.
pub open spec fn database_problem(
    e: DbError,
    missing: Missing,
    config_is_refused: bool,
    context: Seq<char>,
) -> ProblemView {
    let failure = plain(STATUS_INTERNAL_ERROR, context + ": "@ + e.message_text());
    match e {
        DbError::NotFound(m) => match missing {
            Missing::Collection(name) => plain(
                STATUS_NOT_FOUND,
                "Collection '"@ + name@ + "' not found"@,
            ),
            Missing::AsReported => plain(STATUS_NOT_FOUND, m@),
            Missing::Failure => failure,
        },
        DbError::Config(m) => if config_is_refused {
            plain(STATUS_BAD_REQUEST, m@)
        } else {
            failure
        },
        DbError::Qdrant(_) => failure,
    }
}

/// Answers a request that the database fails.
pub fn db_problem(e: DbError, missing: Missing, config_is_refused: bool, context: &str) -> (r:
    Problem)
    ensures
        r@ == database_problem(e, missing, config_is_refused, context@),
{
    let words = e.message();
    let failure = text3(context, ": ", words.as_str());
    match e {
        DbError::NotFound(m) => match missing {
            Missing::Collection(name) => api_error(
                STATUS_NOT_FOUND,
                text3("Collection '", name, "' not found"),
            ),
            Missing::AsReported => api_error(STATUS_NOT_FOUND, m),
            Missing::Failure => api_error(STATUS_INTERNAL_ERROR, failure),
        },
        DbError::Config(m) => if config_is_refused {
            api_error(STATUS_BAD_REQUEST, m)
        } else {
            api_error(STATUS_INTERNAL_ERROR, failure)
        },
        DbError::Qdrant(_) => api_error(STATUS_INTERNAL_ERROR, failure),
    }
}

/// The status of the answer to a write that fails.
pub open spec fn write_status(e: UpsertSyncError) -> u16 {
    match e {
        UpsertSyncError::NotFound(_) => STATUS_NOT_FOUND,
        UpsertSyncError::Validation(_) => STATUS_BAD_REQUEST,
        UpsertSyncError::Vectorization(_) => STATUS_BAD_REQUEST,
        UpsertSyncError::IngressQueueFull(_) => STATUS_TOO_MANY_REQUESTS,
        UpsertSyncError::IngressWorkerExited(_) => STATUS_UNAVAILABLE,
        UpsertSyncError::Db(_) => STATUS_INTERNAL_ERROR,
        UpsertSyncError::QueueCollectionMismatch(_) => STATUS_INTERNAL_ERROR,
        UpsertSyncError::QueueEntryGone => STATUS_INTERNAL_ERROR,
    }
}

/// The answer to a write that fails.
pub open spec fn write_problem(e: UpsertSyncError) -> ProblemView {
    plain(
        write_status(e),
        match e {
            UpsertSyncError::Db(d) => "Database error: "@ + d.message_text(),
            _ => crate::encoder::upsert_error_text(e),
        },
    )
}

/// Answers a write: with the documents that were skipped as stale, or with why
/// it failed.
pub fn upsert_answer(outcome: Result<Vec<String>, UpsertSyncError>) -> (r: Result<
    OkResponse,
    Problem,
>)
    ensures
        match outcome {
            Ok(skipped) => r matches Ok(a) && a.ok && (if skipped@.len() == 0 {
                a.skipped is None
            } else {
                a.skipped == Some(skipped)
            }),
            Err(e) => r matches Err(p) && p@ == write_problem(e),
        },
{
    let e = match outcome {
        Ok(skipped) => {
            return Ok(OkResponse::ok_with_skipped(skipped));
        },
        Err(e) => e,
    };
    let words = e.message();
    let r = match e {
        UpsertSyncError::NotFound(_) => api_error(STATUS_NOT_FOUND, words),
        UpsertSyncError::Validation(_) => api_error(STATUS_BAD_REQUEST, words),
        UpsertSyncError::Vectorization(_) => api_error(STATUS_BAD_REQUEST, words),
        UpsertSyncError::IngressQueueFull(_) => api_error(STATUS_TOO_MANY_REQUESTS, words),
        UpsertSyncError::IngressWorkerExited(_) => api_error(STATUS_UNAVAILABLE, words),
        UpsertSyncError::Db(_) => api_error(
            STATUS_INTERNAL_ERROR,
            text2("Database error: ", words.as_str()),
        ),
        UpsertSyncError::QueueCollectionMismatch(_) => api_error(STATUS_INTERNAL_ERROR, words),
        UpsertSyncError::QueueEntryGone => api_error(STATUS_INTERNAL_ERROR, words),
    };
    Err(r)
}

/// The answer to a search that fails.
pub open spec fn search_failure(e: SearchError) -> ProblemView {
    match e {
        SearchError::NotFound(m) => plain(STATUS_NOT_FOUND, m@),
        SearchError::InvalidFilter(m) => plain(STATUS_BAD_REQUEST, m@),
        SearchError::Vectorization(m) => plain(STATUS_BAD_REQUEST, m@),
        SearchError::IngressQueueFull(m) => plain(STATUS_TOO_MANY_REQUESTS, m@),
        SearchError::IngressWorkerExited(m) => plain(STATUS_UNAVAILABLE, m@),
        SearchError::Db(d) => plain(STATUS_INTERNAL_ERROR, "Database error: "@ + d.message_text()),
    }
}

/// Answers a search that fails.
pub fn search_problem(e: SearchError) -> (r: Problem)
    ensures
        r@ == search_failure(e),
{
    match e {
        SearchError::NotFound(m) => api_error(STATUS_NOT_FOUND, m),
        SearchError::InvalidFilter(m) => api_error(STATUS_BAD_REQUEST, m),
        SearchError::Vectorization(m) => api_error(STATUS_BAD_REQUEST, m),
        SearchError::IngressQueueFull(m) => api_error(STATUS_TOO_MANY_REQUESTS, m),
        SearchError::IngressWorkerExited(m) => api_error(STATUS_UNAVAILABLE, m),
        SearchError::Db(d) => {
            let words = d.message();
            api_error(STATUS_INTERNAL_ERROR, text2("Database error: ", words.as_str()))
        },
    }
}

/// How ready the server is. A server without a message queue does not depend on
/// one, and indexing and queries run in this process.
pub fn readiness(database: bool, rabbitmq: Option<bool>) -> (r: (u16, ReadyResponse))
    ensures
        r.1.database == database,
        r.1.rabbitmq == (rabbitmq != Some(false)),
        r.1.index,
        r.1.query,
        r.1.ready == (r.1.database && r.1.rabbitmq && r.1.index && r.1.query),
        r.0 == (if !r.1.database || !r.1.rabbitmq || (!r.1.index && !r.1.query) {
            STATUS_UNAVAILABLE
        } else if r.1.ready {
            STATUS_OK
        } else {
            STATUS_PARTIALLY_READY
        }),
{
    let rabbitmq = match rabbitmq {
        Some(connected) => connected,
        None => true,
    };
    let index = true;
    let query = true;
    let ready = database && rabbitmq && index && query;
    let body = ReadyResponse { database, rabbitmq, index, query, ready };
    let status = if !database || !rabbitmq || (!index && !query) {
        STATUS_UNAVAILABLE
    } else if ready {
        STATUS_OK
    } else {
        STATUS_PARTIALLY_READY
    };
    (status, body)
}

/// A request that fails is answered with a status of failure: the client's for
/// what the request is or comes too early for, the server's for the rest.
pub proof fn failures_have_failure_statuses(
    e: DbError,
    missing: Missing,
    config_is_refused: bool,
    context: Seq<char>,
    w: UpsertSyncError,
    s: SearchError,
)
    ensures
        400 <= database_problem(e, missing, config_is_refused, context).status < 600,
        400 <= write_problem(w).status < 600,
        400 <= search_failure(s).status < 600,
        e is Qdrant ==> database_problem(e, missing, config_is_refused, context).status
            == STATUS_INTERNAL_ERROR,
        w is Db ==> write_problem(w).status == STATUS_INTERNAL_ERROR,
        s is Db ==> search_failure(s).status == STATUS_INTERNAL_ERROR,
        w is IngressQueueFull ==> write_problem(w).status == STATUS_TOO_MANY_REQUESTS,
        s is IngressQueueFull ==> search_failure(s).status == STATUS_TOO_MANY_REQUESTS,
{
}

/// What is wrong with a request is told at its place: the field that stands before
/// the first colon and space, part by part, below the body; without one the place
/// is the body.
pub proof fn problems_are_told_at_their_place(field: Seq<char>, words: Seq<char>)
    requires
        !text::contains_text(field, ": "@),
        !field.contains(':'),
    ensures
        validation_place(field + ": "@ + words) == (
            seq!["body"@] + text::split(field, '.'),
            words,
        ),
        validation_place(field) == (seq!["body"@], field),
        invalid(field).status == 422,
{
    reveal_strlit(": ");
    let s = field + ": "@ + words;
    let n = field.len() as int;
    text::texts_contain_their_parts(field, ": "@, words);
    text::first_occurrences_are_first(s, ": "@, n);
    text::first_occurrences_are_first(field, ": "@, 0);
    if let Some(k) = text::first_occurrence(s, ": "@) {
        if k < n {
            assert(s.subrange(k, k + 2)[0] == ':');
            assert(s[k] == ':');
            assert(field[k] == ':');
            assert(field.contains(':'));
        }
        assert(k == n);
        assert(s.take(n) =~= field);
        assert(s.skip(n + 2) =~= words);
    }
    if let Some(k) = text::first_occurrence(field, ": "@) {
        assert(text::occurs_at(field, ": "@, k));
    }
}

proof fn lemma_mark_stands_first(before: Seq<char>, mark: Seq<char>, rest: Seq<char>)
    requires
        mark.len() == 15,
        mark[14] == '`',
        forall|i: int| 0 <= i < 14 ==> mark[i] != '`',
        !before.contains('`'),
    ensures
        text::first_occurrence(before + mark + rest, mark) == Some(before.len() as int),
        (before + mark + rest).skip(before.len() as int + 15) == rest,
{
    let s = before + mark + rest;
    let n = before.len() as int;
    text::texts_contain_their_parts(before, mark, rest);
    text::first_occurrences_are_first(s, mark, n);
    let k = text::first_occurrence(s, mark)->0;
    assert(text::occurs_at(s, mark, k) && k <= n);
    if k < n {
        assert(s.subrange(k, k + 15)[14] == s[k + 14]);
        assert(s[k + 14] == '`');
        if k + 14 < n {
            assert(before[k + 14] == '`');
            assert(before.contains('`'));
        } else {
            assert(s[k + 14] == mark[k + 14 - n]);
        }
    }
    assert(s.skip(n + 15) =~= rest);
}

/// A field that is missing is named, below the body.
pub proof fn missing_fields_are_named(before: Seq<char>, name: Seq<char>, after: Seq<char>)
    requires
        !before.contains('`'),
        !name.contains('`'),
    ensures
        reading_place(before + "missing field `"@ + (name + seq!['`'] + after)) == seq![
            "body"@,
            name,
        ],
{
    let tail = name + seq!['`'] + after;
    assert("missing field `"@.len() == 15 && "missing field `"@[14] == '`' && forall|i: int|
        0 <= i < 14 ==> "missing field `"@[i] != '`') by {
        reveal_strlit("missing field `");
    }
    lemma_mark_stands_first(before, "missing field `"@, tail);
    text::first_index_is_first(tail, '`');
    let e = text::first_index(tail, '`');
    let m = name.len() as int;
    assert(tail[m] == '`');
    if e < m {
        assert(tail[e] == name[e]);
        assert(name.contains(name[e]));
    }
    assert(tail.take(m) =~= name);
}

/// The statuses of refused bodies: what cannot be understood, what is of another
/// kind, and everything else.
pub proof fn refused_bodies_have_their_status(kind: Rejection)
    ensures
        kind is Data ==> rejection_status(kind) == 422,
        kind is ContentType ==> rejection_status(kind) == 415,
        !(kind is Data) && !(kind is ContentType) ==> rejection_status(kind) == 400,
{
}

/// The statuses of failed writes.
pub proof fn failed_writes_have_their_status(e: UpsertSyncError)
    ensures
        e is NotFound ==> write_problem(e).status == 404,
        e is Validation || e is Vectorization ==> write_problem(e).status == 400,
        e is IngressQueueFull ==> write_problem(e).status == 429,
        e is IngressWorkerExited ==> write_problem(e).status == 503,
        e is Db || e is QueueCollectionMismatch || e is QueueEntryGone ==> write_problem(e).status
            == 500,
        e matches UpsertSyncError::Validation(m) ==> write_problem(e).detail == DetailView::Message(
            m@,
        ),
        e matches UpsertSyncError::NotFound(m) ==> write_problem(e).detail == DetailView::Message(
            m@,
        ),
{
}

/// The statuses of failed searches, with what went wrong.
pub proof fn failed_searches_have_their_status(e: SearchError)
    ensures
        e matches SearchError::NotFound(m) ==> search_failure(e) == plain(404, m@),
        e matches SearchError::InvalidFilter(m) ==> search_failure(e) == plain(400, m@),
        e matches SearchError::Vectorization(m) ==> search_failure(e) == plain(400, m@),
        e matches SearchError::IngressQueueFull(m) ==> search_failure(e) == plain(429, m@),
        e matches SearchError::IngressWorkerExited(m) ==> search_failure(e) == plain(503, m@),
        e is Db ==> search_failure(e).status == 500,
{
}

/// The statuses of errors of the database: what is missing is not found where the
/// request is for it, a wrong setting is refused where it is the request's, and
/// everything else is an error of the server.
pub proof fn database_errors_have_their_status(
    e: DbError,
    missing: Missing,
    config_is_refused: bool,
    context: Seq<char>,
)
    ensures
        e is NotFound && !(missing is Failure) ==> database_problem(
            e,
            missing,
            config_is_refused,
            context,
        ).status == 404,
        e is NotFound && missing is Failure ==> database_problem(
            e,
            missing,
            config_is_refused,
            context,
        ).status == 500,
        e is Config && config_is_refused ==> database_problem(
            e,
            missing,
            config_is_refused,
            context,
        ).status == 400,
        e is Config && !config_is_refused || e is Qdrant ==> database_problem(
            e,
            missing,
            config_is_refused,
            context,
        ).status == 500,
{
}

/// A problem stands for its status and its words.
pub proof fn problems_say_their_words(status: u16, m: String)
    ensures
        (Problem { status, detail: Detail::Message(m) })@ == plain(status, m@),
        plain(status, m@).status == status,
        plain(status, m@).detail == DetailView::Message(m@),
{
}

} // verus!
