//! Names, settings and messages of the talk over the message broker.

use vstd::prelude::*;
use crate::common::APP_PREFIX;
use crate::json;
use crate::json::{get_member, Json, JsonValue};
use crate::text;
use crate::text::{
    chars_of, decimal_text, has_char, text2, text3, text4, text5, text_between,
};

verus! {

/// How long a call is waited for, in seconds.
pub const RPC_TIMEOUT_SECONDS: u64 = 60;

/// The broker's heartbeat, in seconds.
pub const HEARTBEAT_SECONDS: u16 = 35;

/// How often a connection is tried.
pub const MAX_RETRIES: u32 = 10;

/// The pause between two attempts to connect, in seconds.
pub const RETRY_DELAY_SECONDS: u64 = 5;

/// The most messages in a queue.
pub const MAX_QUEUE_MESSAGES: i64 = 500_000;

/// The most bytes in a queue: a gigabyte.
pub const MAX_QUEUE_SIZE_BYTES: i64 = 1_073_741_824;

/// How long a queue for replies is kept without use, in milliseconds.
pub const REPLY_QUEUE_EXPIRES_MS: i64 = 65_000;

/// The address of the broker with the heartbeat in its query.
pub fn url_with_heartbeat(amqp_url: &str) -> (r: String)
    ensures
        r@ == amqp_url@ + (if amqp_url@.contains('?') {
            "&heartbeat="@
        } else {
            "?heartbeat="@
        }) + text::decimal(HEARTBEAT_SECONDS as nat),
{
    let seconds = decimal_text(HEARTBEAT_SECONDS as u64);
    if has_char(amqp_url, '?') {
        text3(amqp_url, "&heartbeat=", seconds.as_str())
    } else {
        text3(amqp_url, "?heartbeat=", seconds.as_str())
    }
}

/// The name of this host's connection.
pub fn connection_name(host: &str) -> (r: String)
    ensures
        r@ == "amgix"@ + "-now-"@ + host@,
{
    text3(APP_PREFIX, "-now-", host)
}

/// The name of the exchange.
pub fn exchange_name() -> (r: String)
    ensures
        r@ == "amgix"@ + ".topic"@,
{
    text2(APP_PREFIX, ".topic")
}

/// The name of the queue for replies: the first eight characters of something
/// unique make it this process's own.
pub fn reply_queue_name(host: &str, unique: &str) -> (r: String)
    requires
        unique@.len() >= 8,
    ensures
        r@ == "amgix"@ + "-rpc-"@ + host@ + "-"@ + unique@.take(8),
{
    let c = chars_of(unique);
    let short = text_between(&c, 0, 8);
    assert(unique@.subrange(0, 8) =~= unique@.take(8));
    text5(APP_PREFIX, "-rpc-", host, "-", short.as_str())
}

/// The tag of the consumer of replies.
pub fn reply_consumer_tag() -> (r: String)
    ensures
        r@ == "amgix"@ + "-reply-consumer"@,
{
    text2(APP_PREFIX, "-reply-consumer")
}

/// A setting of a queue.
#[derive(Debug, PartialEq, Eq)]
pub enum QueueArgument {
    Text(String),
    Number(i64),
}

/// The settings of a queue for replies: of the classic type, bounded, and
/// gone when it is not used.
pub fn classic_queue_args() -> (r: Vec<(String, QueueArgument)>)
    ensures
        r@.len() == 5,
        r@[0].0@ == "x-queue-type"@ && (r@[0].1 matches QueueArgument::Text(t) && t@
            == "classic"@),
        r@[1].0@ == "x-max-length"@ && r@[1].1 == QueueArgument::Number(MAX_QUEUE_MESSAGES),
        r@[2].0@ == "x-max-length-bytes"@ && r@[2].1 == QueueArgument::Number(
            MAX_QUEUE_SIZE_BYTES,
        ),
        r@[3].0@ == "x-overflow"@ && (r@[3].1 matches QueueArgument::Text(t) && t@
            == "reject-publish"@),
        r@[4].0@ == "x-expires"@ && r@[4].1 == QueueArgument::Number(REPLY_QUEUE_EXPIRES_MS),
{
    vec![
        ("x-queue-type".to_owned(), QueueArgument::Text("classic".to_owned())),
        ("x-max-length".to_owned(), QueueArgument::Number(MAX_QUEUE_MESSAGES)),
        ("x-max-length-bytes".to_owned(), QueueArgument::Number(MAX_QUEUE_SIZE_BYTES)),
        ("x-overflow".to_owned(), QueueArgument::Text("reject-publish".to_owned())),
        ("x-expires".to_owned(), QueueArgument::Number(REPLY_QUEUE_EXPIRES_MS)),
    ]
}

/// What to do after a failed attempt to connect.
#[derive(Debug, PartialEq, Eq)]
pub enum ConnectStep {
    /// Wait so many seconds and try again.
    Retry(u64),
    Failed(String),
}

/// Decides after a failed attempt to connect, counted from one.
pub fn connect_step(attempt: u32, error: &str) -> (r: ConnectStep)
    ensures
        if attempt < MAX_RETRIES {
            r == ConnectStep::Retry(RETRY_DELAY_SECONDS)
        } else {
            r matches ConnectStep::Failed(m) && m@ == "Failed to connect to RabbitMQ after "@
                + text::decimal(MAX_RETRIES as nat) + " attempts: "@ + error@
        },
{
    if attempt < MAX_RETRIES {
        return ConnectStep::Retry(RETRY_DELAY_SECONDS);
    }
    let n = decimal_text(MAX_RETRIES as u64);
    ConnectStep::Failed(
        text4("Failed to connect to RabbitMQ after ", n.as_str(), " attempts: ", error),
    )
}

/// When a call's message expires, in milliseconds: five seconds after the call
/// is given up.
pub fn expiration_ms(timeout_secs: u64) -> (r: String)
    requires
        (timeout_secs + 5) * 1000 <= u64::MAX,
    ensures
        r@ == text::decimal(((timeout_secs + 5) * 1000) as nat),
{
    decimal_text((timeout_secs + 5) * 1000)
}

/// How a call ended without a reply.
#[derive(Debug, PartialEq, Eq)]
pub enum CallFailure {
    Publish(String),
    Confirm(String),
    ChannelClosed,
    /// No reply within so many seconds.
    TimedOut(u64),
}

/// A failed call in words.
pub open spec fn call_failure_text(f: CallFailure, routing_key: Seq<char>) -> Seq<char> {
    match f {
        CallFailure::Publish(e) => "RPC publish failed: "@ + e@,
        CallFailure::Confirm(e) => "RPC publish confirm failed: "@ + e@,
        CallFailure::ChannelClosed => "RPC channel closed for routing_key="@ + routing_key,
        CallFailure::TimedOut(secs) => "RPC call to '"@ + routing_key + "' timed out after "@
            + text::decimal(secs as nat) + " seconds"@,
    }
}

/// A failed call in words.
pub fn call_failure_message(f: &CallFailure, routing_key: &str) -> (r: String)
    ensures
        r@ == call_failure_text(*f, routing_key@),
{
    match f {
        CallFailure::Publish(e) => text2("RPC publish failed: ", e.as_str()),
        CallFailure::Confirm(e) => text2("RPC publish confirm failed: ", e.as_str()),
        CallFailure::ChannelClosed => text2("RPC channel closed for routing_key=", routing_key),
        CallFailure::TimedOut(secs) => {
            let n = decimal_text(*secs);
            text5("RPC call to '", routing_key, "' timed out after ", n.as_str(), " seconds")
        },
    }
}

/// The response in a reply: the member `response` of its member `kwargs`.
pub open spec fn response_in(payload: Json) -> Option<Json> {
    match payload {
        Json::Object(m) => match json::member(m, "kwargs"@) {
            Some(Json::Object(k)) => json::member(k, "response"@),
            _ => None,
        },
        _ => None,
    }
}

fn object_member<'a>(v: &'a JsonValue, key: &str) -> (r: Option<&'a JsonValue>)
    ensures
        match r {
            Some(x) => v@ matches Json::Object(m) && json::member(m, key@) == Some(x@),
            None => v@ matches Json::Object(m) ==> json::member(m, key@) is None,
        },
{
    match v {
        JsonValue::Object(m) => {
            proof {
                JsonValue::object_view(*m);
            }
            get_member(m, key)
        },
        _ => None,
    }
}

/// The response in a reply.
pub fn reply_response<'a>(payload: &'a JsonValue) -> (r: Result<&'a JsonValue, String>)
    ensures
        match r {
            Ok(v) => response_in(payload@) == Some(v@),
            Err(e) => response_in(payload@) is None && e@ == "RPC reply missing kwargs.response"@,
        },
{
    if let Some(kwargs) = object_member(payload, "kwargs") {
        if let Some(v) = object_member(kwargs, "response") {
            return Ok(v);
        }
    }
    Err("RPC reply missing kwargs.response".to_owned())
}

/// What a message's trace says of the call.
pub fn traced_function(method: &str, routing_key: &str) -> (r: String)
    ensures
        r@ == "amgix"@ + "->"@ + method@ + "->"@ + routing_key@,
{
    text5(APP_PREFIX, "->", method, "->", routing_key)
}

/// The name of a header of a message's trace.
pub fn trace_header(part: &str) -> (r: String)
    ensures
        r@ == "amgix"@ + "_trace_"@ + part@,
{
    text3(APP_PREFIX, "_trace_", part)
}

/// The response of a reply is what stands under its name in the arguments of the
/// reply; a reply without one has none.
pub proof fn replies_hold_their_response(
    m: Seq<(Seq<char>, Json)>,
    k: Seq<(Seq<char>, Json)>,
    other: Json,
)
    ensures
        json::member(m, "kwargs"@) == Some(Json::Object(k)) ==> response_in(Json::Object(m))
            == json::member(k, "response"@),
        json::member(m, "kwargs"@) is None ==> response_in(Json::Object(m)) is None,
        !(other is Object) ==> response_in(other) is None,
{
}

/// A failed call is told with what went wrong, and with the key that it was for
/// where nothing answered.
pub proof fn failed_calls_are_told(e: String, secs: u64, routing_key: Seq<char>)
    ensures
        call_failure_text(CallFailure::Publish(e), routing_key) == "RPC publish failed: "@ + e@,
        call_failure_text(CallFailure::Confirm(e), routing_key) == "RPC publish confirm failed: "@
            + e@,
        call_failure_text(CallFailure::ChannelClosed, routing_key)
            == "RPC channel closed for routing_key="@ + routing_key,
        call_failure_text(CallFailure::TimedOut(secs), routing_key) == "RPC call to '"@
            + routing_key + "' timed out after "@ + text::decimal(secs as nat) + " seconds"@,
{
}

} // verus!
