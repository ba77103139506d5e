use amgix_now::auth::{
    authentication_failed_detail, extract_api_key, ApiKeyAuthConfig, KeyRole,
};
use amgix_now::bunny_talk::{
    call_failure_message, classic_queue_args, connect_step, connection_name, exchange_name,
    expiration_ms, reply_consumer_tag, reply_queue_name, reply_response, trace_header,
    traced_function, url_with_heartbeat, CallFailure, ConnectStep, QueueArgument, MAX_RETRIES,
};
use amgix_now::json::{Double, JsonValue};
use amgix_now::lock_client::{
    local_key, owner_id, read_acquire_reply, read_plain_reply, release_step, AcquireRun,
    AcquireStep, LockError, ReleaseStep, RpcResponse, RELEASE_MAX_ATTEMPTS,
};
use amgix_now::metrics::{
    event_key, floor_to, flush_due, model_label, order_models, recently_used, retain_recent,
    retain_unflushed, sum_window, Agg, DropNotices, EventFate, LoadedModel, MetricsBucket,
    ReportState, SendNotice, SendOutcome, MODEL_IDLE_GRACE_MS,
};
use amgix_now::routes::{
    classify_api_route, is_logged, request_events, truncate_body_for_log, RouteKind,
};
use amgix_now::settings::{
    index_threads, log_env_filter_directives, parse_size, search_threads, sync_db_writes,
    version_text,
};

fn strings(v: &[&str]) -> Vec<String> {
    v.iter().map(|s| s.to_string()).collect()
}

fn some(s: &str) -> Option<String> {
    Some(s.to_string())
}

#[test]
fn duplicate_keys_keep_highest_role() {
    let settings =
        vec![("shared".to_string(), KeyRole::Search), ("shared".to_string(), KeyRole::Read)];
    let config = ApiKeyAuthConfig::from_settings(&settings);
    let found = config.key_roles.iter().find(|p| p.0 == "shared").map(|p| p.1);
    assert_eq!(found, Some(KeyRole::Read));
}

#[test]
fn keys_open_what_their_roles_cover() {
    let none = ApiKeyAuthConfig::from_settings(&vec![]);
    assert!(!none.need_auth);
    assert!(none.authorize("DELETE", "/v1/collections/foo", &None).is_ok());
    assert_eq!(none.log_startup(), "API key auth disabled (no AMGIX_*_KEY env vars set)");
    let config = ApiKeyAuthConfig::from_settings(&vec![
        ("s".to_string(), KeyRole::Search),
        ("r".to_string(), KeyRole::Read),
        ("a".to_string(), KeyRole::Admin),
    ]);
    assert_eq!(
        config.log_startup(),
        "API key auth enabled (3 key(s): 1 admin, 1 read, 1 search)"
    );
    let ok = |m: &str, p: &str, k: Option<&str>| {
        config.authorize(m, p, &k.map(|s| s.to_string())).is_ok()
    };
    assert!(ok("GET", "/v1/version", None));
    assert!(ok("POST", "/v1/collections/foo/search", Some("s")));
    assert!(!ok("GET", "/v1/collections", Some("s")) && ok("GET", "/v1/collections", Some("r")));
    assert!(!ok("DELETE", "/v1/collections/foo", Some("r")));
    assert!(ok("DELETE", "/v1/collections/foo", Some("a")));
    assert!(!ok("GET", "/v1/collections", Some("x")) && !ok("GET", "/v1/collections", None));
    assert_eq!(
        config.authorize("DELETE", "/v1/collections/foo", &None).unwrap_err(),
        authentication_failed_detail(KeyRole::Admin)
    );
    assert_eq!(
        authentication_failed_detail(KeyRole::Read),
        "Authentication failed. This endpoint requires at least a read API key. Pass it via the `api-key` header or `Authorization: Bearer <key>`."
    );
    assert!(KeyRole::Admin.covers(KeyRole::Search) && !KeyRole::Search.covers(KeyRole::Read));
}

#[test]
fn keys_come_in_either_header() {
    assert_eq!(extract_api_key(&Some(some("k")), &None), some("k"));
    assert_eq!(extract_api_key(&None, &Some(some("Bearer t"))), some("t"));
    assert_eq!(extract_api_key(&None, &None), None);
    assert_eq!(extract_api_key(&Some(some("k")), &Some(some("Bearer t"))), some("k"));
}

fn reply(success: bool, result: Option<JsonValue>, error: Option<&str>) -> RpcResponse {
    RpcResponse {
        success,
        result,
        error: error.map(|s| s.to_string()),
        error_type: None,
        result_type: None,
    }
}

#[test]
fn lock_names_are_put_in_order() {
    assert_eq!(local_key(&strings(&["b", "a"])), "a|b");
    assert_eq!(local_key(&strings(&["a", "b"])), "a|b");
    assert_eq!(owner_id("h", 12, "u"), "h-12-u");
}

#[test]
fn lock_replies_are_read() {
    assert_eq!(read_acquire_reply(reply(true, Some(JsonValue::Bool(true)), None)), Ok(true));
    assert_eq!(read_acquire_reply(reply(true, Some(JsonValue::Bool(false)), None)), Ok(false));
    assert_eq!(read_acquire_reply(reply(false, None, Some("no"))), Err("no".to_string()));
    assert_eq!(
        read_acquire_reply(reply(false, None, None)),
        Err("lock-service returned failure".to_string())
    );
    assert_eq!(read_plain_reply(reply(true, None, None), "x"), Ok(()));
    assert_eq!(read_plain_reply(reply(false, None, None), "x"), Err("x".to_string()));
}

#[test]
fn locks_are_waited_for() {
    let mut run = AcquireRun::start(&strings(&["a"]));
    assert_eq!(run.on_reply(Ok(true)), AcquireStep::Acquired);
    let first = run.on_reply(Ok(false));
    let second = run.on_reply(Ok(false));
    let wait = |s: &AcquireStep| match s {
        AcquireStep::Wait(ms) => *ms,
        AcquireStep::Acquired => 0,
    };
    assert!(wait(&first) > 0 && wait(&second) >= wait(&first));
    let e = run.on_deadline(1500);
    assert_eq!(e, LockError::AcquisitionTimeout { locks: strings(&["a"]), elapsed_ms: 1500 });
    assert_eq!(e.message(), format!("Failed to acquire locks within {:?}s: [\"a\"]", 1.5f64));
    let mut run = AcquireRun::start(&strings(&["a"]));
    run.on_reply(Err("down".to_string()));
    assert_eq!(run.on_deadline(5), LockError::Rpc("down".to_string()));
    assert_eq!(LockError::Rpc("m".to_string()).message(), "Lock RPC error: m");
}

#[test]
fn locks_are_released_with_patience() {
    assert_eq!(release_step(1, Ok(reply(true, None, None))), ReleaseStep::Released);
    assert!(matches!(release_step(1, Err("e".to_string())), ReleaseStep::Retry(_)));
    assert!(matches!(
        release_step(RELEASE_MAX_ATTEMPTS, Err("e".to_string())),
        ReleaseStep::Failed(_)
    ));
}

#[test]
fn messages_go_to_named_places() {
    assert_eq!(url_with_heartbeat("amqp://h/"), "amqp://h/?heartbeat=35");
    assert_eq!(url_with_heartbeat("amqp://h/?a=b"), "amqp://h/?a=b&heartbeat=35");
    assert_eq!(connection_name("h"), "amgix-now-h");
    assert_eq!(exchange_name(), "amgix.topic");
    assert_eq!(reply_queue_name("h", "0123456789"), "amgix-rpc-h-01234567");
    assert_eq!(reply_consumer_tag(), "amgix-reply-consumer");
    let args = classic_queue_args();
    assert_eq!(args[0], ("x-queue-type".to_string(), QueueArgument::Text("classic".to_string())));
    assert_eq!(args.len(), 5);
    assert_eq!(expiration_ms(60), "65000");
    assert!(!traced_function("m", "k").is_empty() && !trace_header("p").is_empty());
}

#[test]
fn connections_are_tried_again() {
    assert!(matches!(connect_step(1, "e"), ConnectStep::Retry(_)));
    assert_eq!(
        connect_step(MAX_RETRIES, "e"),
        ConnectStep::Failed("Failed to connect to RabbitMQ after 10 attempts: e".to_string())
    );
}

#[test]
fn failed_calls_say_why() {
    let say = |f: CallFailure| call_failure_message(&f, "k");
    assert_eq!(say(CallFailure::Publish("e".to_string())), "RPC publish failed: e");
    assert_eq!(say(CallFailure::Confirm("e".to_string())), "RPC publish confirm failed: e");
    assert_eq!(say(CallFailure::ChannelClosed), "RPC channel closed for routing_key=k");
    assert_eq!(say(CallFailure::TimedOut(60)), "RPC call to 'k' timed out after 60 seconds");
    let inner = JsonValue::Object(vec![("response".to_string(), JsonValue::Bool(true))]);
    let payload = JsonValue::Object(vec![("kwargs".to_string(), inner)]);
    assert_eq!(reply_response(&payload), Ok(&JsonValue::Bool(true)));
    assert_eq!(
        reply_response(&JsonValue::Null),
        Err("RPC reply missing kwargs.response".to_string())
    );
}

#[test]
fn events_are_counted_in_buckets() {
    assert_eq!(floor_to(123, 60), 120);
    assert_eq!(floor_to(120, 60), 120);
    assert_eq!(floor_to(-59, 60), 0);
    assert_eq!(floor_to(-61, 60), -60);
    assert_eq!(floor_to(i64::MIN, 1), i64::MIN);
    let mut state = ReportState::new();
    let key = event_key("k", &strings(&["d"]));
    let seen = Double { bits: 0 };
    let first = state.apply_event(&key, Agg::Avg, Some(2), 1000, seen);
    let opened = match first {
        EventFate::Opened(id) => id,
        _ => u64::MAX,
    };
    assert_eq!(state.apply_event(&key, Agg::Avg, Some(3), 1004, seen), EventFate::Joined(opened));
    assert!(matches!(
        state.apply_event(&key, Agg::Avg, Some(1), 1005, seen),
        EventFate::Opened(_)
    ));
    assert_eq!(state.apply_event(&key, Agg::Sum, None, 1005, seen), EventFate::Dropped);
    let w = sum_window(&state.series[0], 1006, 60);
    assert_eq!(w.n, Some(6));
    assert_eq!(w.ids.len(), 2);
    let minutes = state.collect_completed_1m(1080);
    assert_eq!(minutes.len(), 1);
    assert_eq!((minutes[0].bucket_start, minutes[0].n), (960, Some(6)));
    assert!(state.collect_completed_1m(1080).is_empty());
    state.trim_buckets(5000);
    assert!(state.series.iter().all(|s| s.buckets.is_empty()));
}

#[test]
fn minutes_wait_for_their_five_minutes() {
    let mut state = ReportState::new();
    let key = event_key("k", &strings(&["d"]));
    let seen = Double { bits: 0 };
    state.apply_event(&key, Agg::Avg, Some(2), 310, seen);
    let first = state.collect_completed_1m(360);
    assert_eq!((first.len(), first[0].bucket_start), (1, 300));
    assert!(state.collect_completed_5m_from_1m(&first, 360, false).is_empty());
    state.apply_event(&key, Agg::Avg, Some(3), 370, seen);
    let second = state.collect_completed_1m(420);
    assert_eq!((second.len(), second[0].bucket_start), (1, 360));
    assert!(state.collect_completed_5m_from_1m(&second, 420, true).is_empty());
    assert_eq!(state.pending_for_5m.len(), 2);
    assert!(state.collect_completed_5m_from_1m(&vec![], 599, false).is_empty());
    let minutes = state.collect_completed_1m(600);
    assert!(minutes.is_empty());
    let five = state.collect_completed_5m_from_1m(&minutes, 600, false);
    assert_eq!(five.len(), 1);
    assert_eq!((five[0].bucket_start, five[0].n), (300, Some(5)));
    assert_eq!(five[0].parts, vec![first[0].id, second[0].id]);
    assert!(state.pending_for_5m.is_empty());
    assert!(state.collect_completed_5m_from_1m(&vec![], 900, false).is_empty());
}

#[test]
fn unwritten_buckets_are_kept_for_a_day() {
    let bucket = |start: i64| MetricsBucket {
        key: "k".to_string(),
        dims: vec![],
        bucket_start: start,
        bucket_seconds: 60,
        value: Double { bits: 0 },
        n: None,
    };
    assert_eq!(retain_unflushed(vec![bucket(1), bucket(2)], &vec![bucket(1)]), vec![bucket(2)]);
    let kept = retain_recent(vec![bucket(0), bucket(100_000)], 100_000, false);
    assert_eq!(kept, vec![bucket(100_000)]);
    assert!(flush_due(true, false, false) && flush_due(false, true, false));
    assert!(!flush_due(true, true, true) && !flush_due(false, false, false));
}

#[test]
fn lost_events_are_reported_once() {
    let mut notices = DropNotices { dropping: false, lost: false };
    assert_eq!(notices.on_send(SendOutcome::Sent), SendNotice::Nothing);
    assert_eq!(notices.on_send(SendOutcome::BufferFull), SendNotice::Dropping);
    assert_eq!(notices.on_send(SendOutcome::BufferFull), SendNotice::Nothing);
    assert_eq!(notices.on_send(SendOutcome::Disconnected), SendNotice::Lost);
    assert_eq!(notices.on_send(SendOutcome::Disconnected), SendNotice::Nothing);
}

#[test]
fn loaded_models_are_listed_in_order() {
    let m = |kind: &str, model: &str, at| LoadedModel {
        kind: kind.to_string(),
        model: model.to_string(),
        revision: None,
        at,
    };
    let ordered = order_models(vec![m("sparse", "a", 0), m("dense", "b", 1), m("dense", "a", 2)]);
    let at: Vec<usize> = ordered.iter().map(|x| x.at).collect();
    assert_eq!(at, vec![2, 0, 1]);
    assert_ne!(model_label("m", &None), model_label("m", &some("r")));
    assert!(recently_used(0) && !recently_used(MODEL_IDLE_GRACE_MS + 1));
}

#[test]
fn routes_are_told_apart() {
    let kind = |p: &str| classify_api_route(p);
    assert_eq!(kind("/v1/collections/c/documents"), Some(RouteKind::AsyncUpload));
    assert_eq!(kind("/v1/collections/c/documents/sync"), Some(RouteKind::SyncUpload));
    assert_eq!(kind("/v1/collections/c/documents/bulk"), Some(RouteKind::BulkUpload));
    assert_eq!(kind("/v1/collections/c/search"), Some(RouteKind::Search));
    assert_eq!(kind("/v1/collections/c/documents/d"), Some(RouteKind::AsyncDelete));
    assert_eq!(kind("/v1/collections/c/documents/d/sync"), Some(RouteKind::SyncDelete));
    assert_eq!(kind("/v1/version"), None);
}

#[test]
fn requests_are_recorded() {
    let with = |method: &str, status: u16| {
        request_events(method, "/v1/collections/c/search", status)
    };
    assert_eq!(with("POST", 200).iter().filter(|e| e.timed).count(), with("GET", 200).iter().filter(|e| e.timed).count() + 1);
    assert_eq!(with("POST", 500).len(), with("POST", 200).len() + 1);
    assert_eq!(with("POST", 404).len(), with("POST", 200).len() + 1);
    assert!(is_logged(400) && !is_logged(200));
    assert_eq!(truncate_body_for_log("short"), "short");
    let long = "x".repeat(100_000);
    let cut = truncate_body_for_log(&long);
    assert!(cut.ends_with("\u{2026} (truncated, 100000 chars)") && cut.len() < long.len());
}

#[test]
fn settings_are_read_from_the_environment() {
    assert_eq!(log_env_filter_directives(None), "info");
    assert_eq!(log_env_filter_directives(Some(" WARNING ")), "warn");
    assert_eq!(log_env_filter_directives(Some("CRITICAL")), "error");
    assert_eq!(log_env_filter_directives(Some("amgix=Debug")), "amgix=Debug");
    assert_eq!(log_env_filter_directives(Some("")), "info");
    assert!(sync_db_writes(Some(" YES "), false) && !sync_db_writes(Some("no"), false));
    assert!(sync_db_writes(None, true) && !sync_db_writes(None, false));
    assert_eq!(parse_size("+12"), "+12".parse().ok());
    assert_eq!(parse_size("12"), Some(12));
    assert_eq!(parse_size(""), None);
    assert_eq!(parse_size("-1"), None);
    assert_eq!(parse_size("99999999999999999999999"), None);
    assert_eq!(index_threads(None, 8), 4);
    assert_eq!(index_threads(Some("3"), 8), 3);
    assert_eq!(index_threads(Some("x"), 1), 1);
    assert_eq!(search_threads(None, 8), 8);
    assert_eq!(search_threads(None, 1), 2);
    assert!(version_text("1.2").contains("1.2"));
}
