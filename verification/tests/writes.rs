use amgix_now::common::{DenseDistance, DocumentField, VectorType};
use amgix_now::datetime_parse::Timestamp;
use amgix_now::delete_run::{DeleteAction, DeleteRun};
use amgix_now::encoder::{
    replicate_upsert_sync_err, BulkUpsertOutcome, QueueVerify, TokenLengthUpdate, UpsertSyncError,
};
use amgix_now::ingress::{
    any_queue_row, applied_positions, bulk_queue_full, bulk_worker_gone, chunk_ranges,
    group_by_name, merge_chunk_results, microbatch_replies, single_queue_full,
    single_worker_gone, superseded_versions, worker_step, ChunkRange, DocVersion, WorkerStep,
    BULK_UPSERT_CHUNK_SIZE,
};
use amgix_now::json::{Double, JsonValue};
use amgix_now::models::{
    CollectionConfigInternal, Document, QueueDocument, QueueOperationType, QueuedDocumentStatus,
    VectorConfigInternal,
};
use amgix_now::qdrant::DbError;
use amgix_now::queue_poller::{
    backoff_elapsed, mark_missing_document, mark_outcome, plan_upserts, retry_delay_ms,
    select_newest, settle_delete, settle_upsert, split_duties, RetryLimits, RowAction, RowMark,
    UpsertWork,
};
use amgix_now::stats::{
    add_default_averages, batch_complete, group_updates, plan_change, retry_write,
    CollectionStats, GatherEvent, StatsChange, STATS_BATCH_MAX_JOBS, STATS_SET_STATS_MAX_ATTEMPTS,
};
use amgix_now::upsert::{
    deletion_updates, document_fate, document_samples, lock_order, partition_documents,
    split_drained, sum_samples, Fate, TokenSample,
};
use amgix_now::upsert_run::{
    collection_mismatch, UpsertAction, UpsertPhase, UpsertRun, ADD_DOCUMENTS_MAX_ATTEMPTS,
};

fn strings(v: &[&str]) -> Vec<String> {
    v.iter().map(|s| s.to_string()).collect()
}

fn at(secs: i64) -> Timestamp {
    Timestamp { secs, nanos: 0 }
}

fn document(id: &str, secs: i64, content: &str) -> Document {
    Document {
        id: id.to_string(),
        timestamp: at(secs),
        tags: None,
        name: None,
        description: None,
        content: Some(content.to_string()),
        content_hash: None,
        metadata: None,
        custom_vectors: None,
        joined: None,
        vectors: None,
        token_lengths: vec![],
    }
}

fn collection(id: &str) -> CollectionConfigInternal {
    CollectionConfigInternal {
        version: 1,
        collection_id: id.to_string(),
        vectors: vec![VectorConfigInternal {
            version: 1,
            name: "v".to_string(),
            vector_type: VectorType::FullText,
            model: None,
            revision: None,
            query_model: None,
            query_revision: None,
            dimensions: None,
            top_k: 128,
            wmtr_word_ratio: 80,
            index_fields: Some(vec![DocumentField::Content]),
            doc_template: None,
            query_template: None,
            language_default_code: "en".to_string(),
            language_detect: false,
            language_confidence: Double { bits: 0.9f64.to_bits() },
            normalization: None,
            dense_distance: DenseDistance::Cosine,
            keep_case: None,
        }],
        store_content: true,
        metadata_indexes: None,
    }
}

fn row(queue_id: &str, collection_id: &str) -> Option<QueueVerify> {
    Some(QueueVerify { queue_id: queue_id.to_string(), collection_id: collection_id.to_string() })
}

fn down() -> DbError {
    DbError::Qdrant("down".to_string())
}

fn gone() -> DbError {
    DbError::NotFound("gone".to_string())
}

#[test]
fn documents_are_locked_in_one_order() {
    let a = vec![document("b", 1, ""), document("a", 1, ""), document("b", 2, "")];
    assert_eq!(lock_order(&a), strings(&["a", "b"]));
    let b = vec![document("a", 1, ""), document("b", 2, "")];
    assert_eq!(lock_order(&b), lock_order(&a));
}

#[test]
fn documents_meet_their_stored_versions() {
    let c = collection("c");
    let doc = document("a", 5, "x");
    assert_eq!(document_fate(&doc, None, &c), Fate::New);
    assert_eq!(document_fate(&doc, Some(&document("a", 6, "x")), &c), Fate::Stale);
    assert_eq!(document_fate(&doc, Some(&document("a", 5, "x")), &c), Fate::Stale);
    assert_eq!(document_fate(&doc, Some(&document("a", 4, "x")), &c), Fate::Patch);
    assert_eq!(document_fate(&doc, Some(&document("a", 4, "y")), &c), Fate::Revectorize);
    let plan = partition_documents(
        &vec![document("a", 5, "x"), document("b", 5, "x"), document("c", 5, "x")],
        &vec![Some(document("a", 6, "x")), Some(document("b", 4, "x")), None],
        &c,
    );
    assert_eq!(plan.skipped, vec![0]);
    assert_eq!(plan.patched, vec![1]);
    assert_eq!(plan.vectorized, vec![2]);
    assert_eq!(plan.is_new, vec![true]);
}

#[test]
fn drained_rows_are_not_applied() {
    let verifies = vec![row("q1", "c"), None, row("q2", "c")];
    assert_eq!(split_drained(3, &verifies, &strings(&["q2"])), (vec![1, 2], vec![0]));
}

#[test]
fn token_lengths_are_summed_by_name() {
    let lengths = vec![("content_v".to_string(), 7)];
    let new = document_samples(&lengths, true, &vec![]);
    assert_eq!(
        new,
        vec![TokenSample { name: "content_v".to_string(), length: 7, is_new: true, old_length: 0 }]
    );
    let mut all = new;
    all.extend(document_samples(&vec![("content_v".to_string(), 3)], false, &lengths));
    assert_eq!(
        sum_samples(&all, 1, 1),
        vec![(
            "content_v".to_string(),
            TokenLengthUpdate {
                new_doc_count: 1,
                new_sum_token_lengths: 7,
                update_doc_count: 1,
                update_sum_token_lengths: 3,
                old_sum_token_lengths: 7,
            }
        )]
    );
    let removed = deletion_updates(&lengths);
    assert_eq!(removed[0].1.new_doc_count, -1);
    assert_eq!(removed[0].1.new_sum_token_lengths, -7);
}

#[test]
fn an_upsert_runs_through_its_steps() {
    let (mut run, a) = UpsertRun::start(vec![document("b", 1, "x"), document("a", 1, "y")], vec![]);
    assert_eq!(a, UpsertAction::FetchConfig);
    assert_eq!(run.on_config(Ok(collection("c"))), UpsertAction::LockDocument("a".to_string()));
    assert_eq!(run.on_locked(Ok(())), UpsertAction::LockDocument("b".to_string()));
    assert_eq!(run.on_locked(Ok(())), UpsertAction::FetchStored(strings(&["b", "a"])));
    assert_eq!(
        run.on_stored(Ok(vec![Some(document("b", 9, "x")), None])),
        UpsertAction::FetchStats
    );
    assert_eq!(run.on_stats(Ok(())), UpsertAction::Vectorize(vec![1]));
    assert_eq!(
        run.on_vectorized(Ok(vec![vec![("content_v".to_string(), 4)]])),
        UpsertAction::AddDocuments
    );
    let a = run.on_added(Ok(()));
    assert!(matches!(a, UpsertAction::EnqueueStats(ref u) if u.len() == 1));
    assert_eq!(
        run.on_enqueued(Ok(())),
        UpsertAction::Finish(Ok(BulkUpsertOutcome { skipped: strings(&["b"]), drained: vec![] }))
    );
    assert_eq!(run.phase, UpsertPhase::Done);
}

#[test]
fn additions_are_tried_again() {
    let (mut run, _) = UpsertRun::start(vec![document("a", 1, "y")], vec![]);
    run.on_config(Ok(collection("c")));
    run.on_locked(Ok(()));
    run.on_stored(Ok(vec![None]));
    run.on_stats(Ok(()));
    run.on_vectorized(Ok(vec![vec![]]));
    for _ in 1..ADD_DOCUMENTS_MAX_ATTEMPTS {
        assert_eq!(run.on_added(Err(down())), UpsertAction::RetryAdd);
    }
    assert_eq!(
        run.on_added(Err(down())),
        UpsertAction::Finish(Err(UpsertSyncError::Db(down())))
    );
}

#[test]
fn queued_documents_keep_to_their_collection() {
    let start = || UpsertRun::start(vec![document("a", 1, "x")], vec![row("q", "old")]).0;
    let mut run = start();
    assert_eq!(run.on_config(Ok(collection("new"))), UpsertAction::RefetchConfig);
    assert_eq!(
        run.on_config(Ok(collection("new"))),
        UpsertAction::Finish(Err(UpsertSyncError::QueueCollectionMismatch(collection_mismatch(
            "old", "new"
        ))))
    );
    let mut run = start();
    run.on_config(Ok(collection("old")));
    assert_eq!(run.on_locked(Ok(())), UpsertAction::FetchQueueRows(strings(&["q"])));
    assert_eq!(
        run.on_queue_rows(Ok(vec![])),
        UpsertAction::Finish(Ok(BulkUpsertOutcome { skipped: vec![], drained: strings(&["a"]) }))
    );
}

#[test]
fn failed_upserts_say_why() {
    let start = || UpsertRun::start(vec![document("a", 1, "x")], vec![]).0;
    assert_eq!(
        start().on_config(Err(gone())),
        UpsertAction::Finish(Err(UpsertSyncError::NotFound(
            "Collection configuration not found".to_string()
        )))
    );
    let mut run = start();
    run.on_config(Ok(collection("c")));
    assert_eq!(
        run.on_locked(Err("held".to_string())),
        UpsertAction::Finish(Err(UpsertSyncError::Db(DbError::Config("held".to_string()))))
    );
    let mut bad = document("a", 1, "x");
    bad.metadata = Some(vec![(
        "k".to_string(),
        JsonValue::Object(vec![
            ("type".to_string(), JsonValue::Text("blob".to_string())),
            ("value".to_string(), JsonValue::Null),
        ]),
    )]);
    let (mut run, _) = UpsertRun::start(vec![bad], vec![]);
    assert!(matches!(
        run.on_config(Ok(collection("c"))),
        UpsertAction::Finish(Err(UpsertSyncError::Validation(_)))
    ));
    let mut run = start();
    run.on_config(Ok(collection("c")));
    run.on_locked(Ok(()));
    run.on_stored(Ok(vec![None]));
    run.on_stats(Ok(()));
    assert_eq!(
        run.on_vectorized(Err("no model".to_string())),
        UpsertAction::Finish(Err(UpsertSyncError::Vectorization("no model".to_string())))
    );
}

#[test]
fn errors_are_copied_for_every_waiter() {
    for e in [
        UpsertSyncError::NotFound("m".to_string()),
        UpsertSyncError::Validation("m".to_string()),
        UpsertSyncError::QueueEntryGone,
    ] {
        assert_eq!(replicate_upsert_sync_err(&e), e);
    }
    assert_eq!(
        replicate_upsert_sync_err(&UpsertSyncError::Db(down())),
        UpsertSyncError::Db(DbError::Config("Qdrant error: down".to_string()))
    );
    assert_eq!(UpsertSyncError::QueueEntryGone.message(), "queue entry already removed");
}

#[test]
fn batches_are_cut_into_chunks() {
    assert_eq!(
        chunk_ranges(35, BULK_UPSERT_CHUNK_SIZE),
        vec![
            ChunkRange { start: 0, end: 16 },
            ChunkRange { start: 16, end: 32 },
            ChunkRange { start: 32, end: 35 },
        ]
    );
    assert!(chunk_ranges(0, 16).is_empty());
    assert!(any_queue_row(&vec![None, row("q", "c")]) && !any_queue_row(&vec![None]));
    let ok = |s: &str| {
        Some(Ok(BulkUpsertOutcome { skipped: strings(&[s]), drained: vec![] }))
    };
    let merged = merge_chunk_results(vec![ok("a"), ok("b")]).unwrap();
    assert_eq!(merged.skipped, strings(&["a", "b"]));
    assert_eq!(
        merge_chunk_results(vec![ok("a"), Some(Err(UpsertSyncError::Db(down())))]).unwrap_err(),
        UpsertSyncError::Db(down())
    );
    let stopped = || UpsertSyncError::IngressWorkerExited("Bulk chunk task stopped.".to_string());
    assert_eq!(merge_chunk_results(vec![ok("a"), None]).unwrap_err(), stopped());
    assert_eq!(merge_chunk_results(vec![None]).unwrap_err(), stopped());
    assert_eq!(
        merge_chunk_results(vec![None, Some(Err(UpsertSyncError::Db(down())))]).unwrap_err(),
        UpsertSyncError::Db(down())
    );
    assert!(merge_chunk_results(vec![]).is_ok());
}

#[test]
fn workers_fill_batches_while_jobs_wait() {
    assert_eq!(worker_step(4, 0, true, 4, 32), WorkerStep::AwaitTask);
    assert_eq!(worker_step(3, 0, true, 4, 32), WorkerStep::AwaitJob);
    assert_eq!(worker_step(3, 1, true, 4, 32), WorkerStep::TryJob);
    assert_eq!(worker_step(3, 1, false, 4, 32), WorkerStep::Dispatch);
    assert_eq!(worker_step(3, 32, true, 4, 32), WorkerStep::Dispatch);
}

#[test]
fn only_the_newest_version_of_a_batch_is_applied() {
    let v = |id: &str, secs| DocVersion { id: id.to_string(), timestamp: at(secs) };
    let versions = vec![v("a", 1), v("b", 1), v("a", 3), v("a", 2)];
    let superseded = superseded_versions(&versions);
    assert_eq!(superseded, vec![true, false, false, true]);
    assert_eq!(applied_positions(&superseded), vec![1, 2]);
    let outcome = Ok(BulkUpsertOutcome { skipped: strings(&["b"]), drained: vec![] });
    let replies = microbatch_replies(&versions, &superseded, &outcome);
    assert_eq!(replies[0], Ok(strings(&["a"])));
    assert_eq!(replies[1], Ok(strings(&["b"])));
    assert_eq!(replies[2], Ok(vec![]));
    let failed = Err(UpsertSyncError::Db(down()));
    let replies = microbatch_replies(&versions, &superseded, &failed);
    assert_eq!(
        replies[2],
        Err(UpsertSyncError::Db(DbError::Config("Qdrant error: down".to_string())))
    );
}

#[test]
fn names_are_grouped_in_order() {
    let g = group_by_name(&strings(&["b", "a", "b"]));
    assert_eq!(g.len(), 2);
    assert_eq!((g[0].name.as_str(), &g[0].members), ("b", &vec![0, 2]));
}

#[test]
fn a_deletion_runs_through_its_steps() {
    let (mut run, a) = DeleteRun::start("a".to_string(), at(5), None);
    assert_eq!(a, DeleteAction::LockDocument);
    assert_eq!(run.on_locked(Ok(())), DeleteAction::FetchStored);
    let mut stored = document("a", 1, "x");
    stored.token_lengths = vec![("content_v".to_string(), 4)];
    assert_eq!(run.on_stored(Ok(Some(stored))), DeleteAction::CancelUpserts);
    assert_eq!(run.on_cancelled(Ok(())), DeleteAction::DeleteDocument);
    assert!(matches!(run.on_deleted(Ok(())), DeleteAction::EnqueueStats(_)));
    assert_eq!(run.on_enqueued(Ok(())), DeleteAction::Finish(Ok(vec![])));
}

#[test]
fn newer_documents_are_not_deleted() {
    let (mut run, _) = DeleteRun::start("a".to_string(), at(5), None);
    run.on_locked(Ok(()));
    run.on_stored(Ok(Some(document("a", 6, "x"))));
    assert_eq!(run.on_cancelled(Ok(())), DeleteAction::Finish(Ok(strings(&["a"]))));
    let (mut run, a) = DeleteRun::start("a".to_string(), at(5), row("q", "c"));
    assert_eq!(a, DeleteAction::FetchConfig);
    assert_eq!(run.on_config(Ok(collection("c"))), DeleteAction::LockDocument);
    assert_eq!(run.on_locked(Ok(())), DeleteAction::FetchQueueRow("q".to_string()));
    assert_eq!(
        run.on_queue_row(Ok(false)),
        DeleteAction::Finish(Err(UpsertSyncError::QueueEntryGone))
    );
}

#[test]
fn retries_wait_longer_each_time() {
    assert_eq!(retry_delay_ms(0, 60_000), 100);
    let spread = 3u32.wrapping_mul(2654435761) % 1400;
    assert_eq!(retry_delay_ms(3, 60_000), 6_100 + spread as u64);
    assert_eq!(retry_delay_ms(100, 60_000), 60_000);
    assert!(backoff_elapsed(0, -5, 60_000));
    let needed = retry_delay_ms(1, 60_000) as i64;
    assert!(backoff_elapsed(1, needed, 60_000) && !backoff_elapsed(1, needed - 1, 60_000));
    assert!(!backoff_elapsed(1, -5, 60_000));
}

#[test]
fn failed_rows_are_marked() {
    let limits = RetryLimits { db_retries: 3, delivery_attempts: 2, max_sleep_ms: 1 };
    let mark = |tries: u32, e: &UpsertSyncError| match mark_outcome("q", tries, e, &limits) {
        RowAction::Mark(m) => Some(m.status),
        _ => None,
    };
    let db = UpsertSyncError::Db(down());
    assert_eq!(mark(1, &db), Some(QueuedDocumentStatus::Requeued));
    assert_eq!(mark(2, &db), Some(QueuedDocumentStatus::Failed));
    let v = UpsertSyncError::Vectorization("m".to_string());
    assert_eq!(mark(0, &v), Some(QueuedDocumentStatus::Requeued));
    assert_eq!(mark(1, &v), Some(QueuedDocumentStatus::Failed));
    let invalid = UpsertSyncError::Validation("m".to_string());
    assert_eq!(mark(0, &invalid), Some(QueuedDocumentStatus::Failed));
    assert_eq!(mark_outcome("q", 0, &UpsertSyncError::QueueEntryGone, &limits), RowAction::Leave);
    assert_eq!(
        mark_missing_document("q", 0),
        RowAction::Mark(RowMark {
            queue_id: "q".to_string(),
            try_count: 1,
            status: QueuedDocumentStatus::Failed,
            info: "missing document payload".to_string(),
        })
    );
    let done = Ok(BulkUpsertOutcome { skipped: vec![], drained: strings(&["d"]) });
    assert_eq!(settle_upsert("q", 0, "a", &done, &limits), RowAction::Remove("q".to_string()));
    assert_eq!(settle_upsert("q", 0, "d", &done, &limits), RowAction::Leave);
    assert_eq!(settle_delete("q", 0, &Ok(vec![]), &limits), RowAction::Remove("q".to_string()));
}

fn queued(id: &str, collection: &str, op: QueueOperationType, doc: Option<Document>) -> QueueDocument {
    QueueDocument {
        queue_id: format!("q-{id}"),
        collection_name: collection.to_string(),
        collection_id: "c".to_string(),
        doc_id: id.to_string(),
        op_type: op,
        doc_timestamp: at(1),
        status: QueuedDocumentStatus::Queued,
        info: None,
        document: doc,
        created_at: at(1),
        timestamp: at(1),
        try_count: 0,
    }
}

#[test]
fn queued_work_is_sorted_out() {
    let entries = vec![
        queued("a", "x", QueueOperationType::Upsert, Some(document("a", 1, ""))),
        queued("b", "x", QueueOperationType::Upsert, None),
        queued("c", "y", QueueOperationType::Delete, None),
        queued("d", "y", QueueOperationType::Upsert, Some(document("d", 1, ""))),
        queued("a", "x", QueueOperationType::Upsert, Some(document("a", 2, ""))),
    ];
    let duties = split_duties(&entries);
    assert_eq!(duties.failed, vec![1]);
    assert_eq!(duties.upserts, vec![0, 3, 4]);
    assert_eq!(duties.deletes, vec![2]);
    let plans = plan_upserts(&entries, &duties.upserts);
    assert_eq!(plans.len(), 2);
    assert_eq!(plans[0].group.name, "x");
    assert_eq!(plans[0].selection.winners.len(), 1);
    assert_eq!(plans[0].selection.winners[0].timestamp, at(2));
    assert_eq!(plans[0].selection.superseded.len(), 1);
    let work = |id: &str, secs, position| UpsertWork {
        id: id.to_string(),
        timestamp: at(secs),
        position,
    };
    let s = select_newest(vec![work("a", 1, 0), work("a", 2, 1), work("b", 1, 2)]);
    assert_eq!(s.winners.len(), 2);
    assert_eq!(s.superseded, vec![work("a", 1, 0)]);
}

#[test]
fn statistics_follow_the_documents() {
    let u = |n| {
        vec![(
            "content_v".to_string(),
            TokenLengthUpdate {
                new_doc_count: n,
                new_sum_token_lengths: 0,
                update_doc_count: 0,
                update_sum_token_lengths: 0,
                old_sum_token_lengths: 0,
            },
        )]
    };
    assert_eq!(plan_change(5, &u(2)), StatsChange::Average { doc_count: 7 });
    assert_eq!(plan_change(1, &u(-1)), StatsChange::Clear);
    assert_eq!(plan_change(1, &u(-5)), StatsChange::Clear);
    let mut stats = CollectionStats::default();
    assert_eq!(stats.doc_count, 0);
    let known = ("content_v".to_string(), Double { bits: 3.0f64.to_bits() });
    add_default_averages(&mut stats.avgdls, &collection("c").vectors);
    assert_eq!(stats.avgdls, vec![("content_v".to_string(), Double { bits: 50.0f64.to_bits() })]);
    let mut averages = vec![known];
    add_default_averages(&mut averages, &collection("c").vectors);
    assert_eq!(averages.len(), 1);
    assert_eq!(averages[0].1, Double { bits: 3.0f64.to_bits() });
    assert!(batch_complete(STATS_BATCH_MAX_JOBS, GatherEvent::Update));
    assert!(!batch_complete(1, GatherEvent::Update) && batch_complete(1, GatherEvent::TimeOver));
    assert_eq!(group_updates(&strings(&["a", "b", "a"])).len(), 2);
    assert!(retry_write(1) && !retry_write(STATS_SET_STATS_MAX_ATTEMPTS));
}

#[test]
fn full_queues_ask_for_patience() {
    assert_eq!(
        single_queue_full().message(),
        "Single-document ingress queue full (capacity 10240); retry later."
    );
    assert_eq!(
        bulk_queue_full().message(),
        "Bulk ingest queue full (capacity 128); retry later."
    );
    assert_eq!(single_worker_gone().message(), "Single-document ingress worker stopped.");
    assert_eq!(bulk_worker_gone().message(), "Bulk ingest worker stopped.");
}
