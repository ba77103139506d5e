//! The keys of the metrics.

use vstd::prelude::*;

verus! {

pub const API_REQUESTS: &'static str = "api_requests";

pub const API_REQUEST_MS: &'static str = "api_request_ms";

pub const API_ASYNC_UPLOAD: &'static str = "api_async_upload";

pub const API_ASYNC_UPLOAD_MS: &'static str = "api_async_upload_ms";

pub const API_SYNC_UPLOAD: &'static str = "api_sync_upload";

pub const API_SYNC_UPLOAD_MS: &'static str = "api_sync_upload_ms";

pub const API_BULK_UPLOAD: &'static str = "api_bulk_upload";

pub const API_BULK_UPLOAD_MS: &'static str = "api_bulk_upload_ms";

pub const API_SEARCH: &'static str = "api_search";

pub const API_SEARCH_MS: &'static str = "api_search_ms";

pub const API_ASYNC_DELETE: &'static str = "api_async_delete";

pub const API_ASYNC_DELETE_MS: &'static str = "api_async_delete_ms";

pub const API_SYNC_DELETE: &'static str = "api_sync_delete";

pub const API_SYNC_DELETE_MS: &'static str = "api_sync_delete_ms";

pub const API_ERROR_4XX: &'static str = "api_error_4xx";

pub const API_ERROR_5XX: &'static str = "api_error_5xx";

pub const INDEX_QUEUE_DOCS_SKIPPED_STALE: &'static str = "index_queue_docs_skipped_stale";

pub const INDEX_QUEUE_DOCS_NEW: &'static str = "index_queue_docs_new";

pub const INDEX_QUEUE_DOCS_UPDATED: &'static str = "index_queue_docs_updated";

pub const INDEX_QUEUE_DOCS_DELETED: &'static str = "index_queue_docs_deleted";

pub const INDEX_QUEUE_DELETE_JOB_MS: &'static str = "index_queue_delete_job_ms";

pub const INDEX_QUEUE_FAILED: &'static str = "index_queue_failed";

pub const INDEX_QUEUE_REQUEUED: &'static str = "index_queue_requeued";

pub const INDEX_QUEUE_JOB_MS: &'static str = "index_queue_job_ms";

pub const INDEX_BULK_BATCHES: &'static str = "index_bulk_batches";

pub const INDEX_BULK_BATCH_SIZE: &'static str = "index_bulk_batch_size";

pub const INDEX_BULK_FAILED: &'static str = "index_bulk_failed";

pub const INDEX_BULK_REQUEUED: &'static str = "index_bulk_requeued";

pub const INDEX_BULK_JOB_MS: &'static str = "index_bulk_job_ms";

pub const EMBED_BATCHES_ORIGIN: &'static str = "embed_batches_origin";

pub const EMBED_PASSAGES_ORIGIN: &'static str = "embed_passages_origin";

pub const EMBED_INFERENCE_ORIGIN_MS: &'static str = "embed_inference_origin_ms";

pub const EMBED_INFERENCE_ORIGIN_ERRORS: &'static str = "embed_inference_origin_errors";

pub const EMBED_BATCHES: &'static str = "embed_batches";

pub const EMBED_PASSAGES: &'static str = "embed_passages";

pub const EMBED_INFERENCE_MS: &'static str = "embed_inference_ms";

pub const EMBED_HOPS: &'static str = "embed_hops";

} // verus!
