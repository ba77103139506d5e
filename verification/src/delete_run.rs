//! One document's deletion from the request to its answer: which step comes
//! next, given how the last one went. The steps themselves are the caller's.

use vstd::prelude::*;
use crate::datetime_parse::Timestamp;
use crate::encoder::{QueueVerify, TokenLengthUpdate, UpsertSyncError};
use crate::models::{CollectionConfigInternal, Document};
use crate::qdrant::DbError;
use crate::text;
use crate::text::same_text;
use crate::upsert::deletion_updates;
use crate::upsert_run;
use crate::upsert_run::collection_mismatch;

verus! {

/// What the run waits for.
#[derive(Debug, Clone, Copy, PartialEq, Eq, Structural)]
pub enum DeletePhase {
    Config,
    Lock,
    QueueRow,
    Stored,
    Cancel,
    Delete,
    Enqueue,
    Done,
}

/// What the caller has to do next.
#[derive(Debug, PartialEq, Eq)]
pub enum DeleteAction {
    FetchConfig,
    LockDocument,
    /// Look whether this queue row is still there.
    FetchQueueRow(String),
    FetchStored,
    /// Remove pending upserts of the document up to the request's time.
    CancelUpserts,
    DeleteDocument,
    /// Hand the statistics change over.
    EnqueueStats(Vec<(String, TokenLengthUpdate)>),
    /// The ids of documents that were not deleted because they are newer.
    Finish(Result<Vec<String>, UpsertSyncError>),
}

/// A deletion under way.
pub struct DeleteRun {
    pub phase: DeletePhase,
    pub document_id: String,
    pub request_timestamp: Timestamp,
    pub queue: Option<QueueVerify>,
    pub stored: Option<Document>,
    /// Whether the document's lock is held.
    pub locked: bool,
    /// Whether superseded pending upserts were cancelled.
    pub cancelled: bool,
}

/// Whether the run is over with nothing skipped.
pub open spec fn finishes_clean(a: DeleteAction) -> bool {
    a matches DeleteAction::Finish(Ok(ids)) && ids@.len() == 0
}

/// Whether the run is over because the stored document is newer.
pub open spec fn finishes_stale(a: DeleteAction, id: Seq<char>) -> bool {
    a matches DeleteAction::Finish(Ok(ids)) && text::views(ids@) == seq![id]
}

/// Whether the run is over with this error.
pub open spec fn fails_as(a: DeleteAction, e: UpsertSyncError) -> bool {
    a == DeleteAction::Finish(Err(e))
}

impl DeleteRun {
    /// What holds of a run in each phase: the document is locked before
    /// anything about it is read or changed, and pending upserts are cancelled
    /// before it is deleted.
    pub open spec fn valid(self) -> bool {
        match self.phase {
            DeletePhase::Config => self.queue is Some && !self.locked && !self.cancelled,
            DeletePhase::Lock => !self.locked && !self.cancelled,
            DeletePhase::QueueRow => self.queue is Some && self.locked && !self.cancelled,
            DeletePhase::Stored | DeletePhase::Cancel => self.locked && !self.cancelled,
            DeletePhase::Delete => self.locked && self.cancelled && self.stored is Some
                && self.stored->0.timestamp.precedes(self.request_timestamp),
            DeletePhase::Enqueue => self.locked && self.cancelled,
            DeletePhase::Done => true,
        }
    }

    /// Begins a deletion; `queue` is the row it came from, if it came from the
    /// queue.
    pub fn start(
        document_id: String,
        request_timestamp: Timestamp,
        queue: Option<QueueVerify>,
    ) -> (r: (DeleteRun, DeleteAction))
        ensures
            r.0.valid(),
            r.0.document_id == document_id,
            r.0.request_timestamp == request_timestamp,
            r.0.queue == queue,
            queue is Some ==> r.0.phase is Config && r.1 is FetchConfig,
            queue is None ==> r.0.phase is Lock && r.1 is LockDocument,
    {
        let queued = queue.is_some();
        let run = DeleteRun {
            phase: if queued {
                DeletePhase::Config
            } else {
                DeletePhase::Lock
            },
            document_id,
            request_timestamp,
            queue,
            stored: None,
            locked: false,
            cancelled: false,
        };
        if queued {
            (run, DeleteAction::FetchConfig)
        } else {
            (run, DeleteAction::LockDocument)
        }
    }

    /// The collection's configuration has come, or could not be had.
    pub fn on_config(&mut self, r: Result<CollectionConfigInternal, DbError>) -> (a: DeleteAction)
        requires
            old(self).valid(),
            old(self).phase is Config,
        ensures
            final(self).valid(),
            match r {
                Err(e) => final(self).phase is Done && if e is NotFound {
                    a matches DeleteAction::Finish(Err(UpsertSyncError::NotFound(m))) && m@
                        == "Collection configuration not found"@
                } else {
                    fails_as(a, UpsertSyncError::Db(e))
                },
                Ok(config) => if config.collection_id@ != old(self).queue->0.collection_id@ {
                    final(self).phase is Done && (a matches DeleteAction::Finish(
                        Err(UpsertSyncError::QueueCollectionMismatch(m)),
                    ) && m@ == upsert_run::mismatch_text(
                        old(self).queue->0.collection_id@,
                        config.collection_id@,
                    ))
                } else {
                    *final(self) == (DeleteRun { phase: DeletePhase::Lock, ..*old(self) })
                        && a is LockDocument
                },
            },
    {
        let config = match r {
            Err(DbError::NotFound(_)) => {
                self.phase = DeletePhase::Done;
                return DeleteAction::Finish(
                    Err(UpsertSyncError::NotFound("Collection configuration not found".to_owned())),
                );
            },
            Err(e) => {
                self.phase = DeletePhase::Done;
                return DeleteAction::Finish(Err(UpsertSyncError::Db(e)));
            },
            Ok(c) => c,
        };
        if let Some(q) = &self.queue {
            if !same_text(config.collection_id.as_str(), q.collection_id.as_str()) {
                let m = collection_mismatch(q.collection_id.as_str(), config.collection_id.as_str());
                self.phase = DeletePhase::Done;
                return DeleteAction::Finish(Err(UpsertSyncError::QueueCollectionMismatch(m)));
            }
        }
        self.phase = DeletePhase::Lock;
        DeleteAction::LockDocument
    }

    /// The document's lock is held, or could not be had.
    pub fn on_locked(&mut self, r: Result<(), String>) -> (a: DeleteAction)
        requires
            old(self).valid(),
            old(self).phase is Lock,
        ensures
            final(self).valid(),
            match r {
                Err(e) => final(self).phase is Done && fails_as(
                    a,
                    UpsertSyncError::Db(DbError::Config(e)),
                ),
                Ok(_) => match old(self).queue {
                    Some(q) => *final(self) == (DeleteRun {
                        phase: DeletePhase::QueueRow,
                        locked: true,
                        ..*old(self)
                    }) && (a matches DeleteAction::FetchQueueRow(id) && id@ == q.queue_id@),
                    None => *final(self) == (DeleteRun {
                        phase: DeletePhase::Stored,
                        locked: true,
                        ..*old(self)
                    }) && a is FetchStored,
                },
            },
    {
        match r {
            Err(e) => {
                self.phase = DeletePhase::Done;
                return DeleteAction::Finish(Err(UpsertSyncError::Db(DbError::Config(e))));
            },
            Ok(_) => {},
        }
        self.locked = true;
        if let Some(q) = &self.queue {
            let id = q.queue_id.clone();
            self.phase = DeletePhase::QueueRow;
            return DeleteAction::FetchQueueRow(id);
        }
        self.phase = DeletePhase::Stored;
        DeleteAction::FetchStored
    }

    /// It is known whether the queue row is still there. A deletion whose row
    /// is gone is not applied.
    pub fn on_queue_row(&mut self, r: Result<bool, DbError>) -> (a: DeleteAction)
        requires
            old(self).valid(),
            old(self).phase is QueueRow,
        ensures
            final(self).valid(),
            match r {
                Err(e) => final(self).phase is Done && fails_as(a, UpsertSyncError::Db(e)),
                Ok(false) => final(self).phase is Done && fails_as(
                    a,
                    UpsertSyncError::QueueEntryGone,
                ),
                Ok(true) => *final(self) == (DeleteRun {
                    phase: DeletePhase::Stored,
                    ..*old(self)
                }) && a is FetchStored,
            },
    {
        match r {
            Err(e) => {
                self.phase = DeletePhase::Done;
                DeleteAction::Finish(Err(UpsertSyncError::Db(e)))
            },
            Ok(present) => if present {
                self.phase = DeletePhase::Stored;
                DeleteAction::FetchStored
            } else {
                self.phase = DeletePhase::Done;
                DeleteAction::Finish(Err(UpsertSyncError::QueueEntryGone))
            },
        }
    }

    /// What is stored under the id has come. Pending upserts are cancelled in
    /// any case: one that is still queued would bring the document back.
    pub fn on_stored(&mut self, r: Result<Option<Document>, DbError>) -> (a: DeleteAction)
        requires
            old(self).valid(),
            old(self).phase is Stored,
        ensures
            final(self).valid(),
            match r {
                Err(e) => final(self).phase is Done && fails_as(a, UpsertSyncError::Db(e)),
                Ok(stored) => *final(self) == (DeleteRun {
                    phase: DeletePhase::Cancel,
                    stored,
                    ..*old(self)
                }) && a is CancelUpserts,
            },
    {
        match r {
            Err(e) => {
                self.phase = DeletePhase::Done;
                DeleteAction::Finish(Err(UpsertSyncError::Db(e)))
            },
            Ok(stored) => {
                self.phase = DeletePhase::Cancel;
                self.stored = stored;
                DeleteAction::CancelUpserts
            },
        }
    }

    /// Pending upserts were cancelled, or could not be. A document that is at
    /// least as new as the request stays.
    pub fn on_cancelled(&mut self, r: Result<(), DbError>) -> (a: DeleteAction)
        requires
            old(self).valid(),
            old(self).phase is Cancel,
        ensures
            final(self).valid(),
            match r {
                Err(e) => final(self).phase is Done && fails_as(a, UpsertSyncError::Db(e)),
                Ok(_) => match old(self).stored {
                    None => final(self).phase is Done && final(self).cancelled && finishes_clean(a),
                    Some(d) => if d.timestamp.precedes(old(self).request_timestamp) {
                        *final(self) == (DeleteRun {
                            phase: DeletePhase::Delete,
                            cancelled: true,
                            ..*old(self)
                        }) && a is DeleteDocument
                    } else {
                        final(self).phase is Done && final(self).cancelled && finishes_stale(
                            a,
                            old(self).document_id@,
                        )
                    },
                },
            },
    {
        match r {
            Err(e) => {
                self.phase = DeletePhase::Done;
                return DeleteAction::Finish(Err(UpsertSyncError::Db(e)));
            },
            Ok(_) => {},
        }
        self.cancelled = true;
        match &self.stored {
            None => {
                self.phase = DeletePhase::Done;
                DeleteAction::Finish(Ok(Vec::new()))
            },
            Some(d) => {
                if d.timestamp.before(&self.request_timestamp) {
                    self.phase = DeletePhase::Delete;
                    DeleteAction::DeleteDocument
                } else {
                    self.phase = DeletePhase::Done;
                    let ids = vec![self.document_id.clone()];
                    assert(text::views(ids@) =~= seq![self.document_id@]);
                    DeleteAction::Finish(Ok(ids))
                }
            },
        }
    }

    /// The document was deleted, or not. One that is gone already counts as
    /// deleted, but takes nothing back from the statistics.
    pub fn on_deleted(&mut self, r: Result<(), DbError>) -> (a: DeleteAction)
        requires
            old(self).valid(),
            old(self).phase is Delete,
            forall|i: int|
                0 <= i < old(self).stored->0.token_lengths@.len() ==> (#[trigger] old(
                    self,
                ).stored->0.token_lengths@[i]).1 <= i64::MAX,
        ensures
            final(self).valid(),
            match r {
                Err(e) => final(self).phase is Done && if e is NotFound {
                    finishes_clean(a)
                } else {
                    fails_as(a, UpsertSyncError::Db(e))
                },
                Ok(_) => if old(self).stored->0.token_lengths@.len() == 0 {
                    final(self).phase is Done && finishes_clean(a)
                } else {
                    let lengths = old(self).stored->0.token_lengths@;
                    &&& *final(self) == (DeleteRun { phase: DeletePhase::Enqueue, ..*old(self) })
                    &&& a matches DeleteAction::EnqueueStats(u) && u@.len() == lengths.len() && (
                    forall|i: int|
                        0 <= i < lengths.len() ==> (#[trigger] u@[i]).0@ == lengths[i].0@
                            && u@[i].1 == (TokenLengthUpdate {
                            new_doc_count: (-1int) as i64,
                            new_sum_token_lengths: (-(lengths[i].1 as int)) as i64,
                            update_doc_count: 0,
                            update_sum_token_lengths: 0,
                            old_sum_token_lengths: 0,
                        }))
                },
            },
    {
        match r {
            Err(DbError::NotFound(_)) => {
                self.phase = DeletePhase::Done;
                return DeleteAction::Finish(Ok(Vec::new()));
            },
            Err(e) => {
                self.phase = DeletePhase::Done;
                return DeleteAction::Finish(Err(UpsertSyncError::Db(e)));
            },
            Ok(_) => {},
        }
        let updates = match &self.stored {
            Some(d) => deletion_updates(&d.token_lengths),
            None => Vec::new(),
        };
        if updates.len() == 0 {
            self.phase = DeletePhase::Done;
            return DeleteAction::Finish(Ok(Vec::new()));
        }
        self.phase = DeletePhase::Enqueue;
        DeleteAction::EnqueueStats(updates)
    }

    /// The statistics change was handed over, or could not be.
    pub fn on_enqueued(&mut self, r: Result<(), DbError>) -> (a: DeleteAction)
        requires
            old(self).phase is Enqueue,
        ensures
            final(self).valid(),
            final(self).phase is Done,
            match r {
                Err(e) => fails_as(a, UpsertSyncError::Db(e)),
                Ok(_) => finishes_clean(a),
            },
    {
        self.phase = DeletePhase::Done;
        match r {
            Err(e) => DeleteAction::Finish(Err(UpsertSyncError::Db(e))),
            Ok(_) => DeleteAction::Finish(Ok(Vec::new())),
        }
    }
}

/// A document is deleted only under its lock, only after superseded pending
/// upserts were cancelled, and only if it is older than the request.
pub proof fn deletion_is_guarded(run: DeleteRun)
    requires
        run.valid(),
        run.phase is Delete,
    ensures
        run.locked,
        run.cancelled,
        run.stored is Some,
        run.stored->0.timestamp.precedes(run.request_timestamp),
{
}

} // verus!
