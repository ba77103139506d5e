//! One bulk upsert from its documents to its outcome: which step comes next,
//! given how the last one went. The steps themselves are the caller's.

use vstd::prelude::*;
use crate::encoder;
use crate::encoder::{
    validate_metadata_types, BulkUpsertOutcome, QueueVerify, TokenLengthUpdate, UpsertSyncError,
};
use crate::functions;
use crate::functions::{normalize_document_metadata_inplace, set_content_hash};
use crate::indices;
use crate::indices::{ascending_below, elements_at, keep_at};
use crate::json::Json;
use crate::models::{CollectionConfigInternal, Document};
use crate::qdrant::DbError;
use crate::text;
use crate::text::{copy_texts, same_text, text5};
use crate::upsert;
use crate::upsert::{
    batch_samples, lock_order, partition_documents, split_drained, sum_samples, UpsertPlan,
};

verus! {

/// How often adding the documents is tried.
pub const ADD_DOCUMENTS_MAX_ATTEMPTS: usize = 3;

/// What the run waits for.
#[derive(Debug, Clone, Copy, PartialEq, Eq, Structural)]
pub enum UpsertPhase {
    /// The collection's configuration.
    Config,
    /// The configuration again, past the cache.
    FreshConfig,
    /// The next document's lock.
    Lock,
    /// The queue rows that are still there.
    QueueRows,
    /// The stored versions of the documents.
    Stored,
    /// The patch of documents whose vectors stay.
    Patch,
    /// The collection's statistics.
    Stats,
    /// The vectors.
    Vectorize,
    /// The addition of the vectorized documents.
    Add,
    /// The hand-over of the statistics change.
    Enqueue,
    Done,
}

/// What the caller has to do next.
#[derive(Debug, PartialEq, Eq)]
pub enum UpsertAction {
    FetchConfig,
    /// Forget the cached configuration and fetch it again.
    RefetchConfig,
    /// Lock the document with this id.
    LockDocument(String),
    /// Look which of these queue rows are still there.
    FetchQueueRows(Vec<String>),
    /// Fetch what is stored under these ids.
    FetchStored(Vec<String>),
    /// Patch the documents at these positions.
    Patch(Vec<usize>),
    FetchStats,
    /// Compute the vectors of the documents at these positions.
    Vectorize(Vec<usize>),
    /// Add the vectorized documents.
    AddDocuments,
    /// Pause, and add them once more.
    RetryAdd,
    /// Hand the statistics change over.
    EnqueueStats(Vec<(String, TokenLengthUpdate)>),
    Finish(Result<BulkUpsertOutcome, UpsertSyncError>),
}

/// A bulk upsert under way.
pub struct UpsertRun {
    pub phase: UpsertPhase,
    pub documents: Vec<Document>,
    pub verifies: Vec<Option<QueueVerify>>,
    pub config: Option<CollectionConfigInternal>,
    pub locks: Vec<String>,
    /// How many of the locks are held.
    pub held: usize,
    pub plan: UpsertPlan,
    pub skipped: Vec<String>,
    pub drained: Vec<String>,
    /// What is stored under the documents' ids, parallel to them.
    pub stored: Vec<Option<Document>>,
    /// The length lists of the vectorized documents.
    pub lengths: Vec<Vec<(String, usize)>>,
    pub attempt: usize,
}

/// The queue row that tells the expected collection: the first there is.
pub open spec fn expected_row(verifies: Seq<Option<QueueVerify>>) -> Option<QueueVerify>
    decreases verifies.len(),
{
    if verifies.len() == 0 {
        None
    } else if verifies[0] is Some {
        verifies[0]
    } else {
        expected_row(verifies.drop_first())
    }
}

fn first_row<'a>(verifies: &'a Vec<Option<QueueVerify>>) -> (r: Option<&'a QueueVerify>)
    ensures
        match r {
            Some(q) => expected_row(verifies@) == Some(*q),
            None => expected_row(verifies@) is None,
        },
{
    let mut i: usize = 0;
    assert(verifies@.skip(0) =~= verifies@);
    while i < verifies.len()
        invariant
            i <= verifies@.len(),
            expected_row(verifies@) == expected_row(verifies@.skip(i as int)),
        decreases verifies.len() - i,
    {
        assert(verifies@.skip(i as int)[0] == verifies@[i as int]);
        assert(verifies@.skip(i as int).drop_first() =~= verifies@.skip(i as int + 1));
        if let Some(q) = &verifies[i] {
            return Some(q);
        }
        i += 1;
    }
    None
}

/// Whether the batch was queued for another collection than the configured one.
pub open spec fn wrong_collection(
    verifies: Seq<Option<QueueVerify>>,
    config: CollectionConfigInternal,
) -> bool {
    expected_row(verifies) matches Some(q) && q.collection_id@ != config.collection_id@
}

/// The message for documents that were queued for another collection.
pub open spec fn mismatch_text(queued: Seq<char>, current: Seq<char>) -> Seq<char> {
    "Collection configuration changed during processing. Documents were queued for collection_id "@
        + queued + ", but current collection has collection_id "@ + current
        + ". Please re-upload the documents."@
}

/// The message for documents that were queued for another collection.
pub fn collection_mismatch(queued: &str, current: &str) -> (r: String)
    ensures
        r@ == mismatch_text(queued@, current@),
{
    text5(
        "Collection configuration changed during processing. Documents were queued for collection_id ",
        queued,
        ", but current collection has collection_id ",
        current,
        ". Please re-upload the documents.",
    )
}

/// Whether `new` is `old` with its metadata in stored form.
pub open spec fn normalized_document(old: Document, new: Document) -> bool {
    &&& functions::stored_metadata(functions::metadata_members(old.metadata)) == Ok::<
        Seq<(Seq<char>, Json)>,
        Seq<char>,
    >(functions::metadata_members(new.metadata))
    &&& new.metadata is Some <==> old.metadata is Some
    &&& new == (Document { metadata: new.metadata, ..old })
}

/// The message of the first document whose metadata has no stored form.
pub open spec fn normalize_error(docs: Seq<Document>) -> Option<Seq<char>>
    decreases docs.len(),
{
    if docs.len() == 0 {
        None
    } else {
        match functions::stored_metadata(functions::metadata_members(docs[0].metadata)) {
            Err(e) => Some(e),
            Ok(_) => normalize_error(docs.drop_first()),
        }
    }
}

/// Brings the metadata of the documents at some positions into stored form.
fn normalize_at(documents: &mut Vec<Document>, positions: &Vec<usize>) -> (r: Result<(), String>)
    requires
        ascending_below(positions@, old(documents)@.len() as int),
    ensures
        final(documents)@.len() == old(documents)@.len(),
        match r {
            Ok(_) => {
                &&& normalize_error(elements_at(old(documents)@, positions@)) is None
                &&& forall|i: int|
                    0 <= i < old(documents)@.len() ==> if indices::positions(positions@).contains(i) {
                        normalized_document(old(documents)@[i], #[trigger] final(documents)@[i])
                    } else {
                        final(documents)@[i] == old(documents)@[i]
                    }
            },
            Err(e) => normalize_error(elements_at(old(documents)@, positions@)) == Some(e@),
        },
{
    let ghost before = documents@;
    let ghost chosen = elements_at(before, positions@);
    let mut k: usize = 0;
    assert(chosen.skip(0) =~= chosen);
    while k < positions.len()
        invariant
            k <= positions@.len(),
            documents@.len() == before.len(),
            before == old(documents)@,
            ascending_below(positions@, before.len() as int),
            chosen == elements_at(before, positions@),
            normalize_error(chosen) == normalize_error(chosen.skip(k as int)),
            forall|i: int|
                0 <= i < before.len() ==> if indices::positions(positions@).take(k as int).contains(i) {
                    normalized_document(before[i], #[trigger] documents@[i])
                } else {
                    documents@[i] == before[i]
                },
        decreases positions.len() - k,
    {
        let p = positions[k];
        proof {
            assert(chosen.skip(k as int)[0] == before[p as int]);
            assert(chosen.skip(k as int).drop_first() =~= chosen.skip(k as int + 1));
            let seen = indices::positions(positions@).take(k as int);
            assert(!seen.contains(p as int)) by {
                if seen.contains(p as int) {
                    let j = choose|j: int| 0 <= j < seen.len() && seen[j] == p as int;
                    assert(positions@[j] == p);
                }
            }
            assert(documents@[p as int] == before[p as int]);
        }
        let ghost mid = documents@;
        let res = normalize_document_metadata_inplace(&mut documents[p]);
        if res.is_err() {
            return res;
        }
        proof {
            assert(documents@ == mid.update(p as int, documents@[p as int]));
            let all = indices::positions(positions@);
            assert(all.take(k as int + 1) =~= all.take(k as int).push(p as int));
            assert forall|i: int| 0 <= i < before.len() implies if all.take(
                k as int + 1,
            ).contains(i) {
                normalized_document(before[i], #[trigger] documents@[i])
            } else {
                documents@[i] == before[i]
            } by {
                let seen = all.take(k as int);
                let more = all.take(k as int + 1);
                if i == p {
                    assert(more[k as int] == i);
                } else {
                    assert(documents@[i] == mid[i]);
                    if seen.contains(i) {
                        let j = choose|j: int| 0 <= j < seen.len() && seen[j] == i;
                        assert(more[j] == i);
                    }
                    if more.contains(i) {
                        let j = choose|j: int| 0 <= j < more.len() && more[j] == i;
                        assert(seen[j] == i);
                    }
                }
            }
        }
        k += 1;
    }
    assert(indices::positions(positions@).take(k as int) =~= indices::positions(positions@));
    Ok(())
}

/// The message of the first document whose metadata does not fit the collection.
pub open spec fn type_error(config: CollectionConfigInternal, docs: Seq<Document>) -> Option<
    Seq<char>,
>
    decreases docs.len(),
{
    if docs.len() == 0 {
        None
    } else {
        match encoder::first_violation(
            encoder::indexes_of(config),
            functions::metadata_members(docs[0].metadata),
        ) {
            Some(e) => Some(e),
            None => type_error(config, docs.drop_first()),
        }
    }
}

fn check_types(config: &CollectionConfigInternal, documents: &Vec<Document>) -> (r: Option<String>)
    ensures
        text::opt_view(r) == type_error(*config, documents@),
{
    let mut i: usize = 0;
    assert(documents@.skip(0) =~= documents@);
    while i < documents.len()
        invariant
            i <= documents@.len(),
            type_error(*config, documents@) == type_error(*config, documents@.skip(i as int)),
        decreases documents.len() - i,
    {
        assert(documents@.skip(i as int)[0] == documents@[i as int]);
        assert(documents@.skip(i as int).drop_first() =~= documents@.skip(i as int + 1));
        match validate_metadata_types(config, &documents[i]) {
            Ok(_) => {},
            Err(e) => {
                return Some(e.0);
            },
        }
        i += 1;
    }
    None
}

fn all_positions(n: usize) -> (r: Vec<usize>)
    ensures
        r@ == Seq::new(n as nat, |i: int| i as usize),
        ascending_below(r@, n as int),
{
    let mut out: Vec<usize> = Vec::new();
    let mut i: usize = 0;
    while i < n
        invariant
            i <= n,
            out@ == Seq::new(i as nat, |i: int| i as usize),
        decreases n - i,
    {
        out.push(i);
        i += 1;
    }
    out
}

/// Whether each document of `new` is that of `old` with its metadata in
/// stored form.
pub open spec fn all_normalized(old: Seq<Document>, new: Seq<Document>) -> bool {
    &&& new.len() == old.len()
    &&& forall|i: int| 0 <= i < old.len() ==> normalized_document(old[i], #[trigger] new[i])
}

/// Brings the metadata of all documents into stored form.
fn normalize_all(documents: &mut Vec<Document>) -> (r: Result<(), String>)
    ensures
        match r {
            Ok(_) => normalize_error(old(documents)@) is None && all_normalized(
                old(documents)@,
                final(documents)@,
            ),
            Err(e) => normalize_error(old(documents)@) == Some(e@),
        },
{
    let positions = all_positions(documents.len());
    proof {
        assert(elements_at(documents@, positions@) =~= documents@);
        assert forall|i: int| 0 <= i < documents@.len() implies indices::positions(
            positions@,
        ).contains(i) by {
            assert(indices::positions(positions@)[i] == i);
        }
    }
    normalize_at(documents, &positions)
}

/// Whether each document of `new` is that of `old` with its content hashed.
pub open spec fn all_hashed(old: Seq<Document>, new: Seq<Document>) -> bool {
    &&& new.len() == old.len()
    &&& forall|i: int|
        0 <= i < old.len() ==> (#[trigger] new[i]).content_hash is Some
            && new[i].content_hash->0@ == functions::content_hash_of(old[i].content) && new[i] == (
        Document { content_hash: new[i].content_hash, ..old[i] })
}

fn hash_all(documents: &mut Vec<Document>)
    ensures
        all_hashed(old(documents)@, final(documents)@),
{
    let ghost before = documents@;
    let mut i: usize = 0;
    while i < documents.len()
        invariant
            i <= documents@.len(),
            documents@.len() == before.len(),
            forall|k: int| i <= k < before.len() ==> #[trigger] documents@[k] == before[k],
            forall|k: int|
                0 <= k < i ==> (#[trigger] documents@[k]).content_hash is Some
                    && documents@[k].content_hash->0@ == functions::content_hash_of(
                    before[k].content,
                ) && documents@[k] == (Document {
                    content_hash: documents@[k].content_hash,
                    ..before[k]
                }),
        decreases documents.len() - i,
    {
        let ghost mid = documents@;
        set_content_hash(&mut documents[i]);
        assert(documents@ == mid.update(i as int, documents@[i as int]));
        i += 1;
    }
}

fn ids_of(documents: &Vec<Document>) -> (r: Vec<String>)
    ensures
        text::views(r@) == upsert::document_ids(documents@),
{
    let mut out: Vec<String> = Vec::new();
    let mut i: usize = 0;
    while i < documents.len()
        invariant
            i <= documents@.len(),
            out@.len() == i,
            forall|k: int| 0 <= k < i ==> (#[trigger] out@[k])@ == documents@[k].id@,
        decreases documents.len() - i,
    {
        out.push(documents[i].id.clone());
        i += 1;
    }
    assert(text::views(out@) =~= upsert::document_ids(documents@));
    out
}

/// The ids of the documents at some positions.
pub open spec fn ids_at(docs: Seq<Document>, positions: Seq<usize>) -> Seq<Seq<char>> {
    Seq::new(positions.len(), |k: int| docs[positions[k] as int].id@)
}

fn ids_at_positions(documents: &Vec<Document>, positions: &Vec<usize>) -> (r: Vec<String>)
    requires
        forall|k: int| 0 <= k < positions@.len() ==> (#[trigger] positions@[k]) < documents@.len(),
    ensures
        text::views(r@) == ids_at(documents@, positions@),
{
    let mut out: Vec<String> = Vec::new();
    let mut i: usize = 0;
    while i < positions.len()
        invariant
            i <= positions@.len(),
            out@.len() == i,
            forall|k: int|
                0 <= k < positions@.len() ==> (#[trigger] positions@[k]) < documents@.len(),
            forall|k: int|
                0 <= k < i ==> (#[trigger] out@[k])@ == documents@[positions@[k] as int].id@,
        decreases positions.len() - i,
    {
        out.push(documents[positions[i]].id.clone());
        i += 1;
    }
    assert(text::views(out@) =~= ids_at(documents@, positions@));
    out
}

/// The ids of the queue rows of a batch, in order.
pub open spec fn row_ids(verifies: Seq<Option<QueueVerify>>) -> Seq<Seq<char>>
    decreases verifies.len(),
{
    if verifies.len() == 0 {
        Seq::empty()
    } else {
        let rest = row_ids(verifies.drop_last());
        match verifies.last() {
            Some(q) => rest.push(q.queue_id@),
            None => rest,
        }
    }
}

fn queue_row_ids(verifies: &Vec<Option<QueueVerify>>) -> (r: Vec<String>)
    ensures
        text::views(r@) == row_ids(verifies@),
{
    let mut out: Vec<String> = Vec::new();
    let mut i: usize = 0;
    assert(verifies@.take(0) =~= Seq::<Option<QueueVerify>>::empty());
    assert(text::views(out@) =~= Seq::<Seq<char>>::empty());
    while i < verifies.len()
        invariant
            i <= verifies@.len(),
            text::views(out@) == row_ids(verifies@.take(i as int)),
        decreases verifies.len() - i,
    {
        assert(verifies@.take(i as int + 1).drop_last() =~= verifies@.take(i as int));
        let ghost before = text::views(out@);
        if let Some(q) = &verifies[i] {
            out.push(q.queue_id.clone());
            assert(text::views(out@) =~= before.push(q.queue_id@));
        }
        i += 1;
    }
    assert(verifies@.take(i as int) =~= verifies@);
    out
}

/// Whether the run is over, with this error.
pub open spec fn fails_as(a: UpsertAction, e: UpsertSyncError) -> bool {
    a == UpsertAction::Finish(Err(e))
}

/// Whether the run is over because a document is not acceptable.
pub open spec fn fails_validation(a: UpsertAction, message: Seq<char>) -> bool {
    a matches UpsertAction::Finish(Err(UpsertSyncError::Validation(m))) && m@ == message
}

impl UpsertRun {
    /// Whether the run is over with its outcome.
    pub open spec fn succeeds(self, a: UpsertAction) -> bool {
        &&& self.phase is Done
        &&& a matches UpsertAction::Finish(Ok(o)) && text::views(o.skipped@) == text::views(
            self.skipped@,
        ) && text::views(o.drained@) == text::views(self.drained@)
    }

    /// Whether every document of the run is locked.
    pub open spec fn all_locked(self) -> bool {
        &&& self.held == self.locks@.len()
        &&& forall|i: int|
            0 <= i < self.documents@.len() ==> text::views(self.locks@).contains(
                (#[trigger] self.documents@[i]).id@,
            )
    }

    /// Whether the plan's positions are positions of documents.
    pub open spec fn plan_in_range(self) -> bool {
        let n = self.documents@.len() as int;
        &&& ascending_below(self.plan.skipped@, n)
        &&& ascending_below(self.plan.patched@, n)
        &&& ascending_below(self.plan.vectorized@, n)
        &&& self.plan.is_new@.len() == self.plan.vectorized@.len()
        &&& self.stored@.len() == self.documents@.len()
    }

    /// What holds of a run in each of its phases. From the queue rows on,
    /// every document is locked.
    pub open spec fn valid(self) -> bool {
        match self.phase {
            UpsertPhase::Config | UpsertPhase::FreshConfig => self.documents@.len() > 0
                && self.skipped@.len() == 0 && self.drained@.len() == 0,
            UpsertPhase::Lock => {
                &&& self.config is Some
                &&& self.held < self.locks@.len()
                &&& upsert::strictly_ascending(text::views(self.locks@))
                &&& forall|i: int|
                    0 <= i < self.documents@.len() ==> text::views(self.locks@).contains(
                        (#[trigger] self.documents@[i]).id@,
                    )
                &&& self.skipped@.len() == 0
                &&& self.drained@.len() == 0
            },
            UpsertPhase::QueueRows => self.config is Some && self.all_locked()
                && self.skipped@.len() == 0 && self.drained@.len() == 0,
            UpsertPhase::Stored => self.config is Some && self.all_locked()
                && self.skipped@.len() == 0,
            UpsertPhase::Patch | UpsertPhase::Stats | UpsertPhase::Vectorize => self.config is Some
                && self.all_locked() && self.plan_in_range(),
            UpsertPhase::Add => {
                &&& self.config is Some
                &&& self.all_locked()
                &&& self.plan_in_range()
                &&& self.lengths@.len() == self.plan.vectorized@.len()
                &&& 1 <= self.attempt <= ADD_DOCUMENTS_MAX_ATTEMPTS
            },
            UpsertPhase::Enqueue | UpsertPhase::Done => true,
        }
    }

    fn finish(&mut self) -> (r: UpsertAction)
        ensures
            *final(self) == (UpsertRun { phase: UpsertPhase::Done, ..*old(self) }),
            final(self).succeeds(r),
    {
        self.phase = UpsertPhase::Done;
        UpsertAction::Finish(
            Ok(
                BulkUpsertOutcome {
                    skipped: copy_texts(&self.skipped),
                    drained: copy_texts(&self.drained),
                },
            ),
        )
    }

    /// Begins a bulk upsert. `verifies` is empty, or runs parallel to the
    /// documents and holds the queue rows that they came from.
    pub fn start(documents: Vec<Document>, verifies: Vec<Option<QueueVerify>>) -> (r: (
        UpsertRun,
        UpsertAction,
    ))
        ensures
            r.0.valid(),
            r.0.documents == documents,
            r.0.verifies == verifies,
            r.0.skipped@.len() == 0,
            r.0.drained@.len() == 0,
            documents@.len() == 0 ==> r.0.succeeds(r.1),
            documents@.len() > 0 ==> r.0.phase is Config && r.1 is FetchConfig,
    {
        let empty = documents.len() == 0;
        let mut run = UpsertRun {
            phase: UpsertPhase::Config,
            documents,
            verifies,
            config: None,
            locks: Vec::new(),
            held: 0,
            plan: UpsertPlan {
                skipped: Vec::new(),
                patched: Vec::new(),
                vectorized: Vec::new(),
                is_new: Vec::new(),
            },
            skipped: Vec::new(),
            drained: Vec::new(),
            stored: Vec::new(),
            lengths: Vec::new(),
            attempt: 0,
        };
        if empty {
            let action = run.finish();
            (run, action)
        } else {
            (run, UpsertAction::FetchConfig)
        }
    }

    /// What the run does with a configuration of the right collection.
    pub open spec fn prepares(
        old: UpsertRun,
        config: CollectionConfigInternal,
        new: UpsertRun,
        a: UpsertAction,
    ) -> bool {
        match normalize_error(old.documents@) {
            Some(e) => new.phase is Done && fails_validation(a, e),
            None => {
                &&& all_normalized(old.documents@, new.documents@)
                &&& match type_error(config, new.documents@) {
                    Some(e) => new.phase is Done && fails_validation(a, e),
                    None => {
                        &&& new.phase is Lock
                        &&& new.config == Some(config)
                        &&& new.verifies == old.verifies
                        &&& upsert::strictly_ascending(text::views(new.locks@))
                        &&& forall|id: Seq<char>| #[trigger]
                            text::views(new.locks@).contains(id) <==> upsert::document_ids(
                                new.documents@,
                            ).contains(id)
                        &&& new.held == 0
                        &&& a matches UpsertAction::LockDocument(id) && id@ == new.locks@[0]@
                    },
                }
            },
        }
    }

    /// The configuration has come, or could not be had. Documents that were
    /// queued for another collection are given one look past the cache.
    pub fn on_config(&mut self, r: Result<CollectionConfigInternal, DbError>) -> (a: UpsertAction)
        requires
            old(self).valid(),
            old(self).phase is Config || old(self).phase is FreshConfig,
        ensures
            final(self).valid(),
            match r {
                Err(e) => final(self).phase is Done && if e is NotFound {
                    a matches UpsertAction::Finish(Err(UpsertSyncError::NotFound(m))) && m@
                        == "Collection configuration not found"@
                } else {
                    fails_as(a, UpsertSyncError::Db(e))
                },
                Ok(config) => if wrong_collection(old(self).verifies@, config) {
                    if old(self).phase is Config {
                        *final(self) == (UpsertRun {
                            phase: UpsertPhase::FreshConfig,
                            ..*old(self)
                        }) && a is RefetchConfig
                    } else {
                        final(self).phase is Done && (a matches UpsertAction::Finish(
                            Err(UpsertSyncError::QueueCollectionMismatch(m)),
                        ) && m@ == mismatch_text(
                            expected_row(old(self).verifies@)->0.collection_id@,
                            config.collection_id@,
                        ))
                    }
                } else {
                    Self::prepares(*old(self), config, *final(self), a)
                },
            },
    {
        let config = match r {
            Err(DbError::NotFound(_)) => {
                self.phase = UpsertPhase::Done;
                return UpsertAction::Finish(
                    Err(UpsertSyncError::NotFound("Collection configuration not found".to_owned())),
                );
            },
            Err(e) => {
                self.phase = UpsertPhase::Done;
                return UpsertAction::Finish(Err(UpsertSyncError::Db(e)));
            },
            Ok(c) => c,
        };
        if let Some(q) = first_row(&self.verifies) {
            if !same_text(q.collection_id.as_str(), config.collection_id.as_str()) {
                if matches!(self.phase, UpsertPhase::Config) {
                    self.phase = UpsertPhase::FreshConfig;
                    return UpsertAction::RefetchConfig;
                }
                let m = collection_mismatch(q.collection_id.as_str(), config.collection_id.as_str());
                self.phase = UpsertPhase::Done;
                return UpsertAction::Finish(Err(UpsertSyncError::QueueCollectionMismatch(m)));
            }
        }
        match normalize_all(&mut self.documents) {
            Ok(_) => {},
            Err(e) => {
                self.phase = UpsertPhase::Done;
                return UpsertAction::Finish(Err(UpsertSyncError::Validation(e)));
            },
        }
        if let Some(e) = check_types(&config, &self.documents) {
            self.phase = UpsertPhase::Done;
            return UpsertAction::Finish(Err(UpsertSyncError::Validation(e)));
        }
        self.locks = lock_order(&self.documents);
        self.held = 0;
        self.config = Some(config);
        self.phase = UpsertPhase::Lock;
        proof {
            let ids = upsert::document_ids(self.documents@);
            assert forall|i: int| 0 <= i < self.documents@.len() implies text::views(
                self.locks@,
            ).contains((#[trigger] self.documents@[i]).id@) by {
                assert(ids[i] == self.documents@[i].id@);
                assert(ids.contains(self.documents@[i].id@));
            }
            assert(text::views(self.locks@).contains(self.documents@[0].id@));
        }
        UpsertAction::LockDocument(self.locks[0].clone())
    }

    /// How the run goes on once its documents are locked and verified: content
    /// that is not stored is hashed, and the stored versions are fetched.
    pub open spec fn looks_up(old: UpsertRun, new: UpsertRun, a: UpsertAction) -> bool {
        &&& new.phase is Stored
        &&& if old.config->0.store_content {
            new.documents == old.documents
        } else {
            all_hashed(old.documents@, new.documents@)
        }
        &&& new.config == old.config
        &&& new.skipped == old.skipped
        &&& new.drained == old.drained
        &&& a matches UpsertAction::FetchStored(ids) && text::views(ids@) == upsert::document_ids(
            new.documents@,
        )
    }

    fn look_up(&mut self) -> (a: UpsertAction)
        requires
            old(self).config is Some,
            old(self).all_locked(),
            old(self).skipped@.len() == 0,
        ensures
            final(self).valid(),
            Self::looks_up(*old(self), *final(self), a),
    {
        let hashed = match &self.config {
            Some(c) => !c.store_content,
            None => false,
        };
        if hashed {
            let ghost before = self.documents@;
            hash_all(&mut self.documents);
            proof {
                assert forall|i: int| 0 <= i < self.documents@.len() implies text::views(
                    self.locks@,
                ).contains((#[trigger] self.documents@[i]).id@) by {
                    assert(self.documents@[i].id == before[i].id);
                }
            }
        }
        self.phase = UpsertPhase::Stored;
        UpsertAction::FetchStored(ids_of(&self.documents))
    }

    /// The lock of the next document is held, or could not be had. Locks are
    /// taken one after the other, in ascending order of the ids.
    pub fn on_locked(&mut self, r: Result<(), String>) -> (a: UpsertAction)
        requires
            old(self).valid(),
            old(self).phase is Lock,
        ensures
            final(self).valid(),
            match r {
                Err(e) => final(self).phase is Done && fails_as(
                    a,
                    UpsertSyncError::Db(DbError::Config(e)),
                ),
                Ok(_) => if old(self).held + 1 < old(self).locks@.len() {
                    *final(self) == (UpsertRun {
                        held: (old(self).held + 1) as usize,
                        ..*old(self)
                    }) && (a matches UpsertAction::LockDocument(id) && id@ == old(
                        self,
                    ).locks@[old(self).held + 1]@)
                } else if expected_row(old(self).verifies@) is Some {
                    *final(self) == (UpsertRun {
                        phase: UpsertPhase::QueueRows,
                        held: (old(self).held + 1) as usize,
                        ..*old(self)
                    }) && (a matches UpsertAction::FetchQueueRows(ids) && text::views(ids@)
                        == row_ids(old(self).verifies@))
                } else {
                    Self::looks_up(*old(self), *final(self), a)
                },
            },
    {
        match r {
            Err(e) => {
                self.phase = UpsertPhase::Done;
                return UpsertAction::Finish(Err(UpsertSyncError::Db(DbError::Config(e))));
            },
            Ok(_) => {},
        }
        let total: usize = self.locks.len();
        self.held = self.held + 1;
        if self.held < total {
            return UpsertAction::LockDocument(self.locks[self.held].clone());
        }
        if first_row(&self.verifies).is_some() {
            self.phase = UpsertPhase::QueueRows;
            return UpsertAction::FetchQueueRows(queue_row_ids(&self.verifies));
        }
        self.look_up()
    }

    /// What the queue rows that are still there mean for the batch.
    pub open spec fn verifies_rows(
        old: UpsertRun,
        still: Seq<Seq<char>>,
        new: UpsertRun,
        a: UpsertAction,
    ) -> bool {
        let n = old.documents@.len() as int;
        let kept = indices::picked(n, |i: int| !upsert::row_is_gone(old.verifies@, still, i));
        let gone = indices::picked(n, |i: int| upsert::row_is_gone(old.verifies@, still, i));
        let remaining = Seq::new(kept.len(), |k: int| old.documents@[kept[k]]);
        &&& text::views(new.drained@) == Seq::new(gone.len(), |k: int| old.documents@[gone[k]].id@)
        &&& new.skipped@.len() == 0
        &&& if remaining.len() == 0 {
            new.succeeds(a)
        } else {
            &&& new.phase is Stored
            &&& new.config == old.config
            &&& if old.config->0.store_content {
                new.documents@ == remaining
            } else {
                all_hashed(remaining, new.documents@)
            }
            &&& a matches UpsertAction::FetchStored(ids) && text::views(ids@)
                == upsert::document_ids(new.documents@)
        }
    }

    /// The queue rows that are still there have come. Documents whose rows are
    /// gone are not applied, and reported as drained.
    pub fn on_queue_rows(&mut self, r: Result<Vec<String>, DbError>) -> (a: UpsertAction)
        requires
            old(self).valid(),
            old(self).phase is QueueRows,
        ensures
            final(self).valid(),
            match r {
                Err(e) => final(self).phase is Done && fails_as(a, UpsertSyncError::Db(e)),
                Ok(still) => Self::verifies_rows(
                    *old(self),
                    text::views(still@),
                    *final(self),
                    a,
                ),
            },
    {
        let still = match r {
            Err(e) => {
                self.phase = UpsertPhase::Done;
                return UpsertAction::Finish(Err(UpsertSyncError::Db(e)));
            },
            Ok(s) => s,
        };
        let ghost before = self.documents@;
        let n: usize = self.documents.len();
        let (kept, gone) = split_drained(n, &self.verifies, &still);
        let ghost keeps = |i: int|
            !upsert::row_is_gone(self.verifies@, text::views(still@), i);
        let ghost goes = |i: int| upsert::row_is_gone(self.verifies@, text::views(still@), i);
        proof {
            indices::picked_is_exact(n as int, keeps);
            indices::picked_is_exact(n as int, goes);
            lemma_positions_ascending(kept@, n as int, keeps);
            lemma_positions_ascending(gone@, n as int, goes);
        }
        self.drained = ids_at_positions(&self.documents, &gone);
        proof {
            let g = indices::picked(n as int, goes);
            assert(text::views(self.drained@) =~= Seq::new(g.len(), |k: int| before[g[k]].id@)) by {
                assert forall|k: int| 0 <= k < g.len() implies gone@[k] as int == g[k] by {
                    assert(indices::positions(gone@)[k] == g[k]);
                }
            }
        }
        let mut taken: Vec<Document> = Vec::new();
        std::mem::swap(&mut taken, &mut self.documents);
        self.documents = keep_at(taken, &kept);
        proof {
            let g = indices::picked(n as int, keeps);
            let remaining = Seq::new(g.len(), |k: int| before[g[k]]);
            assert(self.documents@ =~= remaining) by {
                assert forall|k: int| 0 <= k < g.len() implies kept@[k] as int == g[k] by {
                    assert(indices::positions(kept@)[k] == g[k]);
                }
            }
            assert forall|i: int| 0 <= i < self.documents@.len() implies text::views(
                self.locks@,
            ).contains((#[trigger] self.documents@[i]).id@) by {
                assert(self.documents@[i] == before[kept@[i] as int]);
            }
        }
        if self.documents.len() == 0 {
            return self.finish();
        }
        self.look_up()
    }

    /// The plan for the batch, and whether it is next to be patched or goes on
    /// to be vectorized.
    pub open spec fn plans(
        old: UpsertRun,
        existing: Seq<Option<Document>>,
        new: UpsertRun,
        a: UpsertAction,
    ) -> bool {
        let docs = old.documents@;
        &&& upsert::plan_matches(docs, existing, old.config->0, new.plan)
        &&& text::views(new.skipped@) == ids_at(docs, new.plan.skipped@)
        &&& new.drained == old.drained
        &&& if new.plan.patched@.len() > 0 {
            match normalize_error(elements_at(docs, new.plan.patched@)) {
                Some(e) => new.phase is Done && fails_validation(a, e),
                None => {
                    &&& new.phase is Patch
                    &&& new.config == old.config
                    &&& a matches UpsertAction::Patch(at) && at@ == new.plan.patched@
                    &&& new.documents@.len() == docs.len()
                    &&& forall|i: int|
                        0 <= i < docs.len() ==> if indices::positions(
                            new.plan.patched@,
                        ).contains(i) {
                            normalized_document(docs[i], #[trigger] new.documents@[i])
                        } else {
                            new.documents@[i] == docs[i]
                        }
                    &&& new.stored@ == existing
                },
            }
        } else if new.plan.vectorized@.len() > 0 {
            new.phase is Stats && a is FetchStats && new.documents == old.documents && new.config
                == old.config && new.stored@ == existing
        } else {
            new.succeeds(a)
        }
    }

    fn vectorize_or_finish(&mut self) -> (a: UpsertAction)
        ensures
            if old(self).plan.vectorized@.len() > 0 {
                *final(self) == (UpsertRun { phase: UpsertPhase::Stats, ..*old(self) })
                    && a is FetchStats
            } else {
                *final(self) == (UpsertRun { phase: UpsertPhase::Done, ..*old(self) })
                    && final(self).succeeds(a)
            },
    {
        if self.plan.vectorized.len() > 0 {
            self.phase = UpsertPhase::Stats;
            UpsertAction::FetchStats
        } else {
            self.finish()
        }
    }

    /// The stored versions have come: every document is skipped, patched or
    /// vectorized.
    pub fn on_stored(&mut self, r: Result<Vec<Option<Document>>, DbError>) -> (a: UpsertAction)
        requires
            old(self).valid(),
            old(self).phase is Stored,
            r matches Ok(existing) ==> existing@.len() == old(self).documents@.len(),
        ensures
            final(self).valid(),
            match r {
                Err(e) => final(self).phase is Done && fails_as(a, UpsertSyncError::Db(e)),
                Ok(existing) => Self::plans(*old(self), existing@, *final(self), a),
            },
    {
        let existing = match r {
            Err(e) => {
                self.phase = UpsertPhase::Done;
                return UpsertAction::Finish(Err(UpsertSyncError::Db(e)));
            },
            Ok(x) => x,
        };
        let ghost docs = self.documents@;
        let ghost config = self.config->0;
        let plan = match &self.config {
            Some(c) => partition_documents(&self.documents, &existing, c),
            None => {
                assert(false);
                UpsertPlan {
                    skipped: Vec::new(),
                    patched: Vec::new(),
                    vectorized: Vec::new(),
                    is_new: Vec::new(),
                }
            },
        };
        proof {
            let n = docs.len() as int;
            lemma_positions_ascending(
                plan.skipped@,
                n,
                |i: int| upsert::fate_at(docs, existing@, config, i) is Stale,
            );
            lemma_positions_ascending(
                plan.patched@,
                n,
                |i: int| upsert::fate_at(docs, existing@, config, i) is Patch,
            );
            lemma_positions_ascending(
                plan.vectorized@,
                n,
                |i: int|
                    upsert::fate_at(docs, existing@, config, i) is New || upsert::fate_at(
                        docs,
                        existing@,
                        config,
                        i,
                    ) is Revectorize,
            );
        }
        self.skipped = ids_at_positions(&self.documents, &plan.skipped);
        self.stored = existing;
        self.plan = plan;
        if self.plan.patched.len() > 0 {
            match normalize_at(&mut self.documents, &self.plan.patched) {
                Ok(_) => {},
                Err(e) => {
                    self.phase = UpsertPhase::Done;
                    return UpsertAction::Finish(Err(UpsertSyncError::Validation(e)));
                },
            }
            proof {
                assert forall|i: int| 0 <= i < self.documents@.len() implies text::views(
                    self.locks@,
                ).contains((#[trigger] self.documents@[i]).id@) by {
                    assert(self.documents@[i].id == docs[i].id);
                }
            }
            self.phase = UpsertPhase::Patch;
            return UpsertAction::Patch(copy_positions(&self.plan.patched));
        }
        self.vectorize_or_finish()
    }

    /// The patch went through, or did not.
    pub fn on_patched(&mut self, r: Result<(), DbError>) -> (a: UpsertAction)
        requires
            old(self).valid(),
            old(self).phase is Patch,
        ensures
            final(self).valid(),
            match r {
                Err(e) => final(self).phase is Done && fails_as(a, UpsertSyncError::Db(e)),
                Ok(_) => if old(self).plan.vectorized@.len() > 0 {
                    *final(self) == (UpsertRun { phase: UpsertPhase::Stats, ..*old(self) })
                        && a is FetchStats
                } else {
                    *final(self) == (UpsertRun { phase: UpsertPhase::Done, ..*old(self) })
                        && final(self).succeeds(a)
                },
            },
    {
        match r {
            Err(e) => {
                self.phase = UpsertPhase::Done;
                UpsertAction::Finish(Err(UpsertSyncError::Db(e)))
            },
            Ok(_) => self.vectorize_or_finish(),
        }
    }

    /// The collection's statistics have come: the documents to vectorize are
    /// brought into stored form and handed to the vectorizer.
    pub fn on_stats(&mut self, r: Result<(), DbError>) -> (a: UpsertAction)
        requires
            old(self).valid(),
            old(self).phase is Stats,
        ensures
            final(self).valid(),
            match r {
                Err(e) => final(self).phase is Done && fails_as(a, UpsertSyncError::Db(e)),
                Ok(_) => match normalize_error(
                    elements_at(old(self).documents@, old(self).plan.vectorized@),
                ) {
                    Some(e) => final(self).phase is Done && fails_validation(a, e),
                    None => {
                        &&& *final(self) == (UpsertRun {
                            phase: UpsertPhase::Vectorize,
                            documents: final(self).documents,
                            ..*old(self)
                        })
                        &&& final(self).documents@.len() == old(self).documents@.len()
                        &&& forall|i: int|
                            0 <= i < old(self).documents@.len() ==> if indices::positions(
                                old(self).plan.vectorized@,
                            ).contains(i) {
                                normalized_document(
                                    old(self).documents@[i],
                                    #[trigger] final(self).documents@[i],
                                )
                            } else {
                                final(self).documents@[i] == old(self).documents@[i]
                            }
                        &&& a matches UpsertAction::Vectorize(at) && at@ == old(
                            self,
                        ).plan.vectorized@
                    },
                },
            },
    {
        match r {
            Err(e) => {
                self.phase = UpsertPhase::Done;
                return UpsertAction::Finish(Err(UpsertSyncError::Db(e)));
            },
            Ok(_) => {},
        }
        let ghost docs = self.documents@;
        match normalize_at(&mut self.documents, &self.plan.vectorized) {
            Ok(_) => {},
            Err(e) => {
                self.phase = UpsertPhase::Done;
                return UpsertAction::Finish(Err(UpsertSyncError::Validation(e)));
            },
        }
        proof {
            assert forall|i: int| 0 <= i < self.documents@.len() implies text::views(
                self.locks@,
            ).contains((#[trigger] self.documents@[i]).id@) by {
                assert(self.documents@[i].id == docs[i].id);
            }
        }
        self.phase = UpsertPhase::Vectorize;
        UpsertAction::Vectorize(copy_positions(&self.plan.vectorized))
    }

    /// The vectors have come, with the token lengths of each document, or the
    /// vectorizer failed.
    pub fn on_vectorized(&mut self, r: Result<Vec<Vec<(String, usize)>>, String>) -> (a:
        UpsertAction)
        requires
            old(self).valid(),
            old(self).phase is Vectorize,
            r matches Ok(lengths) ==> lengths@.len() == old(self).plan.vectorized@.len(),
        ensures
            final(self).valid(),
            match r {
                Err(e) => final(self).phase is Done && fails_as(
                    a,
                    UpsertSyncError::Vectorization(e),
                ),
                Ok(lengths) => *final(self) == (UpsertRun {
                    phase: UpsertPhase::Add,
                    lengths,
                    attempt: 1,
                    ..*old(self)
                }) && a is AddDocuments,
            },
    {
        match r {
            Err(e) => {
                self.phase = UpsertPhase::Done;
                UpsertAction::Finish(Err(UpsertSyncError::Vectorization(e)))
            },
            Ok(lengths) => {
                self.phase = UpsertPhase::Add;
                self.lengths = lengths;
                self.attempt = 1;
                UpsertAction::AddDocuments
            },
        }
    }

    /// The samples of the vectorized documents.
    pub open spec fn samples(self) -> Seq<upsert::Sample> {
        upsert::batch_sample_views(
            self.documents@,
            self.stored@,
            self.plan,
            self.lengths@,
            self.lengths@.len() as int,
        )
    }

    /// How many of the vectorized documents are new.
    pub open spec fn new_count(self) -> int {
        indices::count_where(self.plan.is_new@.len() as int, |k: int| self.plan.is_new@[k])
    }

    /// Whether the entries are the statistics change of the batch.
    pub open spec fn is_stats_change(self, updates: Seq<(String, TokenLengthUpdate)>) -> bool {
        &&& upsert::names_distinct(updates)
        &&& forall|name: Seq<char>| #[trigger]
            upsert::names_contain(updates, name) <==> upsert::sampled(self.samples(), name)
        &&& forall|i: int|
            0 <= i < updates.len() ==> upsert::sums_under(
                self.samples(),
                (#[trigger] updates[i]).0@,
                self.new_count() as i64,
                (self.plan.is_new@.len() - self.new_count()) as i64,
                updates[i].1,
            )
    }

    /// The documents were added, or not; adding is tried three times.
    pub fn on_added(&mut self, r: Result<(), DbError>) -> (a: UpsertAction)
        requires
            old(self).valid(),
            old(self).phase is Add,
            upsert::total_length(old(self).samples()) <= i64::MAX,
            old(self).plan.is_new@.len() <= i64::MAX,
        ensures
            final(self).valid(),
            match r {
                Err(e) => if old(self).attempt < ADD_DOCUMENTS_MAX_ATTEMPTS {
                    *final(self) == (UpsertRun {
                        attempt: (old(self).attempt + 1) as usize,
                        ..*old(self)
                    }) && a is RetryAdd
                } else {
                    final(self).phase is Done && fails_as(a, UpsertSyncError::Db(e))
                },
                Ok(_) => if old(self).samples().len() == 0 {
                    *final(self) == (UpsertRun { phase: UpsertPhase::Done, ..*old(self) })
                        && final(self).succeeds(a)
                } else {
                    *final(self) == (UpsertRun { phase: UpsertPhase::Enqueue, ..*old(self) }) && (a
                        matches UpsertAction::EnqueueStats(updates) && old(self).is_stats_change(
                        updates@,
                    ))
                },
            },
    {
        match r {
            Err(e) => {
                if self.attempt < ADD_DOCUMENTS_MAX_ATTEMPTS {
                    self.attempt = self.attempt + 1;
                    return UpsertAction::RetryAdd;
                }
                self.phase = UpsertPhase::Done;
                return UpsertAction::Finish(Err(UpsertSyncError::Db(e)));
            },
            Ok(_) => {},
        }
        let samples = batch_samples(&self.documents, &self.stored, &self.plan, &self.lengths);
        let new_docs = count_new(&self.plan.is_new);
        let updated: i64 = self.plan.is_new.len() as i64 - new_docs;
        let updates = sum_samples(&samples, new_docs, updated);
        proof {
            let s = self.samples();
            if s.len() > 0 {
                assert(upsert::sampled(s, s[0].name));
                assert(upsert::names_contain(updates@, s[0].name));
            }
            if updates@.len() > 0 {
                assert(upsert::names_contain(updates@, updates@[0].0@));
            }
        }
        if updates.len() == 0 {
            return self.finish();
        }
        self.phase = UpsertPhase::Enqueue;
        UpsertAction::EnqueueStats(updates)
    }

    /// The statistics change was handed over, or could not be.
    pub fn on_enqueued(&mut self, r: Result<(), DbError>) -> (a: UpsertAction)
        requires
            old(self).phase is Enqueue,
        ensures
            final(self).valid(),
            match r {
                Err(e) => final(self).phase is Done && fails_as(a, UpsertSyncError::Db(e)),
                Ok(_) => *final(self) == (UpsertRun { phase: UpsertPhase::Done, ..*old(self) })
                    && final(self).succeeds(a),
            },
    {
        match r {
            Err(e) => {
                self.phase = UpsertPhase::Done;
                UpsertAction::Finish(Err(UpsertSyncError::Db(e)))
            },
            Ok(_) => self.finish(),
        }
    }
}

fn copy_positions(v: &Vec<usize>) -> (r: Vec<usize>)
    ensures
        r@ == v@,
{
    let mut out: Vec<usize> = Vec::new();
    let mut i: usize = 0;
    while i < v.len()
        invariant
            i <= v@.len(),
            out@ == v@.take(i as int),
        decreases v.len() - i,
    {
        out.push(v[i]);
        i += 1;
    }
    out
}

fn count_new(is_new: &Vec<bool>) -> (r: i64)
    requires
        is_new@.len() <= i64::MAX,
    ensures
        r == indices::count_where(is_new@.len() as int, |k: int| is_new@[k]),
        0 <= r <= is_new@.len(),
{
    let mut n: i64 = 0;
    let mut i: usize = 0;
    let ghost p = |k: int| is_new@[k];
    while i < is_new.len()
        invariant
            i <= is_new@.len(),
            is_new@.len() <= i64::MAX,
            p == (|k: int| is_new@[k]),
            0 <= n <= i,
            n == indices::count_where(i as int, p),
        decreases is_new.len() - i,
    {
        if is_new[i] {
            n += 1;
        }
        i += 1;
    }
    n
}

proof fn lemma_positions_ascending(v: Seq<usize>, n: int, p: spec_fn(int) -> bool)
    requires
        indices::positions(v) == indices::picked(n, p),
    ensures
        ascending_below(v, n),
{
    indices::picked_is_exact(n, p);
    let g = indices::picked(n, p);
    assert(g.len() == v.len());
    assert forall|k: int| 0 <= k < v.len() implies (#[trigger] v[k]) < n by {
        assert(indices::positions(v)[k] == v[k] as int);
        assert(g[k] < n);
    }
    assert forall|a: int, b: int|
        #![trigger v[a], v[b]]
        0 <= a < b < v.len() implies v[a] < v[b] by {
        assert(indices::positions(v)[a] == v[a] as int);
        assert(indices::positions(v)[b] == v[b] as int);
        assert(g[a] < g[b]);
    }
}

/// Nothing is patched, vectorized or added unless every document of the batch
/// is locked.
pub proof fn writes_are_locked(run: UpsertRun)
    requires
        run.valid(),
        run.phase is Patch || run.phase is Stats || run.phase is Vectorize || run.phase is Add,
    ensures
        run.all_locked(),
{
}

/// The row that a batch is expected in is that of the first document that has
/// one; a batch without rows is expected in none.
pub proof fn batches_are_expected_in_their_first_row(verifies: Seq<Option<QueueVerify>>, i: int)
    ensures
        0 <= i < verifies.len() && verifies[i] is Some && (forall|k: int|
            0 <= k < i ==> (#[trigger] verifies[k]) is None) ==> expected_row(verifies)
            == verifies[i],
        (forall|k: int| 0 <= k < verifies.len() ==> (#[trigger] verifies[k]) is None)
            <==> expected_row(verifies) is None,
    decreases verifies.len(),
{
    if verifies.len() > 0 && verifies[0] is None {
        let rest = verifies.drop_first();
        assert(forall|k: int| 0 <= k < rest.len() ==> #[trigger] rest[k] == verifies[k + 1]);
        batches_are_expected_in_their_first_row(rest, i - 1);
        if expected_row(verifies) is None {
            assert forall|k: int| 0 <= k < verifies.len() implies (#[trigger] verifies[k]) is None by {
                if k > 0 {
                    assert(rest[k - 1] == verifies[k]);
                }
            }
        }
        if 0 < i < verifies.len() {
            assert(rest[i - 1] == verifies[i]);
        }
    }
}

/// The rows that are looked up are those of the documents that have one, and no
/// others.
pub proof fn all_rows_are_looked_up(verifies: Seq<Option<QueueVerify>>, id: Seq<char>)
    ensures
        row_ids(verifies).contains(id) <==> exists|i: int|
            0 <= i < verifies.len() && (#[trigger] verifies[i]) is Some
                && verifies[i]->0.queue_id@ == id,
        row_ids(verifies).len() <= verifies.len(),
    decreases verifies.len(),
{
    if verifies.len() > 0 {
        let rest = verifies.drop_last();
        all_rows_are_looked_up(rest, id);
        assert(forall|k: int| 0 <= k < rest.len() ==> #[trigger] rest[k] == verifies[k]);
        let ids = row_ids(rest);
        if verifies.last() is Some {
            let own = verifies.last()->0.queue_id@;
            assert(row_ids(verifies) == ids.push(own));
            assert(ids.push(own)[ids.len() as int] == own);
            if ids.contains(id) {
                let k = choose|k: int| 0 <= k < ids.len() && ids[k] == id;
                assert(ids.push(own)[k] == id);
            }
            if ids.push(own).contains(id) && own != id {
                let k = choose|k: int| 0 <= k < ids.push(own).len() && ids.push(own)[k] == id;
                assert(ids[k] == id);
            }
            if own == id {
                assert(verifies[verifies.len() - 1] is Some);
            }
        }
        if exists|i: int|
            0 <= i < verifies.len() && (#[trigger] verifies[i]) is Some
                && verifies[i]->0.queue_id@ == id {
            let i = choose|i: int|
                0 <= i < verifies.len() && (#[trigger] verifies[i]) is Some
                    && verifies[i]->0.queue_id@ == id;
            if i < rest.len() {
                assert(rest[i] is Some);
            }
        }
    }
}

/// A batch cannot be normalized exactly if some document cannot, and the problem
/// of the first such document is the one that is named.
pub proof fn the_first_bad_document_is_named(docs: Seq<Document>, i: int)
    ensures
        (forall|k: int|
            0 <= k < docs.len() ==> functions::stored_metadata(
                functions::metadata_members((#[trigger] docs[k]).metadata),
            ) is Ok) <==> normalize_error(docs) is None,
        0 <= i < docs.len() && functions::stored_metadata(
            functions::metadata_members(docs[i].metadata),
        ) is Err && (forall|k: int|
            0 <= k < i ==> functions::stored_metadata(
                functions::metadata_members((#[trigger] docs[k]).metadata),
            ) is Ok) ==> normalize_error(docs) == Some(
            functions::stored_metadata(functions::metadata_members(docs[i].metadata))->Err_0,
        ),
    decreases docs.len(),
{
    if docs.len() > 0 {
        let rest = docs.drop_first();
        assert(forall|k: int| 0 <= k < rest.len() ==> #[trigger] rest[k] == docs[k + 1]);
        if functions::stored_metadata(functions::metadata_members(docs[0].metadata)) is Ok {
            the_first_bad_document_is_named(rest, i - 1);
            if normalize_error(docs) is None {
                assert forall|k: int| 0 <= k < docs.len() implies functions::stored_metadata(
                    functions::metadata_members((#[trigger] docs[k]).metadata),
                ) is Ok by {
                    if k > 0 {
                        assert(rest[k - 1] == docs[k]);
                    }
                }
            }
            if 0 < i < docs.len() {
                assert(rest[i - 1] == docs[i]);
            }
        }
    }
}

/// The documents of a batch are of the declared types exactly if each is, and
/// the problem of the first that is not is the one that is named.
pub proof fn the_first_badly_typed_document_is_named(
    config: CollectionConfigInternal,
    docs: Seq<Document>,
    i: int,
)
    ensures
        (forall|k: int|
            0 <= k < docs.len() ==> encoder::first_violation(
                encoder::indexes_of(config),
                functions::metadata_members((#[trigger] docs[k]).metadata),
            ) is None) <==> type_error(config, docs) is None,
        0 <= i < docs.len() && encoder::first_violation(
            encoder::indexes_of(config),
            functions::metadata_members(docs[i].metadata),
        ) is Some && (forall|k: int|
            0 <= k < i ==> encoder::first_violation(
                encoder::indexes_of(config),
                functions::metadata_members((#[trigger] docs[k]).metadata),
            ) is None) ==> type_error(config, docs) == encoder::first_violation(
            encoder::indexes_of(config),
            functions::metadata_members(docs[i].metadata),
        ),
    decreases docs.len(),
{
    if docs.len() > 0 {
        let rest = docs.drop_first();
        assert(forall|k: int| 0 <= k < rest.len() ==> #[trigger] rest[k] == docs[k + 1]);
        if encoder::first_violation(
            encoder::indexes_of(config),
            functions::metadata_members(docs[0].metadata),
        ) is None {
            the_first_badly_typed_document_is_named(config, rest, i - 1);
            if type_error(config, docs) is None {
                assert forall|k: int| 0 <= k < docs.len() implies encoder::first_violation(
                    encoder::indexes_of(config),
                    functions::metadata_members((#[trigger] docs[k]).metadata),
                ) is None by {
                    if k > 0 {
                        assert(rest[k - 1] == docs[k]);
                    }
                }
            }
            if 0 < i < docs.len() {
                assert(rest[i - 1] == docs[i]);
            }
        }
    }
}

/// A batch that was queued for a collection with another id is refused, and one
/// queued for the collection, or not queued at all, is not.
pub proof fn other_collections_are_refused(
    verifies: Seq<Option<QueueVerify>>,
    config: CollectionConfigInternal,
    i: int,
)
    requires
        0 <= i < verifies.len(),
        verifies[i] is Some,
        forall|k: int| 0 <= k < i ==> (#[trigger] verifies[k]) is None,
    ensures
        wrong_collection(verifies, config) <==> verifies[i]->0.collection_id@
            != config.collection_id@,
{
    batches_are_expected_in_their_first_row(verifies, i);
}

/// After the rows are looked up, the documents whose row is gone are drained, in
/// order, and the others stay, in order. With all of them gone the run is over.
pub proof fn documents_without_their_row_are_drained(
    old: UpsertRun,
    still: Seq<Seq<char>>,
    new: UpsertRun,
    a: UpsertAction,
    i: int,
)
    requires
        UpsertRun::verifies_rows(old, still, new, a),
        old.verifies@.len() == old.documents@.len(),
        0 <= i < old.documents@.len(),
    ensures
        ({
            let v = old.verifies@[i];
            let gone = v is Some && !still.contains(v->0.queue_id@);
            &&& gone ==> text::views(new.drained@).contains(old.documents@[i].id@)
            &&& !gone ==> new.phase is Stored && !(a is Finish) && exists|k: int|
                0 <= k < new.documents@.len() && (#[trigger] new.documents@[k]).id@
                    == old.documents@[i].id@ && new.documents@[k].content
                    == old.documents@[i].content && new.documents@[k].metadata
                    == old.documents@[i].metadata && new.documents@[k].timestamp
                    == old.documents@[i].timestamp
        }),
        text::views(new.drained@).len() + (if a is Finish {
            0
        } else {
            new.documents@.len()
        }) == old.documents@.len(),
{
    let n = old.documents@.len() as int;
    let p = |i: int| !upsert::row_is_gone(old.verifies@, still, i);
    let q = |i: int| upsert::row_is_gone(old.verifies@, still, i);
    let kept = indices::picked(n, p);
    let gone = indices::picked(n, q);
    let remaining = Seq::new(kept.len(), |k: int| old.documents@[kept[k]]);
    indices::picked_is_exact(n, p);
    indices::picked_is_exact(n, q);
    lemma_picked_split(n, old.verifies@, still);
    if q(i) {
        assert(gone.contains(i));
        let k = choose|k: int| 0 <= k < gone.len() && gone[k] == i;
        assert(text::views(new.drained@)[k] == old.documents@[i].id@);
    } else {
        assert(kept.contains(i));
        let k = choose|k: int| 0 <= k < kept.len() && kept[k] == i;
        assert(remaining[k] == old.documents@[i]);
        assert(new.documents@[k].id@ == old.documents@[i].id@);
    }
}

proof fn lemma_picked_split(n: int, verifies: Seq<Option<QueueVerify>>, still: Seq<Seq<char>>)
    requires
        n >= 0,
    ensures
        indices::picked(n, |i: int| !upsert::row_is_gone(verifies, still, i)).len()
            + indices::picked(n, |i: int| upsert::row_is_gone(verifies, still, i)).len() == n,
    decreases n,
{
    if n > 0 {
        lemma_picked_split(n - 1, verifies, still);
    }
}

/// A run whose stored versions are known is over at once only if every document
/// is stale; the skipped ids are those of the stale documents.
pub proof fn only_stale_batches_end_at_once(
    old: UpsertRun,
    existing: Seq<Option<Document>>,
    new: UpsertRun,
    a: UpsertAction,
    i: int,
)
    requires
        UpsertRun::plans(old, existing, new, a),
        0 <= i < old.documents@.len(),
        existing.len() == old.documents@.len(),
    ensures
        a matches UpsertAction::Finish(Ok(_)) ==> text::views(new.skipped@).contains(
            old.documents@[i].id@,
        ) && (upsert::stored_version(old.documents@, existing, i) matches Some(s)
            && !s.timestamp.precedes(old.documents@[i].timestamp)),
        a matches UpsertAction::Patch(at) ==> at@.len() > 0 && at@ == new.plan.patched@,
        a is FetchStats ==> new.plan.vectorized@.len() > 0 && new.plan.patched@.len() == 0,
{
    let docs = old.documents@;
    let config = old.config->0;
    upsert::every_document_has_one_place(docs, existing, config, new.plan, i);
    upsert::only_stale_documents_are_skipped(docs, existing, config, new.plan, i);
    if a matches UpsertAction::Finish(Ok(_)) {
        assert(new.plan.patched@.len() == 0);
        assert(new.plan.vectorized@.len() == 0);
        let at = indices::positions(new.plan.skipped@);
        assert(at.contains(i));
        let k = choose|k: int| 0 <= k < at.len() && at[k] == i;
        assert(text::views(new.skipped@)[k] == docs[i].id@);
    }
}

/// Documents are looked up by their ids; the content is replaced by its hash
/// only where the collection does not store contents, and then the hash is
/// that of the content.
pub proof fn contents_are_hashed_where_they_are_not_stored(
    old: UpsertRun,
    new: UpsertRun,
    a: UpsertAction,
    i: int,
)
    requires
        UpsertRun::looks_up(old, new, a),
        0 <= i < old.documents@.len(),
    ensures
        new.documents@.len() == old.documents@.len(),
        old.config->0.store_content ==> new.documents@[i] == old.documents@[i],
        !old.config->0.store_content ==> (new.documents@[i].content_hash matches Some(h) && h@
            == functions::content_hash_of(old.documents@[i].content)) && new.documents@[i].id
            == old.documents@[i].id && new.documents@[i].metadata == old.documents@[i].metadata
            && new.documents@[i].tags == old.documents@[i].tags && new.documents@[i].name
            == old.documents@[i].name,
        a matches UpsertAction::FetchStored(ids) && ids@.len() == old.documents@.len() && ids@[i]@
            == old.documents@[i].id@,
{
    if !old.config->0.store_content {
        assert(all_hashed(old.documents@, new.documents@));
        let d = new.documents@[i];
        assert(d == (Document { content_hash: d.content_hash, ..old.documents@[i] }));
    }
    if let UpsertAction::FetchStored(ids) = a {
        assert(text::views(ids@).len() == ids@.len());
        assert(text::views(ids@)[i] == ids@[i]@);
    }
}

} // verus!
