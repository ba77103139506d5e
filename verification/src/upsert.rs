//! The plan of a bulk upsert: in which order documents are locked, which of
//! them are applied, how, and what that does to the collection's statistics.

use vstd::prelude::*;
use crate::encoder;
use crate::encoder::{needs_revectorization, QueueVerify, TokenLengthUpdate};
use crate::indices;
use crate::models::{CollectionConfigInternal, Document};
use crate::ranking;
use crate::ranking::{sort_ranked, Ranked, RankedText};
use crate::text;
use crate::text::{same_text, text_in};

verus! {

/// Whether texts stand in strictly ascending order, so that none occurs twice.
pub open spec fn strictly_ascending(s: Seq<Seq<char>>) -> bool {
    forall|i: int, j: int|
        #![trigger s[i], s[j]]
        0 <= i < j < s.len() ==> text::text_precedes(s[i], s[j])
}

/// The ids of documents.
pub open spec fn document_ids(docs: Seq<Document>) -> Seq<Seq<char>> {
    Seq::new(docs.len(), |i: int| docs[i].id@)
}

/// The order in which the documents of a batch are locked: their ids, each
/// once, in ascending order.
pub fn lock_order(documents: &Vec<Document>) -> (r: Vec<String>)
    ensures
        strictly_ascending(text::views(r@)),
        forall|id: Seq<char>| #[trigger]
            text::views(r@).contains(id) <==> document_ids(documents@).contains(id),
{
    let mut ids: Vec<RankedText> = Vec::new();
    let mut i: usize = 0;
    while i < documents.len()
        invariant
            i <= documents@.len(),
            ids@.len() == i,
            forall|k: int| 0 <= k < i ==> (#[trigger] ids@[k]).text@ == documents@[k].id@,
        decreases documents.len() - i,
    {
        ids.push(RankedText { text: documents[i].id.clone() });
        i += 1;
    }
    let ghost unsorted = ids@;
    let sorted = sort_ranked(ids);
    proof {
        ranking::same_elements(sorted@, unsorted);
    }
    let mut out: Vec<String> = Vec::new();
    let mut j: usize = 0;
    while j < sorted.len()
        invariant
            j <= sorted@.len(),
            ranking::in_rank_order(sorted@),
            out@.len() <= j,
            j > 0 ==> out@.len() > 0 && out@.last()@ == sorted@[j - 1].text@,
            strictly_ascending(text::views(out@)),
            forall|k: int|
                0 <= k < out@.len() ==> exists|m: int|
                    0 <= m < j && (#[trigger] sorted@[m]).text@ == (#[trigger] out@[k])@,
            forall|m: int|
                0 <= m < j ==> text::views(out@).contains((#[trigger] sorted@[m]).text@),
        decreases sorted.len() - j,
    {
        let fresh = out.len() == 0 || !same_text(
            out[out.len() - 1].as_str(),
            sorted[j].text.as_str(),
        );
        let ghost before = out@;
        if fresh {
            out.push(sorted[j].text.clone());
            proof {
                assert(text::views(out@) =~= text::views(before).push(sorted@[j as int].text@));
                assert forall|a: int, b: int|
                    #![trigger text::views(out@)[a], text::views(out@)[b]]
                    0 <= a < b < out@.len() implies text::text_precedes(
                    text::views(out@)[a],
                    text::views(out@)[b],
                ) by {
                    if b == before.len() {
                        let last = before.last()@;
                        let next = sorted@[j as int].text@;
                        assert(!sorted@[j as int].precedes(&sorted@[j - 1]));
                        text::text_precedes_total(last, next);
                        if a < before.len() - 1 {
                            assert(text::text_precedes(
                                text::views(before)[a],
                                text::views(before)[before.len() - 1],
                            ));
                            text::text_precedes_transitive(before[a]@, last, next);
                        }
                    } else {
                        assert(text::text_precedes(
                            text::views(before)[a],
                            text::views(before)[b],
                        ));
                    }
                }
            }
        }
        proof {
            assert forall|k: int| 0 <= k < out@.len() implies exists|m: int|
                0 <= m < j + 1 && (#[trigger] sorted@[m]).text@ == (#[trigger] out@[k])@ by {
                if k < before.len() {
                    assert(out@[k] == before[k]);
                    let m = choose|m: int| 0 <= m < j && (#[trigger] sorted@[m]).text@ == before[k]@;
                    assert(sorted@[m].text@ == out@[k]@);
                } else {
                    assert(sorted@[j as int].text@ == out@[k]@);
                }
            }
            assert forall|m: int| 0 <= m < j + 1 implies text::views(out@).contains(
                (#[trigger] sorted@[m]).text@,
            ) by {
                if m < j {
                    let k = choose|k: int|
                        0 <= k < before.len() && text::views(before)[k] == sorted@[m].text@;
                    assert(text::views(out@)[k] == sorted@[m].text@);
                } else {
                    assert(text::views(out@)[out@.len() - 1] == sorted@[m].text@);
                }
            }
        }
        j += 1;
    }
    proof {
        let ids_seq = document_ids(documents@);
        assert forall|id: Seq<char>| #[trigger] text::views(out@).contains(id) <==> ids_seq.contains(
            id,
        ) by {
            if text::views(out@).contains(id) {
                let k = choose|k: int| 0 <= k < out@.len() && text::views(out@)[k] == id;
                assert(out@[k]@ == id);
                let m = choose|m: int|
                    0 <= m < sorted@.len() && (#[trigger] sorted@[m]).text@ == out@[k]@;
                assert(unsorted.contains(sorted@[m]));
                let u = choose|u: int| 0 <= u < unsorted.len() && unsorted[u] == sorted@[m];
                assert(ids_seq[u] == id);
            }
            if ids_seq.contains(id) {
                let u = choose|u: int| 0 <= u < ids_seq.len() && ids_seq[u] == id;
                assert(unsorted[u].text@ == id);
                assert(sorted@.contains(unsorted[u]));
                let m = choose|m: int| 0 <= m < sorted@.len() && sorted@[m] == unsorted[u];
                assert(text::views(out@).contains(sorted@[m].text@));
            }
        }
    }
    out
}

/// Whether the queue row behind a document is gone.
pub open spec fn row_is_gone(
    verifies: Seq<Option<QueueVerify>>,
    still: Seq<Seq<char>>,
    i: int,
) -> bool {
    0 <= i < verifies.len() && (verifies[i] matches Some(q) && !still.contains(q.queue_id@))
}

/// Splits the positions of a batch's documents: those to go on with, and those
/// whose queue rows were removed meanwhile, which must not be applied.
pub fn split_drained(
    n: usize,
    verifies: &Vec<Option<QueueVerify>>,
    still: &Vec<String>,
) -> (r: (Vec<usize>, Vec<usize>))
    ensures
        indices::positions(r.0@) == indices::picked(
            n as int,
            |i: int| !row_is_gone(verifies@, text::views(still@), i),
        ),
        indices::positions(r.1@) == indices::picked(
            n as int,
            |i: int| row_is_gone(verifies@, text::views(still@), i),
        ),
{
    let mut kept: Vec<usize> = Vec::new();
    let mut drained: Vec<usize> = Vec::new();
    let mut i: usize = 0;
    let ghost keeps = |i: int| !row_is_gone(verifies@, text::views(still@), i);
    let ghost gone = |i: int| row_is_gone(verifies@, text::views(still@), i);
    assert(indices::positions(kept@) =~= indices::picked(0, keeps));
    assert(indices::positions(drained@) =~= indices::picked(0, gone));
    while i < n
        invariant
            i <= n,
            keeps == (|i: int| !row_is_gone(verifies@, text::views(still@), i)),
            gone == (|i: int| row_is_gone(verifies@, text::views(still@), i)),
            indices::positions(kept@) == indices::picked(i as int, keeps),
            indices::positions(drained@) == indices::picked(i as int, gone),
        decreases n - i,
    {
        let missing = if i < verifies.len() {
            match &verifies[i] {
                Some(q) => !text_in(still, q.queue_id.as_str()),
                None => false,
            }
        } else {
            false
        };
        assert(missing == row_is_gone(verifies@, text::views(still@), i as int));
        let ghost k0 = kept@;
        let ghost d0 = drained@;
        if missing {
            drained.push(i);
            assert(indices::positions(drained@) =~= indices::positions(d0).push(i as int));
        } else {
            kept.push(i);
            assert(indices::positions(kept@) =~= indices::positions(k0).push(i as int));
        }
        i += 1;
    }
    (kept, drained)
}

/// No document is lost or applied twice when a batch is split: each position
/// is kept or drained, and never both.
pub proof fn kept_and_drained_partition_the_batch(
    n: int,
    verifies: Seq<Option<QueueVerify>>,
    still: Seq<Seq<char>>,
    i: int,
)
    requires
        0 <= i < n,
    ensures
        indices::picked(n, |i: int| !row_is_gone(verifies, still, i)).contains(i)
            <==> !indices::picked(n, |i: int| row_is_gone(verifies, still, i)).contains(i),
{
    indices::picked_is_exact(n, |i: int| !row_is_gone(verifies, still, i));
    indices::picked_is_exact(n, |i: int| row_is_gone(verifies, still, i));
}

/// The last position below `n` at which a stored version of the document was
/// found, or -1.
pub open spec fn stored_position(
    ids: Seq<Seq<char>>,
    existing: Seq<Option<Document>>,
    id: Seq<char>,
    n: int,
) -> int
    decreases n,
{
    if n <= 0 {
        -1
    } else if ids[n - 1] == id && existing[n - 1] is Some {
        n - 1
    } else {
        stored_position(ids, existing, id, n - 1)
    }
}

/// What happens to a document of a batch.
#[derive(Debug, Clone, Copy, PartialEq, Eq, Structural)]
pub enum Fate {
    /// The stored version is at least as new.
    Stale,
    /// Only payload changed.
    Patch,
    /// Stored already, but its vectors must be computed anew.
    Revectorize,
    /// Not stored yet.
    New,
}

/// The fate of a document, given the stored version found for its id.
pub open spec fn fate(
    doc: Document,
    stored: Option<Document>,
    config: CollectionConfigInternal,
) -> Fate {
    match stored {
        None => Fate::New,
        Some(old) => if !old.timestamp.precedes(doc.timestamp) {
            Fate::Stale
        } else if encoder::must_revectorize(doc, old, config) {
            Fate::Revectorize
        } else {
            Fate::Patch
        },
    }
}

/// The stored version found for the document at position `i`.
pub open spec fn stored_version(
    docs: Seq<Document>,
    existing: Seq<Option<Document>>,
    i: int,
) -> Option<Document> {
    let j = stored_position(document_ids(docs), existing, docs[i].id@, docs.len() as int);
    if j >= 0 {
        existing[j]
    } else {
        None
    }
}

/// The fate of the document at position `i` of a batch.
pub open spec fn fate_at(
    docs: Seq<Document>,
    existing: Seq<Option<Document>>,
    config: CollectionConfigInternal,
    i: int,
) -> Fate {
    fate(docs[i], stored_version(docs, existing, i), config)
}

/// The positions of a batch's documents by fate. `is_new` runs parallel to
/// `vectorized`.
#[derive(Debug, PartialEq, Eq)]
pub struct UpsertPlan {
    pub skipped: Vec<usize>,
    pub patched: Vec<usize>,
    pub vectorized: Vec<usize>,
    pub is_new: Vec<bool>,
}

/// Whether a plan puts every document where its fate says.
pub open spec fn plan_matches(
    docs: Seq<Document>,
    existing: Seq<Option<Document>>,
    config: CollectionConfigInternal,
    plan: UpsertPlan,
) -> bool {
    let n = docs.len() as int;
    &&& indices::positions(plan.skipped@) == indices::picked(
        n,
        |i: int| fate_at(docs, existing, config, i) is Stale,
    )
    &&& indices::positions(plan.patched@) == indices::picked(
        n,
        |i: int| fate_at(docs, existing, config, i) is Patch,
    )
    &&& indices::positions(plan.vectorized@) == indices::picked(
        n,
        |i: int|
            fate_at(docs, existing, config, i) is New || fate_at(
                docs,
                existing,
                config,
                i,
            ) is Revectorize,
    )
    &&& plan.is_new@ == Seq::new(
        plan.vectorized@.len(),
        |k: int| fate_at(docs, existing, config, plan.vectorized@[k] as int) is New,
    )
}

fn find_stored<'a>(
    documents: &Vec<Document>,
    existing: &'a Vec<Option<Document>>,
    id: &str,
) -> (r: Option<&'a Document>)
    requires
        existing@.len() == documents@.len(),
    ensures
        ({
            let j = stored_position(
                document_ids(documents@),
                existing@,
                id@,
                documents@.len() as int,
            );
            match r {
                Some(d) => 0 <= j < existing@.len() && existing@[j] == Some(*d),
                None => j == -1,
            }
        }),
{
    let mut n: usize = documents.len();
    let ghost ids = document_ids(documents@);
    while n > 0
        invariant
            n <= documents@.len(),
            existing@.len() == documents@.len(),
            ids == document_ids(documents@),
            stored_position(ids, existing@, id@, documents@.len() as int) == stored_position(
                ids,
                existing@,
                id@,
                n as int,
            ),
        decreases n,
    {
        assert(ids[n - 1] == documents@[n - 1].id@);
        if same_text(documents[n - 1].id.as_str(), id) {
            if let Some(d) = &existing[n - 1] {
                return Some(d);
            }
        }
        n -= 1;
    }
    None
}

/// The fate of a document, given the stored version found for its id.
pub fn document_fate(
    doc: &Document,
    stored: Option<&Document>,
    config: &CollectionConfigInternal,
) -> (r: Fate)
    ensures
        r == fate(
            *doc,
            match stored {
                Some(d) => Some(*d),
                None => None,
            },
            *config,
        ),
{
    match stored {
        None => Fate::New,
        Some(old) => if !old.timestamp.before(&doc.timestamp) {
            Fate::Stale
        } else if needs_revectorization(doc, old, config) {
            Fate::Revectorize
        } else {
            Fate::Patch
        },
    }
}

/// Sorts the documents of a batch by what has to be done with them. `existing`
/// holds, parallel to the documents, what is stored under their ids.
pub fn partition_documents(
    documents: &Vec<Document>,
    existing: &Vec<Option<Document>>,
    config: &CollectionConfigInternal,
) -> (r: UpsertPlan)
    requires
        existing@.len() == documents@.len(),
    ensures
        plan_matches(documents@, existing@, *config, r),
{
    let ghost docs = documents@;
    let ghost old = existing@;
    let ghost cfg = *config;
    let mut skipped: Vec<usize> = Vec::new();
    let mut patched: Vec<usize> = Vec::new();
    let mut vectorized: Vec<usize> = Vec::new();
    let mut is_new: Vec<bool> = Vec::new();
    let ghost stale = |i: int| fate_at(docs, old, cfg, i) is Stale;
    let ghost patch = |i: int| fate_at(docs, old, cfg, i) is Patch;
    let ghost vector = |i: int|
        fate_at(docs, old, cfg, i) is New || fate_at(docs, old, cfg, i) is Revectorize;
    assert(indices::positions(skipped@) =~= indices::picked(0, stale));
    assert(indices::positions(patched@) =~= indices::picked(0, patch));
    assert(indices::positions(vectorized@) =~= indices::picked(0, vector));
    let mut i: usize = 0;
    while i < documents.len()
        invariant
            i <= documents@.len(),
            existing@.len() == documents@.len(),
            docs == documents@,
            old == existing@,
            cfg == *config,
            stale == (|i: int| fate_at(docs, old, cfg, i) is Stale),
            patch == (|i: int| fate_at(docs, old, cfg, i) is Patch),
            vector == (|i: int|
                fate_at(docs, old, cfg, i) is New || fate_at(docs, old, cfg, i) is Revectorize),
            indices::positions(skipped@) == indices::picked(i as int, stale),
            indices::positions(patched@) == indices::picked(i as int, patch),
            indices::positions(vectorized@) == indices::picked(i as int, vector),
            is_new@.len() == vectorized@.len(),
            forall|k: int|
                0 <= k < is_new@.len() ==> #[trigger] is_new@[k] == (fate_at(
                    docs,
                    old,
                    cfg,
                    vectorized@[k] as int,
                ) is New),
        decreases documents.len() - i,
    {
        let stored = find_stored(documents, existing, documents[i].id.as_str());
        let what = document_fate(&documents[i], stored, config);
        assert(what == fate_at(docs, old, cfg, i as int));
        let ghost s0 = skipped@;
        let ghost p0 = patched@;
        let ghost v0 = vectorized@;
        match what {
            Fate::Stale => {
                skipped.push(i);
                assert(indices::positions(skipped@) =~= indices::positions(s0).push(i as int));
            },
            Fate::Patch => {
                patched.push(i);
                assert(indices::positions(patched@) =~= indices::positions(p0).push(i as int));
            },
            Fate::Revectorize => {
                vectorized.push(i);
                is_new.push(false);
                assert(indices::positions(vectorized@) =~= indices::positions(v0).push(i as int));
            },
            Fate::New => {
                vectorized.push(i);
                is_new.push(true);
                assert(indices::positions(vectorized@) =~= indices::positions(v0).push(i as int));
            },
        }
        i += 1;
    }
    let plan = UpsertPlan { skipped, patched, vectorized, is_new };
    assert(plan.is_new@ =~= Seq::new(
        plan.vectorized@.len(),
        |k: int| fate_at(docs, old, cfg, plan.vectorized@[k] as int) is New,
    ));
    plan
}

/// Every document of a batch is skipped, patched or vectorized, and only one
/// of these.
pub proof fn every_document_has_one_place(
    docs: Seq<Document>,
    existing: Seq<Option<Document>>,
    config: CollectionConfigInternal,
    plan: UpsertPlan,
    i: int,
)
    requires
        plan_matches(docs, existing, config, plan),
        0 <= i < docs.len(),
    ensures
        indices::positions(plan.skipped@).contains(i) || indices::positions(
            plan.patched@,
        ).contains(i) || indices::positions(plan.vectorized@).contains(i),
        !(indices::positions(plan.skipped@).contains(i) && indices::positions(
            plan.patched@,
        ).contains(i)),
        !(indices::positions(plan.skipped@).contains(i) && indices::positions(
            plan.vectorized@,
        ).contains(i)),
        !(indices::positions(plan.patched@).contains(i) && indices::positions(
            plan.vectorized@,
        ).contains(i)),
{
    let n = docs.len() as int;
    indices::picked_is_exact(n, |i: int| fate_at(docs, existing, config, i) is Stale);
    indices::picked_is_exact(n, |i: int| fate_at(docs, existing, config, i) is Patch);
    indices::picked_is_exact(
        n,
        |i: int|
            fate_at(docs, existing, config, i) is New || fate_at(
                docs,
                existing,
                config,
                i,
            ) is Revectorize,
    );
}

/// A document is skipped exactly when a version at least as new is stored.
pub proof fn only_stale_documents_are_skipped(
    docs: Seq<Document>,
    existing: Seq<Option<Document>>,
    config: CollectionConfigInternal,
    plan: UpsertPlan,
    i: int,
)
    requires
        plan_matches(docs, existing, config, plan),
        0 <= i < docs.len(),
    ensures
        indices::positions(plan.skipped@).contains(i) <==> (stored_version(docs, existing, i)
            matches Some(old) && !old.timestamp.precedes(docs[i].timestamp)),
{
    indices::picked_is_exact(
        docs.len() as int,
        |i: int| fate_at(docs, existing, config, i) is Stale,
    );
}

/// The token length of one field of one vectorized document, with the length
/// that the stored version had; zero where there was none.
#[derive(Debug, PartialEq, Eq)]
pub struct TokenSample {
    pub name: String,
    pub length: usize,
    pub is_new: bool,
    pub old_length: usize,
}

/// The length listed under a name; zero where there is none.
pub open spec fn listed_length(lengths: Seq<(String, usize)>, name: Seq<char>) -> usize
    decreases lengths.len(),
{
    if lengths.len() == 0 {
        0
    } else if lengths[0].0@ == name {
        lengths[0].1
    } else {
        listed_length(lengths.drop_first(), name)
    }
}

fn find_length(lengths: &Vec<(String, usize)>, name: &str) -> (r: usize)
    ensures
        r == listed_length(lengths@, name@),
{
    let mut i: usize = 0;
    assert(lengths@.skip(0) =~= lengths@);
    while i < lengths.len()
        invariant
            i <= lengths@.len(),
            listed_length(lengths@, name@) == listed_length(lengths@.skip(i as int), name@),
        decreases lengths.len() - i,
    {
        assert(lengths@.skip(i as int)[0] == lengths@[i as int]);
        assert(lengths@.skip(i as int).drop_first() =~= lengths@.skip(i as int + 1));
        if same_text(lengths[i].0.as_str(), name) {
            return lengths[i].1;
        }
        i += 1;
    }
    0
}

/// What a sample says, as mathematical values.
pub ghost struct Sample {
    pub name: Seq<char>,
    pub length: nat,
    pub is_new: bool,
    pub old_length: nat,
}

pub open spec fn sample_view(s: TokenSample) -> Sample {
    Sample {
        name: s.name@,
        length: s.length as nat,
        is_new: s.is_new,
        old_length: s.old_length as nat,
    }
}

pub open spec fn sample_views(v: Seq<TokenSample>) -> Seq<Sample> {
    Seq::new(v.len(), |i: int| sample_view(v[i]))
}

/// The samples of one vectorized document, in the order of its length list.
pub open spec fn document_sample_views(
    lengths: Seq<(String, usize)>,
    is_new: bool,
    old_lengths: Seq<(String, usize)>,
) -> Seq<Sample> {
    Seq::new(
        lengths.len(),
        |i: int|
            Sample {
                name: lengths[i].0@,
                length: lengths[i].1 as nat,
                is_new,
                old_length: if is_new {
                    0
                } else {
                    listed_length(old_lengths, lengths[i].0@) as nat
                },
            },
    )
}

/// The samples of one vectorized document, in the order of its length list.
pub fn document_samples(
    lengths: &Vec<(String, usize)>,
    is_new: bool,
    old_lengths: &Vec<(String, usize)>,
) -> (r: Vec<TokenSample>)
    ensures
        sample_views(r@) == document_sample_views(lengths@, is_new, old_lengths@),
{
    let mut out: Vec<TokenSample> = Vec::new();
    let mut i: usize = 0;
    let ghost goal = document_sample_views(lengths@, is_new, old_lengths@);
    while i < lengths.len()
        invariant
            i <= lengths@.len(),
            out@.len() == i,
            goal == document_sample_views(lengths@, is_new, old_lengths@),
            forall|k: int| 0 <= k < i ==> sample_view(#[trigger] out@[k]) == goal[k],
        decreases lengths.len() - i,
    {
        let old_length = if is_new {
            0
        } else {
            find_length(old_lengths, lengths[i].0.as_str())
        };
        out.push(
            TokenSample {
                name: lengths[i].0.clone(),
                length: lengths[i].1,
                is_new,
                old_length,
            },
        );
        i += 1;
    }
    assert(sample_views(out@) =~= goal);
    out
}

/// The length list of a stored version; nothing where there is none.
pub open spec fn lengths_of(stored: Option<Document>) -> Seq<(String, usize)> {
    match stored {
        Some(d) => d.token_lengths@,
        None => Seq::empty(),
    }
}

/// The samples of the first `n` vectorized documents, one document after the
/// other. `lengths` runs parallel to the plan's vectorized positions.
pub open spec fn batch_sample_views(
    docs: Seq<Document>,
    existing: Seq<Option<Document>>,
    plan: UpsertPlan,
    lengths: Seq<Vec<(String, usize)>>,
    n: int,
) -> Seq<Sample>
    decreases n,
{
    if n <= 0 {
        Seq::empty()
    } else {
        batch_sample_views(docs, existing, plan, lengths, n - 1) + document_sample_views(
            lengths[n - 1]@,
            plan.is_new@[n - 1],
            lengths_of(stored_version(docs, existing, plan.vectorized@[n - 1] as int)),
        )
    }
}

/// The samples of all vectorized documents of a batch.
pub fn batch_samples(
    documents: &Vec<Document>,
    existing: &Vec<Option<Document>>,
    plan: &UpsertPlan,
    lengths: &Vec<Vec<(String, usize)>>,
) -> (r: Vec<TokenSample>)
    requires
        existing@.len() == documents@.len(),
        plan.vectorized@.len() == lengths@.len(),
        plan.is_new@.len() == lengths@.len(),
        forall|k: int|
            0 <= k < plan.vectorized@.len() ==> (#[trigger] plan.vectorized@[k])
                < documents@.len(),
    ensures
        sample_views(r@) == batch_sample_views(
            documents@,
            existing@,
            *plan,
            lengths@,
            lengths@.len() as int,
        ),
{
    let none: Vec<(String, usize)> = Vec::new();
    let mut out: Vec<TokenSample> = Vec::new();
    let mut n: usize = 0;
    assert(sample_views(out@) =~= Seq::<Sample>::empty());
    while n < lengths.len()
        invariant
            n <= lengths@.len(),
            existing@.len() == documents@.len(),
            plan.vectorized@.len() == lengths@.len(),
            plan.is_new@.len() == lengths@.len(),
            none@.len() == 0,
            forall|k: int|
                0 <= k < plan.vectorized@.len() ==> (#[trigger] plan.vectorized@[k])
                    < documents@.len(),
            sample_views(out@) == batch_sample_views(
                documents@,
                existing@,
                *plan,
                lengths@,
                n as int,
            ),
        decreases lengths.len() - n,
    {
        let p = plan.vectorized[n];
        let old = match find_stored(documents, existing, documents[p].id.as_str()) {
            Some(d) => &d.token_lengths,
            None => &none,
        };
        assert(old@ =~= lengths_of(stored_version(documents@, existing@, p as int)));
        let mut next = document_samples(&lengths[n], plan.is_new[n], old);
        let ghost before = out@;
        let ghost added = next@;
        out.append(&mut next);
        assert(sample_views(out@) =~= sample_views(before) + sample_views(added));
        n += 1;
    }
    out
}

/// The token lengths of new documents under a name, summed.
pub open spec fn new_sum(samples: Seq<Sample>, name: Seq<char>) -> int
    decreases samples.len(),
{
    if samples.len() == 0 {
        0
    } else {
        new_sum(samples.drop_last(), name) + if samples.last().name == name
            && samples.last().is_new {
            samples.last().length as int
        } else {
            0
        }
    }
}

/// The token lengths of updated documents under a name, summed.
pub open spec fn updated_sum(samples: Seq<Sample>, name: Seq<char>) -> int
    decreases samples.len(),
{
    if samples.len() == 0 {
        0
    } else {
        updated_sum(samples.drop_last(), name) + if samples.last().name == name
            && !samples.last().is_new {
            samples.last().length as int
        } else {
            0
        }
    }
}

/// The token lengths that updated documents had before, summed.
pub open spec fn old_sum(samples: Seq<Sample>, name: Seq<char>) -> int
    decreases samples.len(),
{
    if samples.len() == 0 {
        0
    } else {
        old_sum(samples.drop_last(), name) + if samples.last().name == name
            && !samples.last().is_new {
            samples.last().old_length as int
        } else {
            0
        }
    }
}

/// All lengths of all samples, old and new, summed.
pub open spec fn total_length(samples: Seq<Sample>) -> int
    decreases samples.len(),
{
    if samples.len() == 0 {
        0
    } else {
        total_length(samples.drop_last()) + samples.last().length + samples.last().old_length
    }
}

proof fn lemma_sums_bounded(samples: Seq<Sample>, name: Seq<char>)
    ensures
        0 <= new_sum(samples, name),
        0 <= updated_sum(samples, name),
        0 <= old_sum(samples, name),
        new_sum(samples, name) + updated_sum(samples, name) + old_sum(samples, name)
            <= total_length(samples),
    decreases samples.len(),
{
    if samples.len() > 0 {
        lemma_sums_bounded(samples.drop_last(), name);
    }
}

proof fn lemma_total_grows(samples: Seq<Sample>, n: int)
    requires
        0 <= n <= samples.len(),
    ensures
        total_length(samples.take(n)) <= total_length(samples),
    decreases samples.len() - n,
{
    if n < samples.len() {
        assert(samples.take(n + 1).drop_last() =~= samples.take(n));
        lemma_total_grows(samples, n + 1);
    } else {
        assert(samples.take(n) =~= samples);
    }
}

/// Whether one of the samples has the name.
pub open spec fn sampled(samples: Seq<Sample>, name: Seq<char>) -> bool {
    exists|i: int| 0 <= i < samples.len() && (#[trigger] samples[i]).name == name
}

/// Whether `u` holds the sums of the samples under a name.
pub open spec fn sums_under(
    samples: Seq<Sample>,
    name: Seq<char>,
    new_docs: i64,
    updated_docs: i64,
    u: TokenLengthUpdate,
) -> bool {
    &&& u.new_doc_count == new_docs
    &&& u.update_doc_count == updated_docs
    &&& u.new_sum_token_lengths == new_sum(samples, name)
    &&& u.update_sum_token_lengths == updated_sum(samples, name)
    &&& u.old_sum_token_lengths == old_sum(samples, name)
}

/// Whether no two entries have the same name.
pub open spec fn names_distinct<T>(entries: Seq<(String, T)>) -> bool {
    forall|i: int, j: int|
        #![trigger entries[i], entries[j]]
        0 <= i < j < entries.len() ==> entries[i].0@ != entries[j].0@
}

/// Whether one of the entries has the name.
pub open spec fn names_contain<T>(entries: Seq<(String, T)>, name: Seq<char>) -> bool {
    exists|i: int| 0 <= i < entries.len() && (#[trigger] entries[i]).0@ == name
}

/// Sums the samples of a batch by name. The document counts are those of the
/// whole batch, the same under every name.
pub fn sum_samples(samples: &Vec<TokenSample>, new_docs: i64, updated_docs: i64) -> (r: Vec<
    (String, TokenLengthUpdate),
>)
    requires
        total_length(sample_views(samples@)) <= i64::MAX,
    ensures
        names_distinct(r@),
        forall|name: Seq<char>| #[trigger]
            names_contain(r@, name) <==> sampled(sample_views(samples@), name),
        forall|i: int|
            0 <= i < r@.len() ==> sums_under(
                sample_views(samples@),
                (#[trigger] r@[i]).0@,
                new_docs,
                updated_docs,
                r@[i].1,
            ),
{
    let mut out: Vec<(String, TokenLengthUpdate)> = Vec::new();
    let mut n: usize = 0;
    assert(sample_views(samples@).take(0) =~= Seq::<Sample>::empty());
    while n < samples.len()
        invariant
            n <= samples@.len(),
            total_length(sample_views(samples@)) <= i64::MAX,
            names_distinct(out@),
            forall|name: Seq<char>| #[trigger]
                names_contain(out@, name) <==> sampled(sample_views(samples@).take(n as int), name),
            forall|i: int|
                0 <= i < out@.len() ==> sums_under(
                    sample_views(samples@).take(n as int),
                    (#[trigger] out@[i]).0@,
                    new_docs,
                    updated_docs,
                    out@[i].1,
                ),
        decreases samples.len() - n,
    {
        let sample = &samples[n];
        let ghost seen = sample_views(samples@).take(n as int);
        let ghost next = sample_views(samples@).take(n as int + 1);
        let ghost before = out@;
        proof {
            assert(next.drop_last() =~= seen);
            assert(next.last() == sample_view(*sample));
            lemma_total_grows(sample_views(samples@), n as int + 1);
            lemma_sums_bounded(next, sample.name@);
            lemma_sums_bounded(seen, sample.name@);
        }
        let mut at: usize = 0;
        while at < out.len() && !same_text(out[at].0.as_str(), sample.name.as_str())
            invariant
                at <= out@.len(),
                forall|k: int| 0 <= k < at ==> (#[trigger] out@[k]).0@ != sample.name@,
            decreases out.len() - at,
        {
            at += 1;
        }
        if at == out.len() {
            proof {
                assert(!names_contain(before, sample.name@));
                lemma_unsampled(seen, sample.name@);
            }
            out.push(
                (
                    sample.name.clone(),
                    TokenLengthUpdate {
                        new_doc_count: new_docs,
                        new_sum_token_lengths: 0,
                        update_doc_count: updated_docs,
                        update_sum_token_lengths: 0,
                        old_sum_token_lengths: 0,
                    },
                ),
            );
        }
        let mut u: TokenLengthUpdate = out[at].1;
        assert(sums_under(seen, sample.name@, new_docs, updated_docs, u));
        if sample.is_new {
            u.new_sum_token_lengths = u.new_sum_token_lengths + sample.length as i64;
        } else {
            u.update_sum_token_lengths = u.update_sum_token_lengths + sample.length as i64;
            u.old_sum_token_lengths = u.old_sum_token_lengths + sample.old_length as i64;
        }
        let name = sample.name.clone();
        out.set(at, (name, u));
        proof {
            assert forall|i: int| 0 <= i < out@.len() implies sums_under(
                next,
                (#[trigger] out@[i]).0@,
                new_docs,
                updated_docs,
                out@[i].1,
            ) by {
                if i != at {
                    assert(out@[i] == before[i]);
                    assert(out@[i].0@ != sample.name@) by {
                        if i > at {
                            assert(before[at as int].0@ == sample.name@);
                        }
                    }
                }
            }
            assert forall|name: Seq<char>| #[trigger] names_contain(out@, name) <==> sampled(
                next,
                name,
            ) by {
                if names_contain(out@, name) {
                    let i = choose|i: int| 0 <= i < out@.len() && (#[trigger] out@[i]).0@ == name;
                    if i < before.len() && i != at {
                        assert(before[i].0@ == name);
                        assert(names_contain(before, name));
                        let k = choose|k: int| 0 <= k < seen.len() && (#[trigger] seen[k]).name
                            == name;
                        assert(next[k].name == name);
                    } else {
                        assert(next[n as int].name == name);
                    }
                }
                if sampled(next, name) {
                    let k = choose|k: int| 0 <= k < next.len() && (#[trigger] next[k]).name
                        == name;
                    if name == sample.name@ {
                        assert(out@[at as int].0@ == name);
                    } else {
                        assert(k < n);
                        assert(seen[k].name == name);
                        assert(sampled(seen, name));
                        assert(names_contain(before, name));
                        let i = choose|i: int| 0 <= i < before.len() && (#[trigger] before[i]).0@
                            == name;
                        assert(out@[i].0@ == name);
                    }
                }
            }
        }
        n += 1;
    }
    assert(sample_views(samples@).take(n as int) =~= sample_views(samples@));
    out
}

proof fn lemma_unsampled(samples: Seq<Sample>, name: Seq<char>)
    requires
        !sampled(samples, name),
    ensures
        new_sum(samples, name) == 0,
        updated_sum(samples, name) == 0,
        old_sum(samples, name) == 0,
    decreases samples.len(),
{
    if samples.len() > 0 {
        assert(samples[samples.len() - 1].name != name);
        assert(!sampled(samples.drop_last(), name)) by {
            if sampled(samples.drop_last(), name) {
                let i = choose|i: int|
                    0 <= i < samples.drop_last().len() && (#[trigger] samples.drop_last()[i]).name
                        == name;
                assert(samples[i].name == name);
            }
        }
        lemma_unsampled(samples.drop_last(), name);
    }
}

/// The statistics change of deleting a document: one document fewer, and its
/// token lengths taken back.
pub fn deletion_updates(token_lengths: &Vec<(String, usize)>) -> (r: Vec<
    (String, TokenLengthUpdate),
>)
    requires
        forall|i: int| 0 <= i < token_lengths@.len() ==> (#[trigger] token_lengths@[i]).1
            <= i64::MAX,
    ensures
        r@.len() == token_lengths@.len(),
        forall|i: int|
            0 <= i < r@.len() ==> (#[trigger] r@[i]).0@ == token_lengths@[i].0@ && r@[i].1 == (
            TokenLengthUpdate {
                new_doc_count: (-1int) as i64,
                new_sum_token_lengths: (-(token_lengths@[i].1 as int)) as i64,
                update_doc_count: 0,
                update_sum_token_lengths: 0,
                old_sum_token_lengths: 0,
            }),
{
    let mut out: Vec<(String, TokenLengthUpdate)> = Vec::new();
    let mut i: usize = 0;
    while i < token_lengths.len()
        invariant
            i <= token_lengths@.len(),
            out@.len() == i,
            forall|k: int| 0 <= k < token_lengths@.len() ==> (#[trigger] token_lengths@[k]).1
                <= i64::MAX,
            forall|k: int|
                0 <= k < i ==> (#[trigger] out@[k]).0@ == token_lengths@[k].0@ && out@[k].1 == (
                TokenLengthUpdate {
                    new_doc_count: (-1int) as i64,
                    new_sum_token_lengths: (-(token_lengths@[k].1 as int)) as i64,
                    update_doc_count: 0,
                    update_sum_token_lengths: 0,
                    old_sum_token_lengths: 0,
                }),
        decreases token_lengths.len() - i,
    {
        let length: i64 = token_lengths[i].1 as i64;
        out.push(
            (
                token_lengths[i].0.clone(),
                TokenLengthUpdate {
                    new_doc_count: -1,
                    new_sum_token_lengths: -length,
                    update_doc_count: 0,
                    update_sum_token_lengths: 0,
                    old_sum_token_lengths: 0,
                },
            ),
        );
        i += 1;
    }
    out
}

proof fn lemma_stored_position(
    ids: Seq<Seq<char>>,
    existing: Seq<Option<Document>>,
    id: Seq<char>,
    n: int,
    j: int,
)
    requires
        0 <= j < n,
        ids[j] == id,
        existing[j] is Some,
        forall|k: int| j < k < n && #[trigger] ids[k] == id ==> existing[k] is None,
    ensures
        stored_position(ids, existing, id, n) == j,
    decreases n,
{
    if j < n - 1 {
        assert(!(ids[n - 1] == id && existing[n - 1] is Some));
        lemma_stored_position(ids, existing, id, n - 1, j);
    }
}

proof fn lemma_nothing_stored(
    ids: Seq<Seq<char>>,
    existing: Seq<Option<Document>>,
    id: Seq<char>,
    n: int,
)
    requires
        forall|k: int| 0 <= k < n && #[trigger] ids[k] == id ==> existing[k] is None,
    ensures
        stored_position(ids, existing, id, n) == -1,
    decreases n,
{
    if n > 0 {
        assert(!(ids[n - 1] == id && existing[n - 1] is Some));
        lemma_nothing_stored(ids, existing, id, n - 1);
    }
}

/// A document of whose id no version is stored is vectorized as a new one.
pub proof fn unknown_documents_are_vectorized(
    docs: Seq<Document>,
    existing: Seq<Option<Document>>,
    config: CollectionConfigInternal,
    plan: UpsertPlan,
    i: int,
)
    requires
        plan_matches(docs, existing, config, plan),
        existing.len() == docs.len(),
        0 <= i < docs.len(),
        forall|k: int|
            0 <= k < docs.len() && (#[trigger] docs[k]).id@ == docs[i].id@ ==> existing[k] is None,
    ensures
        indices::positions(plan.vectorized@).contains(i),
        !indices::positions(plan.skipped@).contains(i),
        !indices::positions(plan.patched@).contains(i),
        forall|k: int|
            0 <= k < plan.vectorized@.len() && #[trigger] plan.vectorized@[k] == i
                ==> plan.is_new@[k],
{
    let ids = document_ids(docs);
    assert forall|k: int|
        0 <= k < docs.len() && #[trigger] ids[k] == docs[i].id@ implies existing[k] is None by {
        assert(docs[k].id@ == ids[k]);
    }
    lemma_nothing_stored(ids, existing, docs[i].id@, docs.len() as int);
    every_document_has_one_place(docs, existing, config, plan, i);
    only_stale_documents_are_skipped(docs, existing, config, plan, i);
    let p = |i: int| fate_at(docs, existing, config, i) is Patch;
    indices::picked_is_exact(docs.len() as int, p);
    assert(fate_at(docs, existing, config, i) is New);
}

/// A document with a stored version is skipped unless its own time is the later
/// one, to the nanosecond, and it is never taken for a new document. A later
/// version is vectorized again or only patched.
pub proof fn stored_documents_go_by_their_time(
    docs: Seq<Document>,
    existing: Seq<Option<Document>>,
    config: CollectionConfigInternal,
    plan: UpsertPlan,
    i: int,
    j: int,
)
    requires
        plan_matches(docs, existing, config, plan),
        existing.len() == docs.len(),
        0 <= i < docs.len(),
        0 <= j < docs.len(),
        docs[j].id@ == docs[i].id@,
        existing[j] is Some,
        forall|k: int|
            j < k < docs.len() && (#[trigger] docs[k]).id@ == docs[i].id@ ==> existing[k] is None,
    ensures
        ({
            let old = existing[j]->0.timestamp;
            let new = docs[i].timestamp;
            let later = new.secs > old.secs || (new.secs == old.secs && new.nanos > old.nanos);
            &&& indices::positions(plan.skipped@).contains(i) <==> !later
            &&& later ==> (indices::positions(plan.patched@).contains(i)
                <==> !encoder::must_revectorize(docs[i], existing[j]->0, config))
            &&& later ==> (indices::positions(plan.vectorized@).contains(i)
                <==> encoder::must_revectorize(docs[i], existing[j]->0, config))
        }),
        forall|k: int|
            0 <= k < plan.vectorized@.len() && #[trigger] plan.vectorized@[k] == i
                ==> !plan.is_new@[k],
{
    let ids = document_ids(docs);
    assert(ids[j] == docs[i].id@);
    assert forall|k: int|
        j < k < docs.len() && #[trigger] ids[k] == docs[i].id@ implies existing[k] is None by {
        assert(docs[k].id@ == ids[k]);
    }
    lemma_stored_position(ids, existing, docs[i].id@, docs.len() as int, j);
    assert(stored_version(docs, existing, i) == existing[j]);
    only_stale_documents_are_skipped(docs, existing, config, plan, i);
    every_document_has_one_place(docs, existing, config, plan, i);
    let p = |i: int| fate_at(docs, existing, config, i) is Patch;
    indices::picked_is_exact(docs.len() as int, p);
}

/// What one more sample adds to the sums under a name: nothing under another
/// name, its length to the sum of new documents if it is of a new one, and else
/// its length to the sum of updated documents and the length before to the sum
/// of the old lengths.
pub proof fn each_sample_adds_its_lengths(samples: Seq<Sample>, one: Sample, name: Seq<char>)
    ensures
        new_sum(samples.push(one), name) == new_sum(samples, name) + (if one.name == name
            && one.is_new {
            one.length as int
        } else {
            0
        }),
        updated_sum(samples.push(one), name) == updated_sum(samples, name) + (if one.name == name
            && !one.is_new {
            one.length as int
        } else {
            0
        }),
        old_sum(samples.push(one), name) == old_sum(samples, name) + (if one.name == name
            && !one.is_new {
            one.old_length as int
        } else {
            0
        }),
        new_sum(Seq::empty(), name) == 0,
        updated_sum(Seq::empty(), name) == 0,
        old_sum(Seq::empty(), name) == 0,
{
    assert(samples.push(one).drop_last() =~= samples);
}

/// An update of the statistics holds the numbers of documents that it is made
/// with, and the sums of the samples under its name.
pub proof fn updates_hold_their_sums(
    samples: Seq<Sample>,
    name: Seq<char>,
    new_docs: i64,
    updated_docs: i64,
    u: TokenLengthUpdate,
)
    requires
        sums_under(samples, name, new_docs, updated_docs, u),
    ensures
        u.new_doc_count == new_docs,
        u.update_doc_count == updated_docs,
        u.new_sum_token_lengths == new_sum(samples, name),
        u.update_sum_token_lengths == updated_sum(samples, name),
        u.old_sum_token_lengths == old_sum(samples, name),
{
}

/// The length that a list gives under a name is that of the first entry with the
/// name, and nothing where no entry has it.
pub proof fn listed_lengths_are_found(lengths: Seq<(String, usize)>, name: Seq<char>, i: int)
    ensures
        0 <= i < lengths.len() && lengths[i].0@ == name && (forall|k: int|
            0 <= k < i ==> (#[trigger] lengths[k]).0@ != name) ==> listed_length(lengths, name)
            == lengths[i].1,
        (forall|k: int| 0 <= k < lengths.len() ==> (#[trigger] lengths[k]).0@ != name)
            ==> listed_length(lengths, name) == 0,
    decreases lengths.len(),
{
    if lengths.len() > 0 && lengths[0].0@ != name {
        let rest = lengths.drop_first();
        assert(forall|k: int| 0 <= k < rest.len() ==> #[trigger] rest[k] == lengths[k + 1]);
        listed_lengths_are_found(rest, name, i - 1);
        if 0 < i < lengths.len() {
            assert(rest[i - 1] == lengths[i]);
        }
    }
}

/// The samples of a document are its token lengths, with the stored length
/// beside each unless the document is new.
pub proof fn documents_are_sampled_by_their_lengths(
    lengths: Seq<(String, usize)>,
    is_new: bool,
    old_lengths: Seq<(String, usize)>,
    i: int,
)
    requires
        0 <= i < lengths.len(),
    ensures
        document_sample_views(lengths, is_new, old_lengths).len() == lengths.len(),
        ({
            let s = document_sample_views(lengths, is_new, old_lengths)[i];
            &&& s.name == lengths[i].0@
            &&& s.length == lengths[i].1
            &&& s.is_new == is_new
            &&& is_new ==> s.old_length == 0
            &&& !is_new ==> s.old_length == listed_length(old_lengths, lengths[i].0@)
        }),
{
}

/// A sample stands for what it holds.
pub proof fn samples_say_their_parts(v: Seq<TokenSample>, i: int)
    requires
        0 <= i < v.len(),
    ensures
        sample_views(v).len() == v.len(),
        sample_views(v)[i].name == v[i].name@,
        sample_views(v)[i].length == v[i].length,
        sample_views(v)[i].is_new == v[i].is_new,
        sample_views(v)[i].old_length == v[i].old_length,
{
}

/// Locks are asked for in ascending order of the ids, whatever the order of the
/// documents: an id comes before another where a character of it is the lower
/// one after a common beginning, or where it is that beginning.
pub proof fn locks_ascend(s: Seq<Seq<char>>, i: int, j: int)
    requires
        strictly_ascending(s),
        0 <= i < j < s.len(),
    ensures
        s[i] != s[j],
        text::text_precedes(s[i], s[j]),
        !text::text_precedes(s[j], s[i]),
{
    text::text_precedes_irreflexive(s[i]);
    if text::text_precedes(s[j], s[i]) {
        text::text_precedes_transitive(s[i], s[j], s[i]);
    }
}

} // verus!
