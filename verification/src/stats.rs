//! A collection's statistics: how an update changes the number of documents,
//! which averages it replaces, and how updates are gathered for writing.

use vstd::prelude::*;
use crate::common::DocumentField;
use crate::encoder::TokenLengthUpdate;
use crate::ingress;
use crate::ingress::{group_by_name, Group};
use crate::json::Double;
use crate::models::VectorConfigInternal;
use crate::qdrant;
use crate::qdrant::slot_name_text;
use crate::templates::field_slots;
use crate::text;
use crate::text::same_text;

verus! {

/// The most updates written together.
pub const STATS_BATCH_MAX_JOBS: usize = 10;

/// How long updates are gathered after the first, in milliseconds.
pub const STATS_BATCH_WAIT_MS: u64 = 200;

/// How often writing statistics is tried.
pub const STATS_SET_STATS_MAX_ATTEMPTS: usize = 3;

/// The average length assumed for a vector without one: fifty tokens.
pub const DEFAULT_AVERAGE_BITS: u64 = 0x4049_0000_0000_0000;

/// The number of documents in a collection, and the average token lengths of
/// its vectors by their names in the database.
#[derive(Debug, PartialEq, Eq)]
pub struct CollectionStats {
    pub doc_count: i64,
    pub avgdls: Vec<(String, Double)>,
}

impl Default for CollectionStats {
    fn default() -> (r: Self)
        ensures
            r.doc_count == 0,
            r.avgdls@.len() == 0,
    {
        CollectionStats { doc_count: 0, avgdls: Vec::new() }
    }
}

/// What an update does to the statistics.
#[derive(Debug, Clone, Copy, PartialEq, Eq, Structural)]
pub enum StatsChange {
    /// No documents are left: the statistics start over.
    Clear,
    /// Each average of the update is computed anew over this many documents.
    Average { doc_count: i64 },
}

/// The number of documents that an update adds. All its entries agree on it.
pub open spec fn added_documents(updates: Seq<(String, TokenLengthUpdate)>) -> int {
    if updates.len() == 0 {
        0
    } else {
        updates[0].1.new_doc_count as int
    }
}

/// The number of documents after an update.
pub open spec fn counted(doc_count: int, added: int) -> int {
    if doc_count + added <= 0 {
        0
    } else {
        doc_count + added
    }
}

/// Decides what an update does to the statistics.
pub fn plan_change(doc_count: i64, updates: &Vec<(String, TokenLengthUpdate)>) -> (r: StatsChange)
    requires
        i64::MIN <= doc_count + added_documents(updates@) <= i64::MAX,
    ensures
        match r {
            StatsChange::Clear => counted(doc_count as int, added_documents(updates@)) == 0,
            StatsChange::Average { doc_count: n } => n > 0 && n == counted(
                doc_count as int,
                added_documents(updates@),
            ),
        },
{
    let added: i64 = if updates.len() == 0 {
        0
    } else {
        updates[0].1.new_doc_count
    };
    let n: i64 = doc_count + added;
    if n <= 0 {
        StatsChange::Clear
    } else {
        StatsChange::Average { doc_count: n }
    }
}

/// The number of documents never falls below zero, and an update that removes
/// what another added brings it back.
pub proof fn counts_come_back(doc_count: int, added: int)
    ensures
        counted(doc_count, added) >= 0,
        doc_count >= 0 && added >= 0 ==> counted(counted(doc_count, added), -added) == doc_count,
{
}

/// Averages by name.
pub open spec fn averages(v: Seq<(String, Double)>) -> Seq<(Seq<char>, Double)> {
    qdrant::named(v)
}

/// Whether an average has the name.
pub open spec fn has_average(v: Seq<(Seq<char>, Double)>, name: Seq<char>) -> bool {
    exists|i: int| 0 <= i < v.len() && (#[trigger] v[i]).0 == name
}

/// The averages with the default for a name that has none.
pub open spec fn with_default(v: Seq<(Seq<char>, Double)>, name: Seq<char>) -> Seq<
    (Seq<char>, Double),
> {
    if has_average(v, name) {
        v
    } else {
        v.push((name, (Double { bits: DEFAULT_AVERAGE_BITS })))
    }
}

/// The averages with the default for the fields of a vector.
pub open spec fn with_field_defaults(
    v: Seq<(Seq<char>, Double)>,
    fields: Seq<DocumentField>,
    vector: Seq<char>,
) -> Seq<(Seq<char>, Double)>
    decreases fields.len(),
{
    if fields.len() == 0 {
        v
    } else {
        with_default(
            with_field_defaults(v, fields.drop_last(), vector),
            qdrant::slot_name(fields.last(), vector),
        )
    }
}

/// The averages with the default for every vector tokenized here that has none.
pub open spec fn with_defaults(
    v: Seq<(Seq<char>, Double)>,
    configs: Seq<VectorConfigInternal>,
) -> Seq<(Seq<char>, Double)>
    decreases configs.len(),
{
    if configs.len() == 0 {
        v
    } else {
        let rest = with_defaults(v, configs.drop_last());
        let c = configs.last();
        if c.vector_type.spec_is_custom_tokenization() {
            with_field_defaults(rest, c.slots(), c.name@)
        } else {
            rest
        }
    }
}

fn add_default(v: &mut Vec<(String, Double)>, name: String)
    ensures
        averages(final(v)@) == with_default(averages(old(v)@), name@),
{
    let ghost before = averages(v@);
    let mut i: usize = 0;
    while i < v.len()
        invariant
            i <= v@.len(),
            v@ == old(v)@,
            before == averages(v@),
            forall|k: int| 0 <= k < i ==> (#[trigger] before[k]).0 != name@,
        decreases v.len() - i,
    {
        if same_text(v[i].0.as_str(), name.as_str()) {
            assert(before[i as int].0 == name@);
            return ;
        }
        i += 1;
    }
    let ghost wanted = name@;
    v.push((name, Double { bits: DEFAULT_AVERAGE_BITS }));
    assert(averages(v@) =~= before.push((wanted, (Double { bits: DEFAULT_AVERAGE_BITS }))));
}

/// Adds the default average for every vector tokenized here that has none.
pub fn add_default_averages(
    avgdls: &mut Vec<(String, Double)>,
    configs: &Vec<VectorConfigInternal>,
)
    ensures
        averages(final(avgdls)@) == with_defaults(averages(old(avgdls)@), configs@),
{
    let ghost start = averages(avgdls@);
    let mut i: usize = 0;
    assert(configs@.take(0) =~= Seq::empty());
    while i < configs.len()
        invariant
            i <= configs@.len(),
            averages(avgdls@) == with_defaults(start, configs@.take(i as int)),
        decreases configs.len() - i,
    {
        let c = &configs[i];
        assert(configs@.take(i as int + 1).last() == c);
        assert(configs@.take(i as int + 1).drop_last() =~= configs@.take(i as int));
        if c.vector_type.is_custom_tokenization() {
            let fields = field_slots(c);
            let ghost before = averages(avgdls@);
            let mut j: usize = 0;
            assert(fields@.take(0) =~= Seq::empty());
            while j < fields.len()
                invariant
                    j <= fields@.len(),
                    averages(avgdls@) == with_field_defaults(
                        before,
                        fields@.take(j as int),
                        c.name@,
                    ),
                decreases fields.len() - j,
            {
                assert(fields@.take(j as int + 1).last() == fields@[j as int]);
                assert(fields@.take(j as int + 1).drop_last() =~= fields@.take(j as int));
                add_default(avgdls, slot_name_text(fields[j], c.name.as_str()));
                j += 1;
            }
            assert(fields@.take(j as int) =~= fields@);
        }
        i += 1;
    }
    assert(configs@.take(i as int) =~= configs@);
}

proof fn lemma_field_defaults_keep(
    v: Seq<(Seq<char>, Double)>,
    fields: Seq<DocumentField>,
    vector: Seq<char>,
    i: int,
)
    requires
        0 <= i < v.len(),
    ensures
        i < with_field_defaults(v, fields, vector).len(),
        with_field_defaults(v, fields, vector)[i] == v[i],
    decreases fields.len(),
{
    if fields.len() > 0 {
        lemma_field_defaults_keep(v, fields.drop_last(), vector, i);
    }
}

/// An average that is known is never replaced by the default.
pub proof fn known_averages_stay(
    v: Seq<(Seq<char>, Double)>,
    configs: Seq<VectorConfigInternal>,
    i: int,
)
    requires
        0 <= i < v.len(),
    ensures
        i < with_defaults(v, configs).len(),
        with_defaults(v, configs)[i] == v[i],
    decreases configs.len(),
{
    if configs.len() > 0 {
        known_averages_stay(v, configs.drop_last(), i);
        let c = configs.last();
        if c.vector_type.spec_is_custom_tokenization() {
            lemma_field_defaults_keep(
                with_defaults(v, configs.drop_last()),
                c.slots(),
                c.name@,
                i,
            );
        }
    }
}

/// What happens while updates are gathered.
#[derive(Debug, Clone, Copy, PartialEq, Eq, Structural)]
pub enum GatherEvent {
    /// Another update came.
    Update,
    /// The time for gathering is over.
    TimeOver,
    /// No more updates will come.
    Closed,
}

/// Whether a batch of so many updates, the one of the event included, is
/// written now.
pub fn batch_complete(size: usize, event: GatherEvent) -> (r: bool)
    ensures
        r == (!(event is Update) || size >= STATS_BATCH_MAX_JOBS),
{
    match event {
        GatherEvent::Update => size >= STATS_BATCH_MAX_JOBS,
        GatherEvent::TimeOver => true,
        GatherEvent::Closed => true,
    }
}

/// Gathers a batch's updates by collection. Those of one collection stay
/// apart and in order: each counts the documents of its own batch.
pub fn group_updates(collection_names: &Vec<String>) -> (r: Vec<Group>)
    ensures
        ingress::gathers(text::views(collection_names@), collection_names@.len() as int, r@),
{
    group_by_name(collection_names)
}

/// Whether a failed write, the `attempt`th from one, is tried again.
pub fn retry_write(attempt: usize) -> (r: bool)
    ensures
        r == (attempt < STATS_SET_STATS_MAX_ATTEMPTS),
{
    attempt < STATS_SET_STATS_MAX_ATTEMPTS
}

/// The number of documents is the former one and the added ones, and never
/// below zero.
pub proof fn documents_are_counted(doc_count: int, added: int)
    ensures
        doc_count + added >= 0 ==> counted(doc_count, added) == doc_count + added,
        doc_count + added < 0 ==> counted(doc_count, added) == 0,
{
}

/// The documents that updates add are those that the first of them counts as new.
pub proof fn updates_count_their_new_documents(updates: Seq<(String, TokenLengthUpdate)>)
    ensures
        updates.len() > 0 ==> added_documents(updates) == updates[0].1.new_doc_count,
        updates.len() == 0 ==> added_documents(updates) == 0,
{
}

/// Every slot of a vector of tokens has an average length; one that was not known
/// is fifty. Nothing else is added.
pub proof fn every_token_slot_has_an_average(
    v: Seq<(Seq<char>, Double)>,
    configs: Seq<VectorConfigInternal>,
    i: int,
    f: DocumentField,
)
    ensures
        0 <= i < configs.len() && configs[i].vector_type.spec_is_custom_tokenization()
            && configs[i].slots().contains(f) ==> has_average(
            with_defaults(v, configs),
            f.spec_name() + "_"@ + configs[i].name@,
        ),
        forall|k: int|
            v.len() <= k < with_defaults(v, configs).len() ==> (#[trigger] with_defaults(
                v,
                configs,
            )[k]).1.bits == 0x4049_0000_0000_0000u64,
        with_defaults(v, configs).len() >= v.len(),
    decreases configs.len(),
{
    if configs.len() > 0 {
        let init = configs.drop_last();
        let c = configs.last();
        let rest = with_defaults(v, init);
        every_token_slot_has_an_average(v, init, i, f);
        lemma_field_defaults(rest, c.slots(), c.name@, f);
        let all = with_defaults(v, configs);
        if 0 <= i < init.len() {
            assert(init[i] == configs[i]);
            if has_average(rest, qdrant::slot_name(f, configs[i].name@)) {
                let k = choose|k: int|
                    0 <= k < rest.len() && (#[trigger] rest[k]).0 == qdrant::slot_name(
                        f,
                        configs[i].name@,
                    );
                assert(all[k] == rest[k]);
            }
        }
        assert forall|k: int| v.len() <= k < all.len() implies (#[trigger] all[k]).1.bits
            == 0x4049_0000_0000_0000u64 by {
            if k < rest.len() {
                assert(all[k] == rest[k]);
            }
        }
    }
}

proof fn lemma_field_defaults(
    v: Seq<(Seq<char>, Double)>,
    fields: Seq<DocumentField>,
    vector: Seq<char>,
    f: DocumentField,
)
    ensures
        fields.contains(f) ==> has_average(
            with_field_defaults(v, fields, vector),
            qdrant::slot_name(f, vector),
        ),
        with_field_defaults(v, fields, vector).len() >= v.len(),
        forall|k: int|
            0 <= k < v.len() ==> #[trigger] with_field_defaults(v, fields, vector)[k] == v[k],
        forall|k: int|
            v.len() <= k < with_field_defaults(v, fields, vector).len() ==> (
            #[trigger] with_field_defaults(v, fields, vector)[k]).1.bits
                == 0x4049_0000_0000_0000u64,
    decreases fields.len(),
{
    if fields.len() > 0 {
        let init = fields.drop_last();
        let rest = with_field_defaults(v, init, vector);
        let all = with_field_defaults(v, fields, vector);
        lemma_field_defaults(v, init, vector, f);
        assert(forall|k: int| 0 <= k < rest.len() ==> #[trigger] all[k] == rest[k]);
        let own = qdrant::slot_name(fields.last(), vector);
        if !has_average(rest, own) {
            assert(all[rest.len() as int].0 == own);
        }
        if fields.contains(f) {
            let x = choose|x: int| 0 <= x < fields.len() && fields[x] == f;
            if x < init.len() {
                assert(init[x] == f);
                let k = choose|k: int|
                    0 <= k < rest.len() && (#[trigger] rest[k]).0 == qdrant::slot_name(f, vector);
                assert(all[k] == rest[k]);
            }
        }
    }
}

} // verus!
