//! Validation of the vectors that a document brings along: they are either
//! left out or are the complete set of the collection's vectors that are not
//! custom.

use vstd::prelude::*;
use crate::common::DocumentField;
use crate::models::{CollectionConfigInternal, Document, VectorConfigInternal, VectorData};
use crate::templates::field_slots;
use crate::text;
use crate::text::{decimal_text, joined, same_text, sort_texts, text2, text3, text5};
use crate::validation;
use crate::validation::ValidationError;

verus! {

/// A place for a vector: a vector's name and a field of the document.
pub type Slot = (Seq<char>, DocumentField);

/// The slots with one more, if it is not among them yet.
pub open spec fn with_slot(slots: Seq<Slot>, slot: Slot) -> Seq<Slot> {
    if slots.contains(slot) {
        slots
    } else {
        slots.push(slot)
    }
}

/// The slots with those of a vector's fields.
pub open spec fn with_fields(
    slots: Seq<Slot>,
    name: Seq<char>,
    fields: Seq<DocumentField>,
) -> Seq<Slot>
    decreases fields.len(),
{
    if fields.len() == 0 {
        slots
    } else {
        with_slot(with_fields(slots, name, fields.drop_last()), (name, fields.last()))
    }
}

/// The slots of the vectors that are not custom, each once.
pub open spec fn expected_slots(configs: Seq<VectorConfigInternal>) -> Seq<Slot>
    decreases configs.len(),
{
    if configs.len() == 0 {
        Seq::empty()
    } else {
        let rest = expected_slots(configs.drop_last());
        let c = configs.last();
        if c.vector_type.spec_is_custom_vectors() {
            rest
        } else {
            with_fields(rest, c.name@, c.slots())
        }
    }
}

/// Whether a vector is configured for a slot, other than as a custom one.
pub open spec fn serves(c: VectorConfigInternal, slot: Slot) -> bool {
    &&& !c.vector_type.spec_is_custom_vectors()
    &&& c.name@ == slot.0
    &&& c.slots().contains(slot.1)
}

/// The vector configured for a slot; the last one counts.
pub open spec fn slot_config(configs: Seq<VectorConfigInternal>, slot: Slot) -> Option<
    VectorConfigInternal,
>
    decreases configs.len(),
{
    if configs.len() == 0 {
        None
    } else if serves(configs.last(), slot) {
        Some(configs.last())
    } else {
        slot_config(configs.drop_last(), slot)
    }
}

/// The slots that are expected are those for which a vector is configured.
pub proof fn expected_slots_are_configured(configs: Seq<VectorConfigInternal>, slot: Slot)
    ensures
        expected_slots(configs).contains(slot) <==> slot_config(configs, slot) is Some,
        expected_slots(configs).no_duplicates(),
    decreases configs.len(),
{
    if configs.len() > 0 {
        let rest = expected_slots(configs.drop_last());
        let c = configs.last();
        expected_slots_are_configured(configs.drop_last(), slot);
        if !c.vector_type.spec_is_custom_vectors() {
            lemma_with_fields(rest, c.name@, c.slots(), slot);
        }
    }
}

proof fn lemma_with_fields(
    slots: Seq<Slot>,
    name: Seq<char>,
    fields: Seq<DocumentField>,
    slot: Slot,
)
    requires
        slots.no_duplicates(),
    ensures
        with_fields(slots, name, fields).contains(slot) <==> slots.contains(slot) || (slot.0
            == name && fields.contains(slot.1)),
        with_fields(slots, name, fields).no_duplicates(),
    decreases fields.len(),
{
    if fields.len() > 0 {
        lemma_with_fields(slots, name, fields.drop_last(), slot);
        let rest = with_fields(slots, name, fields.drop_last());
        let new = (name, fields.last());
        assert(fields.contains(slot.1) <==> fields.drop_last().contains(slot.1) || fields.last()
            == slot.1) by {
            if fields.contains(slot.1) {
                let i = choose|i: int| 0 <= i < fields.len() && fields[i] == slot.1;
                if i < fields.len() - 1 {
                    assert(fields.drop_last()[i] == slot.1);
                }
            }
            if fields.drop_last().contains(slot.1) {
                let i = choose|i: int|
                    0 <= i < fields.drop_last().len() && fields.drop_last()[i] == slot.1;
                assert(fields[i] == slot.1);
            }
            if fields.last() == slot.1 {
                assert(fields[fields.len() - 1] == slot.1);
            }
        }
        if !rest.contains(new) {
            let r = rest.push(new);
            assert(r.contains(slot) <==> rest.contains(slot) || slot == new) by {
                if r.contains(slot) {
                    let i = choose|i: int| 0 <= i < r.len() && r[i] == slot;
                    if i < rest.len() {
                        assert(rest[i] == slot);
                    }
                }
                if rest.contains(slot) {
                    let i = choose|i: int| 0 <= i < rest.len() && rest[i] == slot;
                    assert(r[i] == slot);
                }
                if slot == new {
                    assert(r[rest.len() as int] == slot);
                }
            }
        }
    }
}

/// The slot of a vector that a document brings along.
pub open spec fn slot_of(vd: VectorData) -> Slot {
    (vd.vector_name@, vd.field)
}

/// A slot in the words of an error.
pub open spec fn quoted(slot: Slot) -> Seq<char> {
    "'"@ + slot.0 + "' field '"@ + slot.1.spec_name() + "'"@
}

fn quoted_text(name: &str, field: DocumentField) -> (r: String)
    ensures
        r@ == quoted((name@, field)),
{
    text5("'", name, "' field '", field.name(), "'")
}

/// What is wrong with the data of a vector that a document brings along.
pub open spec fn shape_problem(vd: VectorData, config: VectorConfigInternal) -> Option<Seq<char>> {
    let what = "Vector "@ + quoted(slot_of(vd));
    if config.vector_type.spec_is_dense() {
        match vd.dense_vector {
            Some(dense) => if dense@.len() == 0 {
                Some(what + " requires dense_vector"@)
            } else if config.dimensions is Some && dense@.len() != config.dimensions->0 {
                Some(
                    what + " has "@ + text::decimal(dense@.len()) + " dimensions, expected "@
                        + text::decimal(config.dimensions->0 as nat),
                )
            } else {
                None
            },
            None => Some(what + " requires dense_vector"@),
        }
    } else {
        match (vd.sparse_indices, vd.sparse_values) {
            (Some(indices), Some(values)) => if indices@.len() != values@.len() {
                Some(what + ": sparse_indices and sparse_values length mismatch"@)
            } else if indices@.len() > config.top_k {
                Some(
                    what + " has "@ + text::decimal(indices@.len()) + " entries, max allowed: "@
                        + text::decimal(config.top_k as nat),
                )
            } else {
                None
            },
            _ => Some(what + " requires sparse_indices and sparse_values"@),
        }
    }
}

fn validate_provided_vector_shape(vd: &VectorData, config: &VectorConfigInternal) -> (r: Result<
    (),
    ValidationError,
>)
    ensures
        validation::problem(r) == shape_problem(*vd, *config),
{
    let slot = quoted_text(vd.vector_name.as_str(), vd.field);
    let what = text2("Vector ", slot.as_str());
    if config.vector_type.is_dense() {
        let dense = match &vd.dense_vector {
            Some(dense) => dense,
            None => {
                return Err(ValidationError(text2(what.as_str(), " requires dense_vector")));
            },
        };
        let n: usize = dense.len();
        if n == 0 {
            return Err(ValidationError(text2(what.as_str(), " requires dense_vector")));
        }
        if let Some(dim) = config.dimensions {
            if n as u64 != dim as u64 {
                let has = decimal_text(n as u64);
                let expected = decimal_text(dim as u64);
                return Err(
                    ValidationError(
                        text5(
                            what.as_str(),
                            " has ",
                            has.as_str(),
                            " dimensions, expected ",
                            expected.as_str(),
                        ),
                    ),
                );
            }
        }
        return Ok(());
    }
    match (&vd.sparse_indices, &vd.sparse_values) {
        (Some(indices), Some(values)) => {
            let n: usize = indices.len();
            if n != values.len() {
                return Err(
                    ValidationError(
                        text2(
                            what.as_str(),
                            ": sparse_indices and sparse_values length mismatch",
                        ),
                    ),
                );
            }
            if n as u64 > config.top_k as u64 {
                let has = decimal_text(n as u64);
                let most = decimal_text(config.top_k as u64);
                return Err(
                    ValidationError(
                        text5(
                            what.as_str(),
                            " has ",
                            has.as_str(),
                            " entries, max allowed: ",
                            most.as_str(),
                        ),
                    ),
                );
            }
            Ok(())
        },
        _ => Err(
            ValidationError(
                text2(what.as_str(), " requires sparse_indices and sparse_values"),
            ),
        ),
    }
}

/// Whether one of the vectors has the slot.
pub open spec fn provided(vectors: Seq<VectorData>, slot: Slot) -> bool {
    exists|i: int| 0 <= i < vectors.len() && slot_of(#[trigger] vectors[i]) == slot
}

/// What is wrong with a vector that comes after the given ones.
pub open spec fn entry_problem(
    configs: Seq<VectorConfigInternal>,
    earlier: Seq<VectorData>,
    vd: VectorData,
) -> Option<Seq<char>> {
    let slot = slot_of(vd);
    if vd.vector_type.spec_is_custom_vectors() {
        Some(
            "Vector "@ + quoted(slot) + " has type '"@ + vd.vector_type.spec_name()
                + "'; custom vector types must use custom_vectors"@,
        )
    } else if provided(earlier, slot) {
        Some("Duplicate vector entry for "@ + quoted(slot))
    } else {
        match slot_config(configs, slot) {
            None => Some(
                "Unexpected vector "@ + quoted(slot)
                    + " (not a non-custom collection vector slot)"@,
            ),
            Some(c) => if vd.vector_type != c.vector_type {
                Some(
                    "Vector "@ + quoted(slot) + " has type '"@ + vd.vector_type.spec_name()
                        + ("', expected '"@ + c.vector_type.spec_name() + "'"@),
                )
            } else {
                shape_problem(vd, c)
            },
        }
    }
}

/// The first thing wrong with the vectors, taken one by one.
pub open spec fn entries_problem(
    configs: Seq<VectorConfigInternal>,
    vectors: Seq<VectorData>,
) -> Option<Seq<char>>
    decreases vectors.len(),
{
    if vectors.len() == 0 {
        None
    } else {
        validation::first(
            entries_problem(configs, vectors.drop_last()),
            entry_problem(configs, vectors.drop_last(), vectors.last()),
        )
    }
}

/// A slot in a list of slots.
pub open spec fn label(slot: Slot) -> Seq<char> {
    slot.0 + "/"@ + slot.1.spec_name()
}

/// The labels of the slots that no vector has.
pub open spec fn missing_labels(slots: Seq<Slot>, vectors: Seq<VectorData>) -> Seq<Seq<char>>
    decreases slots.len(),
{
    if slots.len() == 0 {
        Seq::empty()
    } else {
        let rest = missing_labels(slots.drop_last(), vectors);
        if provided(vectors, slots.last()) {
            rest
        } else {
            rest.push(label(slots.last()))
        }
    }
}

/// Whether a custom vector of the document has the slot.
pub open spec fn custom_has(document: Document, slot: Slot) -> bool {
    document.custom_vectors matches Some(customs) && exists|i: int|
        0 <= i < customs@.len() && (#[trigger] customs@[i]).vector_name@ == slot.0
            && customs@[i].field == slot.1
}

/// The labels of the vectors whose slots the document's custom vectors have.
pub open spec fn overlap_labels(document: Document, vectors: Seq<VectorData>) -> Seq<Seq<char>>
    decreases vectors.len(),
{
    if vectors.len() == 0 {
        Seq::empty()
    } else {
        let rest = overlap_labels(document, vectors.drop_last());
        if custom_has(document, slot_of(vectors.last())) {
            rest.push(label(slot_of(vectors.last())))
        } else {
            rest
        }
    }
}

/// What is wrong with the vectors that a document brings along.
pub open spec fn vectors_problem(config: CollectionConfigInternal, document: Document) -> Option<
    Seq<char>,
> {
    match document.vectors {
        None => None,
        Some(v) => if v@.len() == 0 {
            Some("vectors must be omitted or contain the complete non-custom vector set"@)
        } else {
            let missing = missing_labels(expected_slots(config.vectors@), v@);
            let overlap = overlap_labels(document, v@);
            if entries_problem(config.vectors@, v@) is Some {
                entries_problem(config.vectors@, v@)
            } else if missing.len() > 0 {
                Some(
                    "Incomplete vectors: missing non-custom slots: "@ + text::join(
                        text::sorted(missing),
                        ", "@,
                    ),
                )
            } else if overlap.len() > 0 {
                Some(
                    "Duplicate vector slots in vectors and custom_vectors: "@ + text::join(
                        text::sorted(overlap),
                        ", "@,
                    ),
                )
            } else {
                None
            }
        },
    }
}

fn has_slot(c: &VectorConfigInternal, field: DocumentField) -> (r: bool)
    ensures
        r == c.slots().contains(field),
{
    let list = field_slots(c);
    let mut i: usize = 0;
    while i < list.len()
        invariant
            i <= list@.len(),
            c.slots() == list@,
            forall|k: int| 0 <= k < i ==> list@[k] != field,
        decreases list.len() - i,
    {
        if list[i] == field {
            assert(list@[i as int] == field);
            return true;
        }
        i += 1;
    }
    false
}

fn find_config<'a>(
    configs: &'a Vec<VectorConfigInternal>,
    name: &str,
    field: DocumentField,
) -> (r: Option<&'a VectorConfigInternal>)
    ensures
        match r {
            Some(c) => slot_config(configs@, (name@, field)) == Some(*c),
            None => slot_config(configs@, (name@, field)) is None,
        },
{
    let mut n: usize = configs.len();
    assert(configs@.take(n as int) =~= configs@);
    while n > 0
        invariant
            n <= configs@.len(),
            slot_config(configs@, (name@, field)) == slot_config(
                configs@.take(n as int),
                (name@, field),
            ),
        decreases n,
    {
        let c = &configs[n - 1];
        assert(configs@.take(n as int).last() == c);
        assert(configs@.take(n as int).drop_last() =~= configs@.take(n as int - 1));
        if !c.vector_type.is_custom_vectors() && same_text(c.name.as_str(), name) && has_slot(
            c,
            field,
        ) {
            return Some(c);
        }
        n -= 1;
    }
    None
}

fn provided_before(vectors: &Vec<VectorData>, n: usize, name: &str, field: DocumentField) -> (r:
    bool)
    requires
        n <= vectors@.len(),
    ensures
        r == provided(vectors@.take(n as int), (name@, field)),
{
    let mut i: usize = 0;
    let ghost earlier = vectors@.take(n as int);
    while i < n
        invariant
            i <= n <= vectors@.len(),
            earlier == vectors@.take(n as int),
            forall|k: int| 0 <= k < i ==> slot_of(#[trigger] earlier[k]) != (name@, field),
        decreases n - i,
    {
        if same_text(vectors[i].vector_name.as_str(), name) && vectors[i].field == field {
            assert(slot_of(earlier[i as int]) == (name@, field));
            return true;
        }
        i += 1;
    }
    false
}

fn validate_entry(configs: &Vec<VectorConfigInternal>, vectors: &Vec<VectorData>, i: usize) -> (r:
    Result<(), ValidationError>)
    requires
        i < vectors@.len(),
    ensures
        validation::problem(r) == entry_problem(
            configs@,
            vectors@.take(i as int),
            vectors@[i as int],
        ),
{
    let vd = &vectors[i];
    let slot = quoted_text(vd.vector_name.as_str(), vd.field);
    if vd.vector_type.is_custom_vectors() {
        return Err(
            ValidationError(
                text5(
                    "Vector ",
                    slot.as_str(),
                    " has type '",
                    vd.vector_type.name(),
                    "'; custom vector types must use custom_vectors",
                ),
            ),
        );
    }
    if provided_before(vectors, i, vd.vector_name.as_str(), vd.field) {
        return Err(ValidationError(text2("Duplicate vector entry for ", slot.as_str())));
    }
    let config = match find_config(configs, vd.vector_name.as_str(), vd.field) {
        Some(config) => config,
        None => {
            return Err(
                ValidationError(
                    text3(
                        "Unexpected vector ",
                        slot.as_str(),
                        " (not a non-custom collection vector slot)",
                    ),
                ),
            );
        },
    };
    if vd.vector_type != config.vector_type {
        let expected = text3("', expected '", config.vector_type.name(), "'");
        return Err(
            ValidationError(
                text5(
                    "Vector ",
                    slot.as_str(),
                    " has type '",
                    vd.vector_type.name(),
                    expected.as_str(),
                ),
            ),
        );
    }
    validate_provided_vector_shape(vd, config)
}

/// A slot, held by value.
struct SlotKey {
    name: String,
    field: DocumentField,
}

spec fn slot_views(v: Seq<SlotKey>) -> Seq<Slot> {
    Seq::new(v.len(), |i: int| (v[i].name@, v[i].field))
}

fn add_slot(slots: &mut Vec<SlotKey>, name: &str, field: DocumentField)
    ensures
        slot_views(final(slots)@) == with_slot(slot_views(old(slots)@), (name@, field)),
{
    let ghost before = slot_views(slots@);
    let mut i: usize = 0;
    while i < slots.len()
        invariant
            i <= slots@.len(),
            slots@ == old(slots)@,
            before == slot_views(slots@),
            forall|k: int| 0 <= k < i ==> before[k] != (name@, field),
        decreases slots.len() - i,
    {
        if same_text(slots[i].name.as_str(), name) && slots[i].field == field {
            assert(before[i as int] == (name@, field));
            return ;
        }
        i += 1;
    }
    slots.push(SlotKey { name: name.to_owned(), field });
    assert(slot_views(slots@) =~= before.push((name@, field)));
}

fn collect_slots(configs: &Vec<VectorConfigInternal>) -> (r: Vec<SlotKey>)
    ensures
        slot_views(r@) == expected_slots(configs@),
{
    let mut slots: Vec<SlotKey> = Vec::new();
    let mut i: usize = 0;
    assert(slot_views(slots@) =~= Seq::empty());
    assert(configs@.take(0) =~= Seq::empty());
    while i < configs.len()
        invariant
            i <= configs@.len(),
            slot_views(slots@) == expected_slots(configs@.take(i as int)),
        decreases configs.len() - i,
    {
        let c = &configs[i];
        assert(configs@.take(i as int + 1).last() == c);
        assert(configs@.take(i as int + 1).drop_last() =~= configs@.take(i as int));
        if !c.vector_type.is_custom_vectors() {
            let fields = field_slots(c);
            let ghost before = slot_views(slots@);
            let mut j: usize = 0;
            assert(fields@.take(0) =~= Seq::empty());
            while j < fields.len()
                invariant
                    j <= fields@.len(),
                    slot_views(slots@) == with_fields(before, c.name@, fields@.take(j as int)),
                decreases fields.len() - j,
            {
                assert(fields@.take(j as int + 1).drop_last() =~= fields@.take(j as int));
                assert(fields@.take(j as int + 1).last() == fields@[j as int]);
                add_slot(&mut slots, c.name.as_str(), fields[j]);
                j += 1;
            }
            assert(fields@.take(j as int) =~= fields@);
        }
        i += 1;
    }
    assert(configs@.take(i as int) =~= configs@);
    slots
}

fn label_text(name: &str, field: DocumentField) -> (r: String)
    ensures
        r@ == label((name@, field)),
{
    text3(name, "/", field.name())
}

fn missing_slots(slots: &Vec<SlotKey>, vectors: &Vec<VectorData>) -> (r: Vec<String>)
    ensures
        text::views(r@) == missing_labels(slot_views(slots@), vectors@),
{
    let mut out: Vec<String> = Vec::new();
    let mut i: usize = 0;
    let ghost all = slot_views(slots@);
    assert(all.take(0) =~= Seq::empty());
    assert(text::views(out@) =~= Seq::empty());
    assert(vectors@.take(vectors@.len() as int) =~= vectors@);
    while i < slots.len()
        invariant
            i <= slots@.len(),
            all == slot_views(slots@),
            vectors@.take(vectors@.len() as int) == vectors@,
            text::views(out@) == missing_labels(all.take(i as int), vectors@),
        decreases slots.len() - i,
    {
        assert(all.take(i as int + 1).drop_last() =~= all.take(i as int));
        assert(all.take(i as int + 1).last() == all[i as int]);
        if !provided_before(vectors, vectors.len(), slots[i].name.as_str(), slots[i].field) {
            let ghost before = text::views(out@);
            out.push(label_text(slots[i].name.as_str(), slots[i].field));
            assert(text::views(out@) =~= before.push(label(all[i as int])));
        }
        i += 1;
    }
    assert(all.take(i as int) =~= all);
    out
}

fn custom_has_slot(document: &Document, name: &str, field: DocumentField) -> (r: bool)
    ensures
        r == custom_has(*document, (name@, field)),
{
    match &document.custom_vectors {
        None => false,
        Some(customs) => {
            let mut i: usize = 0;
            while i < customs.len()
                invariant
                    i <= customs@.len(),
                    document.custom_vectors == Some(*customs),
                    forall|k: int|
                        0 <= k < i ==> !((#[trigger] customs@[k]).vector_name@ == name@
                            && customs@[k].field == field),
                decreases customs.len() - i,
            {
                if same_text(customs[i].vector_name.as_str(), name) && customs[i].field == field {
                    assert(customs@[i as int].vector_name@ == name@);
                    return true;
                }
                i += 1;
            }
            false
        },
    }
}

fn overlapping_slots(document: &Document, vectors: &Vec<VectorData>) -> (r: Vec<String>)
    ensures
        text::views(r@) == overlap_labels(*document, vectors@),
{
    let mut out: Vec<String> = Vec::new();
    let mut i: usize = 0;
    assert(vectors@.take(0) =~= Seq::empty());
    assert(text::views(out@) =~= Seq::empty());
    while i < vectors.len()
        invariant
            i <= vectors@.len(),
            text::views(out@) == overlap_labels(*document, vectors@.take(i as int)),
        decreases vectors.len() - i,
    {
        assert(vectors@.take(i as int + 1).drop_last() =~= vectors@.take(i as int));
        assert(vectors@.take(i as int + 1).last() == vectors@[i as int]);
        if custom_has_slot(document, vectors[i].vector_name.as_str(), vectors[i].field) {
            let ghost before = text::views(out@);
            out.push(label_text(vectors[i].vector_name.as_str(), vectors[i].field));
            assert(text::views(out@) =~= before.push(label(slot_of(vectors@[i as int]))));
        }
        i += 1;
    }
    assert(vectors@.take(i as int) =~= vectors@);
    out
}

/// Checks the vectors that a document brings along.
pub fn validate_document_vectors(
    collection_config: &CollectionConfigInternal,
    document: &Document,
) -> (r: Result<(), ValidationError>)
    ensures
        validation::problem(r) == vectors_problem(*collection_config, *document),
{
    let vectors = match &document.vectors {
        Some(vectors) => vectors,
        None => {
            return Ok(());
        },
    };
    if vectors.len() == 0 {
        return Err(
            ValidationError(
                "vectors must be omitted or contain the complete non-custom vector set".to_owned(),
            ),
        );
    }
    let configs = &collection_config.vectors;
    let mut i: usize = 0;
    assert(vectors@.take(0) =~= Seq::empty());
    while i < vectors.len()
        invariant
            i <= vectors@.len(),
            vectors@.len() > 0,
            document.vectors == Some(*vectors),
            *configs == collection_config.vectors,
            entries_problem(configs@, vectors@.take(i as int)) is None,
        decreases vectors.len() - i,
    {
        assert(vectors@.take(i as int + 1).drop_last() =~= vectors@.take(i as int));
        assert(vectors@.take(i as int + 1).last() == vectors@[i as int]);
        let r = validate_entry(configs, vectors, i);
        if r.is_err() {
            proof {
                lemma_first_entry_problem(configs@, vectors@, i as int + 1);
            }
            return r;
        }
        i += 1;
    }
    assert(vectors@.take(i as int) =~= vectors@);
    let slots = collect_slots(configs);
    let missing = missing_slots(&slots, vectors);
    assert(missing@.len() == text::views(missing@).len());
    if missing.len() > 0 {
        let labels = sort_texts(&missing);
        let list = joined(&labels, ", ");
        return Err(
            ValidationError(
                text2("Incomplete vectors: missing non-custom slots: ", list.as_str()),
            ),
        );
    }
    let overlap = overlapping_slots(document, vectors);
    assert(overlap@.len() == text::views(overlap@).len());
    if overlap.len() > 0 {
        let labels = sort_texts(&overlap);
        let list = joined(&labels, ", ");
        return Err(
            ValidationError(
                text2("Duplicate vector slots in vectors and custom_vectors: ", list.as_str()),
            ),
        );
    }
    Ok(())
}

proof fn lemma_first_entry_problem(
    configs: Seq<VectorConfigInternal>,
    vectors: Seq<VectorData>,
    n: int,
)
    requires
        0 <= n <= vectors.len(),
        entries_problem(configs, vectors.take(n)) is Some,
    ensures
        entries_problem(configs, vectors) == entries_problem(configs, vectors.take(n)),
    decreases vectors.len(),
{
    if n == vectors.len() {
        assert(vectors.take(n) =~= vectors);
    } else {
        assert(vectors.drop_last().take(n) =~= vectors.take(n));
        lemma_first_entry_problem(configs, vectors.drop_last(), n);
    }
}

proof fn lemma_no_entry_problem(
    configs: Seq<VectorConfigInternal>,
    vectors: Seq<VectorData>,
    i: int,
)
    requires
        entries_problem(configs, vectors) is None,
        0 <= i < vectors.len(),
    ensures
        entry_problem(configs, vectors.take(i), vectors[i]) is None,
    decreases vectors.len(),
{
    if i == vectors.len() - 1 {
        assert(vectors.drop_last() =~= vectors.take(i));
    } else {
        lemma_no_entry_problem(configs, vectors.drop_last(), i);
        assert(vectors.drop_last().take(i) =~= vectors.take(i));
    }
}

proof fn lemma_nothing_missing(slots: Seq<Slot>, vectors: Seq<VectorData>, slot: Slot)
    requires
        missing_labels(slots, vectors).len() == 0,
        slots.contains(slot),
    ensures
        provided(vectors, slot),
    decreases slots.len(),
{
    let i = choose|i: int| 0 <= i < slots.len() && slots[i] == slot;
    if i < slots.len() - 1 {
        assert(slots.drop_last()[i] == slot);
        assert(missing_labels(slots.drop_last(), vectors).len() == 0);
        lemma_nothing_missing(slots.drop_last(), vectors, slot);
    }
}

/// Accepted vectors are complete and in place: each expected slot has exactly
/// one of them, and each of them has an expected slot and its type.
pub proof fn accepted_vectors_are_complete(
    config: CollectionConfigInternal,
    document: Document,
)
    requires
        document.vectors is Some,
        vectors_problem(config, document) is None,
    ensures
        forall|slot: Slot| #[trigger]
            expected_slots(config.vectors@).contains(slot) ==> provided(
                document.vectors->0@,
                slot,
            ),
        forall|i: int|
            0 <= i < document.vectors->0@.len() ==> {
                let vd = #[trigger] document.vectors->0@[i];
                &&& expected_slots(config.vectors@).contains(slot_of(vd))
                &&& slot_config(config.vectors@, slot_of(vd))->0.vector_type == vd.vector_type
            },
        forall|i: int, j: int|
            #![trigger document.vectors->0@[i], document.vectors->0@[j]]
            0 <= i < j < document.vectors->0@.len() ==> slot_of(document.vectors->0@[i])
                != slot_of(document.vectors->0@[j]),
{
    let v = document.vectors->0@;
    assert forall|slot: Slot| #[trigger]
        expected_slots(config.vectors@).contains(slot) implies provided(v, slot) by {
        lemma_nothing_missing(expected_slots(config.vectors@), v, slot);
    }
    assert forall|i: int| 0 <= i < v.len() implies {
        let vd = #[trigger] v[i];
        &&& expected_slots(config.vectors@).contains(slot_of(vd))
        &&& slot_config(config.vectors@, slot_of(vd))->0.vector_type == vd.vector_type
    } by {
        lemma_no_entry_problem(config.vectors@, v, i);
        expected_slots_are_configured(config.vectors@, slot_of(v[i]));
    }
    assert forall|i: int, j: int| #![trigger v[i], v[j]] 0 <= i < j < v.len() implies slot_of(v[i])
        != slot_of(v[j]) by {
        lemma_no_entry_problem(config.vectors@, v, j);
        assert(v.take(j)[i] == v[i]);
    }
}

/// A vector is of the shape of its slot exactly if, for a dense one, it has
/// numbers, as many as the slot has dimensions where that is set, and, for any
/// other, it has indices and values, equally many and no more than the slot
/// keeps.
pub proof fn vectors_have_the_shape_of_their_slot(vd: VectorData, c: VectorConfigInternal)
    ensures
        shape_problem(vd, c) is None <==> if c.vector_type is DenseModel || c.vector_type
            is DenseCustom {
            vd.dense_vector matches Some(d) && d@.len() > 0 && (c.dimensions matches Some(n)
                ==> d@.len() == n)
        } else {
            vd.sparse_indices matches Some(i) && vd.sparse_values matches Some(v) && i@.len()
                == v@.len() && i@.len() <= c.top_k
        },
{
}

/// A slot is that of the last vector that has it; custom vectors have none.
pub proof fn slots_are_those_of_the_last_vector(
    configs: Seq<VectorConfigInternal>,
    one: VectorConfigInternal,
    slot: Slot,
)
    ensures
        ({
            let owns = !(one.vector_type is DenseCustom) && !(one.vector_type is SparseCustom)
                && one.name@ == slot.0 && one.slots().contains(slot.1);
            &&& owns ==> slot_config(configs.push(one), slot) == Some(one)
            &&& !owns ==> slot_config(configs.push(one), slot) == slot_config(configs, slot)
            &&& slot_config(Seq::empty(), slot) is None
        }),
{
    assert(configs.push(one).drop_last() =~= configs);
}

/// Whether the vector at a place fits its slot: it is no custom one, no vector
/// before it is of the slot, and it is of the type and of the shape of the slot.
pub open spec fn fits_its_slot(
    configs: Seq<VectorConfigInternal>,
    vs: Seq<VectorData>,
    i: int,
) -> bool {
    &&& !(vs[i].vector_type is DenseCustom) && !(vs[i].vector_type is SparseCustom)
    &&& forall|k: int|
        0 <= k < i ==> (#[trigger] vs[k]).vector_name@ != vs[i].vector_name@ || vs[k].field
            != vs[i].field
    &&& slot_config(configs, (vs[i].vector_name@, vs[i].field)) matches Some(c)
        && vs[i].vector_type == c.vector_type && shape_problem(vs[i], c) is None
}

/// Whether a vector is of a slot.
pub open spec fn holds_slot(vs: Seq<VectorData>, slot: Slot) -> bool {
    exists|i: int|
        0 <= i < vs.len() && (#[trigger] vs[i]).vector_name@ == slot.0 && vs[i].field == slot.1
}

/// The vectors of a document are accepted exactly if there are none, or if each
/// fits a slot of its own, no slot is wanting, and no slot has a custom vector
/// too.
pub proof fn complete_vectors_are_accepted(config: CollectionConfigInternal, document: Document)
    ensures
        document.vectors is None ==> vectors_problem(config, document) is None,
        document.vectors matches Some(v) ==> (vectors_problem(config, document) is None <==> {
            &&& v@.len() > 0
            &&& forall|i: int|
                0 <= i < v@.len() ==> #[trigger] fits_its_slot(config.vectors@, v@, i)
            &&& forall|slot: Slot| #[trigger]
                expected_slots(config.vectors@).contains(slot) ==> holds_slot(v@, slot)
            &&& forall|i: int|
                0 <= i < v@.len() ==> !custom_has(
                    document,
                    ((#[trigger] v@[i]).vector_name@, v@[i].field),
                )
        }),
{
    if let Some(v) = document.vectors {
        let vs = v@;
        let configs = config.vectors@;
        lemma_entries(configs, vs);
        lemma_missing(expected_slots(configs), vs);
        lemma_overlap(document, vs);
        assert forall|i: int| 0 <= i < vs.len() implies (entry_problem(
            configs,
            vs.take(i),
            #[trigger] vs[i],
        ) is None <==> fits_its_slot(configs, vs, i)) by {
            lemma_entry_fits(configs, vs, i);
        }
        assert forall|slot: Slot| #[trigger] expected_slots(configs).contains(slot) implies (
        provided(vs, slot) <==> holds_slot(vs, slot)) by {
            lemma_holds_slot(vs, slot);
        }
        if entries_problem(configs, vs) is None {
            assert forall|i: int| 0 <= i < vs.len() implies #[trigger] fits_its_slot(
                configs,
                vs,
                i,
            ) by {
                assert(entry_problem(configs, vs.take(i), vs[i]) is None);
            }
        }
        if forall|i: int| 0 <= i < vs.len() ==> #[trigger] fits_its_slot(configs, vs, i) {
            assert forall|i: int| 0 <= i < vs.len() implies entry_problem(
                configs,
                vs.take(i),
                #[trigger] vs[i],
            ) is None by {
                assert(fits_its_slot(configs, vs, i));
            }
        }
    }
}

proof fn lemma_entry_fits(configs: Seq<VectorConfigInternal>, vs: Seq<VectorData>, i: int)
    requires
        0 <= i < vs.len(),
    ensures
        entry_problem(configs, vs.take(i), vs[i]) is None <==> fits_its_slot(configs, vs, i),
{
    let before = vs.take(i);
    let slot = slot_of(vs[i]);
    assert(forall|k: int| 0 <= k < before.len() ==> #[trigger] before[k] == vs[k]);
    lemma_holds_slot(before, slot);
    if holds_slot(before, slot) {
        let k = choose|k: int|
            0 <= k < before.len() && (#[trigger] before[k]).vector_name@ == slot.0
                && before[k].field == slot.1;
        assert(vs[k].vector_name@ == vs[i].vector_name@ && vs[k].field == vs[i].field);
    }
    if exists|k: int|
        0 <= k < i && (#[trigger] vs[k]).vector_name@ == vs[i].vector_name@ && vs[k].field
            == vs[i].field {
        let k = choose|k: int|
            0 <= k < i && (#[trigger] vs[k]).vector_name@ == vs[i].vector_name@ && vs[k].field
                == vs[i].field;
        assert(before[k].vector_name@ == slot.0);
    }
}

proof fn lemma_holds_slot(vs: Seq<VectorData>, slot: Slot)
    ensures
        provided(vs, slot) <==> holds_slot(vs, slot),
{
    if provided(vs, slot) {
        let i = choose|i: int| 0 <= i < vs.len() && slot_of(#[trigger] vs[i]) == slot;
        assert(vs[i].vector_name@ == slot.0 && vs[i].field == slot.1);
    }
    if holds_slot(vs, slot) {
        let i = choose|i: int|
            0 <= i < vs.len() && (#[trigger] vs[i]).vector_name@ == slot.0 && vs[i].field
                == slot.1;
        assert(slot_of(vs[i]) == slot);
    }
}

proof fn lemma_entries(configs: Seq<VectorConfigInternal>, vs: Seq<VectorData>)
    ensures
        entries_problem(configs, vs) is None <==> forall|i: int|
            0 <= i < vs.len() ==> entry_problem(configs, vs.take(i), #[trigger] vs[i]) is None,
    decreases vs.len(),
{
    if vs.len() > 0 {
        let init = vs.drop_last();
        lemma_entries(configs, init);
        let last = vs.len() - 1;
        assert(vs.take(last) =~= init);
        assert(vs[last] == vs.last());
        assert forall|i: int| 0 <= i < init.len() implies (#[trigger] init[i]) == vs[i]
            && init.take(i) == vs.take(i) by {
            assert(init.take(i) =~= vs.take(i));
        }
        if entries_problem(configs, vs) is None {
            assert forall|i: int| 0 <= i < vs.len() implies entry_problem(
                configs,
                vs.take(i),
                #[trigger] vs[i],
            ) is None by {
                if i < init.len() {
                    assert(entry_problem(configs, init.take(i), init[i]) is None);
                }
            }
        }
        if forall|i: int|
            0 <= i < vs.len() ==> entry_problem(configs, vs.take(i), #[trigger] vs[i]) is None {
            assert forall|i: int| 0 <= i < init.len() implies entry_problem(
                configs,
                init.take(i),
                #[trigger] init[i],
            ) is None by {
                assert(entry_problem(configs, vs.take(i), vs[i]) is None);
            }
            assert(entry_problem(configs, vs.take(last), vs[last]) is None);
        }
    }
}

proof fn lemma_missing(slots: Seq<Slot>, vs: Seq<VectorData>)
    ensures
        missing_labels(slots, vs).len() == 0 <==> forall|slot: Slot| #[trigger]
            slots.contains(slot) ==> provided(vs, slot),
    decreases slots.len(),
{
    if slots.len() > 0 {
        let init = slots.drop_last();
        lemma_missing(init, vs);
        let last = slots.len() - 1;
        assert(slots.contains(slots[last]));
        if missing_labels(slots, vs).len() == 0 {
            assert forall|slot: Slot| #[trigger] slots.contains(slot) implies provided(vs, slot) by {
                let k = choose|k: int| 0 <= k < slots.len() && slots[k] == slot;
                if k < init.len() {
                    assert(init[k] == slot);
                    assert(init.contains(slot));
                }
            }
        }
        if forall|slot: Slot| #[trigger] slots.contains(slot) ==> provided(vs, slot) {
            assert forall|slot: Slot| #[trigger] init.contains(slot) implies provided(vs, slot) by {
                let k = choose|k: int| 0 <= k < init.len() && init[k] == slot;
                assert(slots[k] == slot);
                assert(slots.contains(slot));
            }
        }
    }
}

proof fn lemma_overlap(document: Document, vs: Seq<VectorData>)
    ensures
        overlap_labels(document, vs).len() == 0 <==> forall|i: int|
            0 <= i < vs.len() ==> !custom_has(document, slot_of(#[trigger] vs[i])),
    decreases vs.len(),
{
    if vs.len() > 0 {
        let init = vs.drop_last();
        lemma_overlap(document, init);
        let last = vs.len() - 1;
        assert(forall|i: int| 0 <= i < init.len() ==> #[trigger] init[i] == vs[i]);
        assert(vs[last] == vs.last());
        if overlap_labels(document, vs).len() == 0 {
            assert forall|i: int| 0 <= i < vs.len() implies !custom_has(
                document,
                slot_of(#[trigger] vs[i]),
            ) by {
                if i < init.len() {
                    assert(!custom_has(document, slot_of(init[i])));
                }
            }
        }
        if forall|i: int|
            0 <= i < vs.len() ==> !custom_has(document, slot_of(#[trigger] vs[i])) {
            assert(!custom_has(document, slot_of(vs[last])));
        }
    }
}

} // verus!
