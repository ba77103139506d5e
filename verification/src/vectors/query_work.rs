//! Making the vectors of queries: which vectors a search asks for, what is to
//! be embedded for them, and what becomes of the embeddings.

use vstd::prelude::*;

use crate::common::{DocumentField, VectorType};
use crate::json::Double;
use crate::model_validation;
use crate::models::{
    CustomVector, VectorConfigInternal, VectorData, VectorSearchOption,
    DEFAULT_WMTR_TRIGRAM_WEIGHT_BITS,
};
use crate::templates;
use crate::templates::{field_slots, render_query_template, resolve_search_field};
use crate::text;
use crate::text::{
    char_count, copy_texts, decimal_text, joined, opt_text, same_text, text3, text4, text5, trimmed,
};
use crate::validation;
use crate::vectors::custom;
use crate::vectors::custom::{CustomDenseVector, CustomSparseVector};
use crate::vectors::document_work;
use crate::vectors::document_work::{routed_vectors, RoutedEmbed};
use crate::vectors::embedded;
use crate::vectors::embedded::{vector_data, Embedded, EmbeddedView};

verus! {

/// The average length that queries are taken to have, the double 5.0.
pub const QUERY_AVERAGE_BITS: u64 = 0x4014_0000_0000_0000;

/// What is wrong with the texts of queries: that there are none, or that one is
/// blank.
pub open spec fn texts_problem(texts: Seq<Seq<char>>) -> Option<Seq<char>> {
    if texts.len() == 0 {
        Some("Search query batch cannot be empty"@)
    } else if exists|i: int| 0 <= i < texts.len() && text::trim(#[trigger] texts[i]).len() == 0 {
        Some("Search query cannot be empty"@)
    } else {
        None
    }
}

/// The first of the client's own dense vectors without dimensions.
pub open spec fn dimensions_problem(configs: Seq<VectorConfigInternal>) -> Option<Seq<char>>
    decreases configs.len(),
{
    if configs.len() == 0 {
        None
    } else if configs[0].vector_type is DenseCustom && configs[0].dimensions is None {
        Some(
            "Dense custom vector '"@ + configs[0].name@
                + "' requires dimensions to be specified"@,
        )
    } else {
        dimensions_problem(configs.drop_first())
    }
}

/// What is wrong with a batch of queries. Dimensions are asked for only where
/// the configurations are being validated.
pub open spec fn batch_problem(
    texts: Seq<Seq<char>>,
    configs: Seq<VectorConfigInternal>,
    validating: bool,
) -> Option<Seq<char>> {
    validation::first(
        texts_problem(texts),
        if validating {
            dimensions_problem(configs)
        } else {
            None
        },
    )
}

/// Checks a batch of queries.
pub fn check_batch(
    texts: &Vec<String>,
    configs: &Vec<VectorConfigInternal>,
    validating: bool,
) -> (r: Option<String>)
    ensures
        text::opt_view(r) == batch_problem(text::views(texts@), configs@, validating),
{
    let ghost all = text::views(texts@);
    if texts.len() == 0 {
        return Some("Search query batch cannot be empty".to_owned());
    }
    let mut i: usize = 0;
    while i < texts.len()
        invariant
            i <= texts@.len(),
            texts@.len() > 0,
            all == text::views(texts@),
            forall|k: int| 0 <= k < i ==> text::trim(#[trigger] all[k]).len() > 0,
        decreases texts.len() - i,
    {
        let t = trimmed(texts[i].as_str());
        if char_count(t.as_str()) == 0 {
            assert(text::trim(all[i as int]).len() == 0);
            return Some("Search query cannot be empty".to_owned());
        }
        assert(text::trim(all[i as int]).len() > 0);
        i += 1;
    }
    assert(texts_problem(all) is None);
    if !validating {
        return None;
    }
    let mut c: usize = 0;
    assert(configs@.skip(0) =~= configs@);
    while c < configs.len()
        invariant
            c <= configs@.len(),
            validating,
            all == text::views(texts@),
            texts_problem(all) is None,
            dimensions_problem(configs@) == dimensions_problem(configs@.skip(c as int)),
        decreases configs.len() - c,
    {
        assert(configs@.skip(c as int)[0] == configs@[c as int]);
        assert(configs@.skip(c as int).drop_first() =~= configs@.skip(c as int + 1));
        if matches!(configs[c].vector_type, VectorType::DenseCustom)
            && configs[c].dimensions.is_none() {
            return Some(
                text3(
                    "Dense custom vector '",
                    configs[c].name.as_str(),
                    "' requires dimensions to be specified",
                ),
            );
        }
        c += 1;
    }
    None
}

/// The different ones of a vector's fields, in the order of first appearance.
pub open spec fn different(s: Seq<(Seq<char>, DocumentField)>) -> Seq<(Seq<char>, DocumentField)>
    decreases s.len(),
{
    if s.len() == 0 {
        Seq::empty()
    } else {
        let rest = different(s.drop_last());
        if rest.contains(s.last()) {
            rest
        } else {
            rest.push(s.last())
        }
    }
}

/// Whether an option asks for a field of a vector with a weight.
pub open spec fn weighs(
    o: VectorSearchOption,
    slot: (Seq<char>, DocumentField),
    weight: Double,
) -> bool {
    &&& o.vector_name@ == slot.0
    &&& o.field == Some(slot.1)
    &&& o.weight == weight
    &&& o.wmtr_trigram_weight.bits == DEFAULT_WMTR_TRIGRAM_WEIGHT_BITS
}

/// Whether options ask for fields, all with one weight.
pub open spec fn weigh_alike(
    options: Seq<VectorSearchOption>,
    slots: Seq<(Seq<char>, DocumentField)>,
    weight: Double,
) -> bool {
    &&& options.len() == slots.len()
    &&& forall|i: int| 0 <= i < options.len() ==> weighs(#[trigger] options[i], slots[i], weight)
}

fn has_option(options: &Vec<VectorSearchOption>, name: &str, field: DocumentField) -> (r: bool)
    ensures
        r == exists|i: int|
            0 <= i < options@.len() && (#[trigger] options@[i]).vector_name@ == name@
                && options@[i].field == Some(field),
{
    let mut i: usize = 0;
    while i < options.len()
        invariant
            i <= options@.len(),
            forall|k: int|
                0 <= k < i ==> !((#[trigger] options@[k]).vector_name@ == name@ && options@[k].field
                    == Some(field)),
        decreases options.len() - i,
    {
        if same_text(options[i].vector_name.as_str(), name) {
            if let Some(f) = options[i].field {
                if f == field {
                    return true;
                }
            }
        }
        i += 1;
    }
    false
}

/// The options of a search that names none: for every field of every vector,
/// each with the same weight.
pub fn default_options(configs: &Vec<VectorConfigInternal>, weight: Double) -> (r: Vec<
    VectorSearchOption,
>)
    ensures
        weigh_alike(r@, different(model_validation::all_fields(configs@)), weight),
{
    let mut out: Vec<VectorSearchOption> = Vec::new();
    let mut c: usize = 0;
    assert(configs@.take(0) =~= Seq::empty());
    while c < configs.len()
        invariant
            c <= configs@.len(),
            weigh_alike(
                out@,
                different(model_validation::all_fields(configs@.take(c as int))),
                weight,
            ),
        decreases configs.len() - c,
    {
        let config = &configs[c];
        let ghost fields = config.slots();
        let ghost earlier = model_validation::all_fields(configs@.take(c as int));
        let ghost row = Seq::new(fields.len(), |i: int| (config.name@, fields[i]));
        proof {
            let next = configs@.take(c as int + 1);
            assert(next.drop_last() =~= configs@.take(c as int));
            assert(next.last() == *config);
            assert(earlier + row.take(0) =~= earlier);
        }
        let list = field_slots(config);
        let mut k: usize = 0;
        while k < list.len()
            invariant
                k <= list@.len(),
                list@ == fields,
                row == Seq::new(fields.len(), |i: int| (config.name@, fields[i])),
                weigh_alike(out@, different(earlier + row.take(k as int)), weight),
            decreases list.len() - k,
        {
            let ghost so_far = earlier + row.take(k as int);
            let ghost slots = different(so_far);
            let ghost slot = (config.name@, list@[k as int]);
            proof {
                let next = earlier + row.take(k as int + 1);
                assert(next.drop_last() =~= so_far);
                assert(next.last() == slot);
            }
            if !has_option(&out, config.name.as_str(), list[k]) {
                proof {
                    if slots.contains(slot) {
                        let i = choose|i: int| 0 <= i < slots.len() && slots[i] == slot;
                        assert(weighs(out@[i], slots[i], weight));
                    }
                }
                out.push(
                    VectorSearchOption {
                        vector_name: config.name.as_str().to_owned(),
                        weight,
                        field: Some(list[k]),
                        wmtr_trigram_weight: Double { bits: DEFAULT_WMTR_TRIGRAM_WEIGHT_BITS },
                    },
                );
            } else {
                proof {
                    let i = choose|i: int|
                        0 <= i < out@.len() && (#[trigger] out@[i]).vector_name@ == config.name@
                            && out@[i].field == Some(list@[k as int]);
                    assert(weighs(out@[i], slots[i], weight));
                    assert(slots[i] == slot);
                    assert(slots.contains(slot));
                }
            }
            k += 1;
        }
        assert(row.take(row.len() as int) =~= row);
        c += 1;
    }
    assert(configs@.take(configs@.len() as int) =~= configs@);
    out
}

/// The last configuration with a name.
pub open spec fn config_index(configs: Seq<VectorConfigInternal>, name: Seq<char>) -> Option<int>
    decreases configs.len(),
{
    if configs.len() == 0 {
        None
    } else if configs.last().name@ == name {
        Some(configs.len() - 1)
    } else {
        config_index(configs.drop_last(), name)
    }
}

fn find_config(configs: &Vec<VectorConfigInternal>, name: &str) -> (r: Option<usize>)
    ensures
        match r {
            Some(c) => config_index(configs@, name@) == Some(c as int) && c < configs@.len(),
            None => config_index(configs@, name@) is None,
        },
{
    let mut i: usize = configs.len();
    assert(configs@.take(configs@.len() as int) =~= configs@);
    while i > 0
        invariant
            i <= configs@.len(),
            config_index(configs@, name@) == config_index(configs@.take(i as int), name@),
        decreases i,
    {
        proof {
            let s = configs@.take(i as int);
            assert(s.last() == configs@[i - 1]);
            assert(s.drop_last() =~= configs@.take(i - 1));
        }
        i -= 1;
        if same_text(configs[i].name.as_str(), name) {
            return Some(i);
        }
    }
    None
}

/// The different names of configurations, in the order of first appearance.
pub open spec fn names_of(configs: Seq<VectorConfigInternal>) -> Seq<Seq<char>>
    decreases configs.len(),
{
    if configs.len() == 0 {
        Seq::empty()
    } else {
        let rest = names_of(configs.drop_last());
        if rest.contains(configs.last().name@) {
            rest
        } else {
            rest.push(configs.last().name@)
        }
    }
}

fn collect_names(configs: &Vec<VectorConfigInternal>) -> (r: Vec<String>)
    ensures
        text::views(r@) == names_of(configs@),
{
    let mut out: Vec<String> = Vec::new();
    let mut i: usize = 0;
    assert(configs@.take(0) =~= Seq::empty());
    assert(text::views(out@) =~= Seq::empty());
    while i < configs.len()
        invariant
            i <= configs@.len(),
            text::views(out@) == names_of(configs@.take(i as int)),
        decreases configs.len() - i,
    {
        proof {
            let next = configs@.take(i as int + 1);
            assert(next.drop_last() =~= configs@.take(i as int));
            assert(next.last() == configs@[i as int]);
        }
        if !text::text_in(&out, configs[i].name.as_str()) {
            let ghost before = text::views(out@);
            out.push(configs[i].name.as_str().to_owned());
            assert(text::views(out@) =~= before.push(configs@[i as int].name@));
        }
        i += 1;
    }
    assert(configs@.take(configs@.len() as int) =~= configs@);
    out
}

/// A field of a configuration: its position and the field.
#[derive(Debug, Clone, Copy, PartialEq, Eq, Structural)]
pub struct Slot {
    pub config: usize,
    pub field: DocumentField,
}

/// What an option asks for.
pub open spec fn asked_slot(configs: Seq<VectorConfigInternal>, o: VectorSearchOption) -> Result<
    Slot,
    Seq<char>,
> {
    match config_index(configs, o.vector_name@) {
        None => Err(
            "Vector configuration '"@ + o.vector_name@ + "' not found. Available vectors: "@
                + text::join(names_of(configs), ", "@),
        ),
        Some(c) => match templates::search_field(configs[c], o.field) {
            Ok(field) => Ok(Slot { config: c as usize, field }),
            Err(e) => Err(e),
        },
    }
}

fn resolve_option(configs: &Vec<VectorConfigInternal>, o: &VectorSearchOption) -> (r: Result<
    Slot,
    String,
>)
    ensures
        match r {
            Ok(s) => asked_slot(configs@, *o) == Ok::<Slot, Seq<char>>(s) && s.config
                < configs@.len(),
            Err(e) => asked_slot(configs@, *o) == Err::<Slot, Seq<char>>(e@),
        },
{
    match find_config(configs, o.vector_name.as_str()) {
        None => {
            let names = collect_names(configs);
            let list = joined(&names, ", ");
            Err(
                text4(
                    "Vector configuration '",
                    o.vector_name.as_str(),
                    "' not found. Available vectors: ",
                    list.as_str(),
                ),
            )
        },
        Some(c) => match resolve_search_field(&configs[c], o.field) {
            Ok(field) => Ok(Slot { config: c, field }),
            Err(e) => Err(e),
        },
    }
}

/// The different fields that options ask for, up to the first that cannot be
/// had. An option with no weight asks for nothing.
pub open spec fn asked_slots(
    configs: Seq<VectorConfigInternal>,
    options: Seq<VectorSearchOption>,
) -> Result<Seq<Slot>, Seq<char>>
    decreases options.len(),
{
    if options.len() == 0 {
        Ok(Seq::empty())
    } else {
        match asked_slots(configs, options.drop_last()) {
            Err(e) => Err(e),
            Ok(rest) => if options.last().weight.equals(Double::zero()) {
                Ok(rest)
            } else {
                match asked_slot(configs, options.last()) {
                    Err(e) => Err(e),
                    Ok(s) => if rest.contains(s) {
                        Ok(rest)
                    } else {
                        Ok(rest.push(s))
                    },
                }
            },
        }
    }
}

proof fn lemma_asked_fails(
    configs: Seq<VectorConfigInternal>,
    options: Seq<VectorSearchOption>,
    n: int,
)
    requires
        0 <= n <= options.len(),
        asked_slots(configs, options.take(n)) is Err,
    ensures
        asked_slots(configs, options) == asked_slots(configs, options.take(n)),
    decreases options.len(),
{
    if n < options.len() {
        assert(options.drop_last().take(n) =~= options.take(n));
        lemma_asked_fails(configs, options.drop_last(), n);
    } else {
        assert(options.take(n) =~= options);
    }
}

fn collect_slots(configs: &Vec<VectorConfigInternal>, options: &Vec<VectorSearchOption>) -> (r:
    Result<Vec<Slot>, String>)
    ensures
        match r {
            Ok(s) => asked_slots(configs@, options@) == Ok::<Seq<Slot>, Seq<char>>(s@)
                && forall|i: int| 0 <= i < s@.len() ==> (#[trigger] s@[i]).config < configs@.len(),
            Err(e) => asked_slots(configs@, options@) == Err::<Seq<Slot>, Seq<char>>(e@),
        },
{
    let zero = Double { bits: 0 };
    let mut out: Vec<Slot> = Vec::new();
    let mut i: usize = 0;
    assert(options@.take(0) =~= Seq::empty());
    assert(out@ =~= Seq::empty());
    while i < options.len()
        invariant
            i <= options@.len(),
            zero == Double::zero(),
            asked_slots(configs@, options@.take(i as int)) == Ok::<Seq<Slot>, Seq<char>>(out@),
            forall|k: int| 0 <= k < out@.len() ==> (#[trigger] out@[k]).config < configs@.len(),
        decreases options.len() - i,
    {
        proof {
            let next = options@.take(i as int + 1);
            assert(next.drop_last() =~= options@.take(i as int));
            assert(next.last() == options@[i as int]);
        }
        if !options[i].weight.same(&zero) {
            match resolve_option(configs, &options[i]) {
                Ok(s) => {
                    let mut k: usize = 0;
                    while k < out.len() && out[k] != s
                        invariant
                            k <= out@.len(),
                            forall|j: int| 0 <= j < k ==> out@[j] != s,
                        decreases out.len() - k,
                    {
                        k += 1;
                    }
                    if k == out.len() {
                        out.push(s);
                    } else {
                        assert(out@.contains(out@[k as int]));
                    }
                },
                Err(e) => {
                    proof {
                        lemma_asked_fails(configs@, options@, i as int + 1);
                    }
                    return Err(e);
                },
            }
        }
        i += 1;
    }
    assert(options@.take(options@.len() as int) =~= options@);
    Ok(out)
}

/// The vectors that one embedding of the queries is for: a configuration and
/// some of its fields.
#[derive(Debug, PartialEq, Eq)]
pub struct WorkItem {
    pub config: usize,
    pub fields: Vec<DocumentField>,
    pub trigram_weight: Double,
}

/// What an item is for.
pub open spec fn item_view(w: WorkItem) -> (int, Seq<DocumentField>, Double) {
    (w.config as int, w.fields@, w.trigram_weight)
}

/// What items are for.
pub open spec fn item_views(v: Seq<WorkItem>) -> Seq<(int, Seq<DocumentField>, Double)> {
    Seq::new(v.len(), |i: int| item_view(v[i]))
}

/// The trigram weight of vectors that have none of their own, the double 1.0.
pub open spec fn default_trigram_weight() -> Double {
    Double { bits: DEFAULT_WMTR_TRIGRAM_WEIGHT_BITS }
}

/// The position of the item of a configuration, or the number of items.
pub open spec fn item_index(v: Seq<(int, Seq<DocumentField>, Double)>, config: int) -> int
    decreases v.len(),
{
    if v.len() == 0 || v[0].0 == config {
        0
    } else {
        1 + item_index(v.drop_first(), config)
    }
}

/// The items with one more field for a configuration.
pub open spec fn with_field(
    v: Seq<(int, Seq<DocumentField>, Double)>,
    config: int,
    field: DocumentField,
) -> Seq<(int, Seq<DocumentField>, Double)> {
    let i = item_index(v, config);
    if 0 <= i < v.len() {
        v.update(i, (v[i].0, v[i].1.push(field), v[i].2))
    } else {
        v.push((config, seq![field], default_trigram_weight()))
    }
}

/// The items for what is not weighted by trigrams: one for each configuration.
pub open spec fn plain_items(configs: Seq<VectorConfigInternal>, slots: Seq<Slot>) -> Seq<
    (int, Seq<DocumentField>, Double),
>
    decreases slots.len(),
{
    if slots.len() == 0 {
        Seq::empty()
    } else {
        let rest = plain_items(configs, slots.drop_last());
        let s = slots.last();
        if configs[s.config as int].vector_type is Wmtr {
            rest
        } else {
            with_field(rest, s.config as int, s.field)
        }
    }
}

/// The trigram weight of a field: that of the last option that asks for it.
pub open spec fn trigram_weight_of(
    configs: Seq<VectorConfigInternal>,
    options: Seq<VectorSearchOption>,
    s: Slot,
) -> Double
    decreases options.len(),
{
    if options.len() == 0 {
        default_trigram_weight()
    } else if asked_slot(configs, options.last()) == Ok::<Slot, Seq<char>>(s) {
        options.last().wmtr_trigram_weight
    } else {
        trigram_weight_of(configs, options.drop_last(), s)
    }
}

/// The items for what is weighted by trigrams: one for each field.
pub open spec fn trigram_items(
    configs: Seq<VectorConfigInternal>,
    options: Seq<VectorSearchOption>,
    slots: Seq<Slot>,
) -> Seq<(int, Seq<DocumentField>, Double)>
    decreases slots.len(),
{
    if slots.len() == 0 {
        Seq::empty()
    } else {
        let rest = trigram_items(configs, options, slots.drop_last());
        let s = slots.last();
        if configs[s.config as int].vector_type is Wmtr {
            rest.push((s.config as int, seq![s.field], trigram_weight_of(configs, options, s)))
        } else {
            rest
        }
    }
}

fn add_field(items: &mut Vec<WorkItem>, config: usize, field: DocumentField)
    ensures
        item_views(final(items)@) == with_field(item_views(old(items)@), config as int, field),
        forall|i: int|
            0 <= i < final(items)@.len() ==> (#[trigger] final(items)@[i]).config == config || (i
                < old(items)@.len() && final(items)@[i].config == old(items)@[i].config),
{
    let ghost all = item_views(items@);
    let mut i: usize = 0;
    assert(all.skip(0) =~= all);
    while i < items.len()
        invariant
            i <= items@.len(),
            items@ == old(items)@,
            all == item_views(items@),
            item_index(all, config as int) == i + item_index(all.skip(i as int), config as int),
        decreases items.len() - i,
    {
        assert(all.skip(i as int)[0] == item_view(items@[i as int]));
        assert(all.skip(i as int).drop_first() =~= all.skip(i as int + 1));
        if items[i].config == config {
            let ghost before = items@[i as int].fields@;
            let mut fields: Vec<DocumentField> = Vec::new();
            std::mem::swap(&mut fields, &mut items[i].fields);
            fields.push(field);
            items[i].fields = fields;
            assert(item_views(items@) =~= all.update(
                i as int,
                (all[i as int].0, before.push(field), all[i as int].2),
            ));
            return ;
        }
        i += 1;
    }
    let fields = vec![field];
    assert(fields@ =~= seq![field]);
    items.push(
        WorkItem {
            config,
            fields,
            trigram_weight: Double { bits: DEFAULT_WMTR_TRIGRAM_WEIGHT_BITS },
        },
    );
    assert(item_views(items@) =~= all.push(
        (config as int, seq![field], default_trigram_weight()),
    ));
}

fn find_trigram_weight(
    configs: &Vec<VectorConfigInternal>,
    options: &Vec<VectorSearchOption>,
    s: Slot,
) -> (r: Double)
    ensures
        r == trigram_weight_of(configs@, options@, s),
{
    let mut i: usize = options.len();
    assert(options@.take(options@.len() as int) =~= options@);
    while i > 0
        invariant
            i <= options@.len(),
            trigram_weight_of(configs@, options@, s) == trigram_weight_of(
                configs@,
                options@.take(i as int),
                s,
            ),
        decreases i,
    {
        proof {
            let t = options@.take(i as int);
            assert(t.last() == options@[i - 1]);
            assert(t.drop_last() =~= options@.take(i - 1));
        }
        i -= 1;
        if let Ok(found) = resolve_option(configs, &options[i]) {
            if found == s {
                return options[i].wmtr_trigram_weight;
            }
        }
    }
    Double { bits: DEFAULT_WMTR_TRIGRAM_WEIGHT_BITS }
}

fn group_slots(
    configs: &Vec<VectorConfigInternal>,
    options: &Vec<VectorSearchOption>,
    slots: &Vec<Slot>,
) -> (r: Vec<WorkItem>)
    requires
        forall|i: int| 0 <= i < slots@.len() ==> (#[trigger] slots@[i]).config < configs@.len(),
    ensures
        item_views(r@) == plain_items(configs@, slots@) + trigram_items(
            configs@,
            options@,
            slots@,
        ),
        forall|i: int| 0 <= i < r@.len() ==> (#[trigger] r@[i]).config < configs@.len(),
{
    let mut plain: Vec<WorkItem> = Vec::new();
    let mut weighted: Vec<WorkItem> = Vec::new();
    let mut i: usize = 0;
    assert(slots@.take(0) =~= Seq::empty());
    assert(item_views(plain@) =~= Seq::empty());
    while i < slots.len()
        invariant
            i <= slots@.len(),
            forall|k: int| 0 <= k < slots@.len() ==> (#[trigger] slots@[k]).config < configs@.len(),
            item_views(plain@) == plain_items(configs@, slots@.take(i as int)),
            item_views(weighted@) == trigram_items(configs@, options@, slots@.take(i as int)),
            forall|k: int| 0 <= k < plain@.len() ==> (#[trigger] plain@[k]).config < configs@.len(),
            forall|k: int|
                0 <= k < weighted@.len() ==> (#[trigger] weighted@[k]).config < configs@.len(),
        decreases slots.len() - i,
    {
        let s = slots[i];
        proof {
            let next = slots@.take(i as int + 1);
            assert(next.drop_last() =~= slots@.take(i as int));
            assert(next.last() == s);
        }
        if matches!(configs[s.config].vector_type, VectorType::Wmtr) {
            let trigram_weight = find_trigram_weight(configs, options, s);
            let fields = vec![s.field];
            let ghost before = item_views(weighted@);
            assert(fields@ =~= seq![s.field]);
            weighted.push(WorkItem { config: s.config, fields, trigram_weight });
            assert(item_views(weighted@) =~= before.push(
                (s.config as int, seq![s.field], trigram_weight),
            ));
        } else {
            add_field(&mut plain, s.config, s.field);
        }
        i += 1;
    }
    assert(slots@.take(slots@.len() as int) =~= slots@);
    let ghost head = plain@;
    let ghost tail = weighted@;
    plain.append(&mut weighted);
    assert(plain@ =~= head + tail);
    assert(item_views(plain@) =~= item_views(head) + item_views(tail));
    plain
}

/// The number of vectors of a search that names none.
pub fn default_count(configs: &Vec<VectorConfigInternal>) -> (r: usize)
    ensures
        r == different(model_validation::all_fields(configs@)).len(),
{
    default_options(configs, Double { bits: 0 }).len()
}

/// Finds what is to be embedded for a search. A search that names no options
/// gets them for all fields, each with the given weight.
pub fn plan_queries(
    options: &mut Vec<VectorSearchOption>,
    configs: &Vec<VectorConfigInternal>,
    equal_weight: Double,
) -> (r: Result<Vec<WorkItem>, String>)
    requires
        !equal_weight.equals(Double::zero()),
    ensures
        if old(options)@.len() > 0 {
            final(options)@ == old(options)@
        } else {
            weigh_alike(
                final(options)@,
                different(model_validation::all_fields(configs@)),
                equal_weight,
            )
        },
        match asked_slots(configs@, final(options)@) {
            Err(e) => r matches Err(f) && f@ == e,
            Ok(slots) => {
                &&& r matches Ok(items)
                &&& item_views(items@) == plain_items(configs@, slots) + trigram_items(
                    configs@,
                    final(options)@,
                    slots,
                )
                &&& forall|i: int|
                    0 <= i < items@.len() ==> (#[trigger] items@[i]).config < configs@.len()
            },
        },
{
    if options.len() == 0 {
        *options = default_options(configs, equal_weight);
    }
    match collect_slots(configs, options) {
        Ok(slots) => Ok(group_slots(configs, options, &slots)),
        Err(e) => Err(e),
    }
}

/// What there is to do for one vector of queries.
#[derive(Debug, PartialEq, Eq)]
pub enum QueryWork {
    /// To embed texts with a model, with the average length for each where words
    /// count.
    Embed {
        texts: Vec<String>,
        model: Option<String>,
        revision: Option<String>,
        average: Option<Double>,
    },
    /// Nothing: the query brought its vector along, or needs none.
    Ready(Option<Embedded>),
}

/// The model and its revision for queries.
pub open spec fn query_model(config: VectorConfigInternal) -> (
    Option<Seq<char>>,
    Option<Seq<char>>,
) {
    if (config.vector_type is DenseModel || config.vector_type is SparseModel)
        && config.query_model is Some {
        (text::opt_view(config.query_model), text::opt_view(config.query_revision))
    } else {
        (text::opt_view(config.model), text::opt_view(config.revision))
    }
}

/// The texts that a vector of queries is made of: the queries themselves, or
/// those by the template of a vector that has templates.
pub open spec fn query_texts(config: VectorConfigInternal, texts: Seq<Seq<char>>) -> Seq<
    Seq<char>,
> {
    match (config.doc_template, config.query_template) {
        (Some(_), Some(t)) => Seq::new(
            texts.len(),
            |i: int| templates::replaced(t@, templates::QUERY_PLACEHOLDER@, texts[i]),
        ),
        _ => texts,
    }
}

fn render_queries(config: &VectorConfigInternal, texts: &Vec<String>) -> (r: Vec<String>)
    ensures
        text::views(r@) == query_texts(*config, text::views(texts@)),
{
    match (&config.doc_template, &config.query_template) {
        (Some(_), Some(t)) => {
            let ghost all = query_texts(*config, text::views(texts@));
            let mut out: Vec<String> = Vec::new();
            let mut i: usize = 0;
            while i < texts.len()
                invariant
                    i <= texts@.len(),
                    config.doc_template is Some,
                    config.query_template == Some(*t),
                    all == query_texts(*config, text::views(texts@)),
                    text::views(out@) == all.take(i as int),
                decreases texts.len() - i,
            {
                let ghost before = text::views(out@);
                let rendered = render_query_template(t.as_str(), texts[i].as_str());
                out.push(rendered);
                proof {
                    assert(text::views(texts@)[i as int] == texts@[i as int]@);
                    assert(text::views(out@) =~= before.push(rendered@));
                    assert(all.take(i as int + 1) =~= all.take(i as int).push(all[i as int]));
                }
                i += 1;
            }
            assert(all.take(i as int) =~= all);
            out
        },
        _ => copy_texts(texts),
    }
}

/// Finds what there is to do for one vector of queries. Where configurations
/// are being validated, the client's own vectors are not asked for.
pub fn query_work(
    config: &VectorConfigInternal,
    texts: &Vec<String>,
    customs: &Option<Vec<CustomVector>>,
    validating: bool,
) -> (r: Result<QueryWork, String>)
    ensures
        if config.vector_type.spec_is_custom_vectors() {
            let sparse = config.vector_type is SparseCustom;
            if validating {
                r == Ok::<QueryWork, String>(QueryWork::Ready(None))
            } else {
                match *customs {
                    None => r matches Err(e) && e@ == "Custom "@ + custom::kind_word(sparse)
                        + " vector '"@ + config.name@
                        + "' requires custom vectors but query has none"@,
                    Some(list) => match custom::query_reading(*config, sparse, list@) {
                        Ok(v) => r matches Ok(QueryWork::Ready(Some(e))) && e@ == v,
                        Err(e) => r matches Err(f) && f@ == e,
                    },
                }
            }
        } else {
            &&& r matches Ok(QueryWork::Embed { texts: own, model, revision, average })
            &&& text::views(own@) == query_texts(*config, text::views(texts@))
            &&& (text::opt_view(model), text::opt_view(revision)) == query_model(*config)
            &&& average == (if config.vector_type.spec_is_custom_tokenization() {
                Some(Double { bits: QUERY_AVERAGE_BITS })
            } else {
                None
            })
        },
{
    if config.vector_type.is_custom_vectors() {
        if validating {
            return Ok(QueryWork::Ready(None));
        }
        let sparse = matches!(config.vector_type, VectorType::SparseCustom);
        let list = match customs {
            Some(list) => list,
            None => {
                let word = if sparse {
                    "sparse"
                } else {
                    "dense"
                };
                return Err(
                    text5(
                        "Custom ",
                        word,
                        " vector '",
                        config.name.as_str(),
                        "' requires custom vectors but query has none",
                    ),
                );
            },
        };
        let v = if sparse {
            CustomSparseVector::extract_for_query(config, list)
        } else {
            CustomDenseVector::extract_for_query(config, list)
        };
        return match v {
            Ok(e) => Ok(QueryWork::Ready(Some(e))),
            Err(e) => Err(e),
        };
    }
    let other = config.vector_type.is_transformer_based() && config.query_model.is_some();
    let (model, revision) = if other {
        (opt_text(&config.query_model), opt_text(&config.query_revision))
    } else {
        (opt_text(&config.model), opt_text(&config.revision))
    };
    let average = if config.vector_type.is_custom_tokenization() {
        Some(Double { bits: QUERY_AVERAGE_BITS })
    } else {
        None
    };
    Ok(QueryWork::Embed { texts: render_queries(config, texts), model, revision, average })
}

/// Whether each query has its vector for each of the fields.
pub open spec fn spread(
    config: VectorConfigInternal,
    fields: Seq<DocumentField>,
    vectors: Seq<EmbeddedView>,
    r: Seq<Vec<VectorData>>,
) -> bool {
    &&& r.len() == vectors.len()
    &&& forall|q: int|
        0 <= q < r.len() ==> has_fields(config, fields, vectors[q], (#[trigger] r[q])@)
}

/// Whether a query has a vector for each of the fields.
pub open spec fn has_fields(
    config: VectorConfigInternal,
    fields: Seq<DocumentField>,
    v: EmbeddedView,
    r: Seq<VectorData>,
) -> bool {
    &&& r.len() == fields.len()
    &&& forall|k: int|
        0 <= k < r.len() ==> embedded::holds(#[trigger] r[k], config, fields[k], v)
}

fn spread_one(config: &VectorConfigInternal, fields: &Vec<DocumentField>, v: &Embedded) -> (r: Vec<
    VectorData,
>)
    ensures
        has_fields(*config, fields@, v@, r@),
{
    let mut out: Vec<VectorData> = Vec::new();
    let mut k: usize = 0;
    while k < fields.len()
        invariant
            k <= fields@.len(),
            out@.len() == k,
            forall|j: int|
                0 <= j < k ==> embedded::holds(#[trigger] out@[j], *config, fields@[j], v@),
        decreases fields.len() - k,
    {
        out.push(vector_data(config, fields[k], v.duplicate()));
        k += 1;
    }
    out
}

/// Gives each of `n` queries the vector that they share, for each of the
/// fields; or none.
pub fn spread_ready(
    config: &VectorConfigInternal,
    fields: &Vec<DocumentField>,
    n: usize,
    v: &Option<Embedded>,
) -> (r: Vec<Vec<VectorData>>)
    ensures
        r@.len() == n,
        match *v {
            Some(e) => spread(*config, fields@, Seq::new(n as nat, |q: int| e@), r@),
            None => forall|q: int| 0 <= q < n ==> (#[trigger] r@[q])@.len() == 0,
        },
{
    let mut out: Vec<Vec<VectorData>> = Vec::new();
    let mut q: usize = 0;
    while q < n
        invariant
            q <= n,
            out@.len() == q,
            match *v {
                Some(e) => forall|k: int|
                    0 <= k < q ==> has_fields(*config, fields@, e@, (#[trigger] out@[k])@),
                None => forall|k: int| 0 <= k < q ==> (#[trigger] out@[k])@.len() == 0,
            },
        decreases n - q,
    {
        match v {
            Some(e) => {
                out.push(spread_one(config, fields, e));
            },
            None => {
                out.push(Vec::new());
            },
        }
        q += 1;
    }
    out
}

/// The first of the embeddings, from a query on, that has not as many numbers
/// as the configuration says.
pub open spec fn query_problem(
    config: VectorConfigInternal,
    vectors: Seq<EmbeddedView>,
    q: int,
) -> Option<Seq<char>>
    decreases vectors.len() - q,
{
    if q < 0 || q >= vectors.len() || config.dimensions is None {
        None
    } else if document_work::token_length(vectors[q]) != config.dimensions->0 {
        Some(
            "Specified dimensions "@ + text::decimal(config.dimensions->0 as nat)
                + " don't match generated dimensions "@ + text::decimal(
                document_work::token_length(vectors[q]) as nat,
            ) + (" for vector '"@ + config.name@ + "'"@),
        )
    } else {
        query_problem(config, vectors, q + 1)
    }
}

/// What becomes of the embeddings of queries, if they fail.
pub open spec fn queries_failure(
    config: VectorConfigInternal,
    n: nat,
    routed: RoutedEmbed,
) -> Option<Seq<char>> {
    let vectors = document_work::routed_views(routed);
    if config.vector_type is DenseModel {
        if routed is Sparse {
            Some("dense routing returned sparse"@)
        } else if vectors.len() != n {
            Some(
                "dense batch length "@ + text::decimal(vectors.len()) + " != query count "@
                    + text::decimal(n),
            )
        } else {
            query_problem(config, vectors, 0)
        }
    } else if routed is Dense {
        Some("sparse routing returned dense"@)
    } else if vectors.len() != n {
        Some(
            "sparse batch length "@ + text::decimal(vectors.len()) + " != query count "@
                + text::decimal(n),
        )
    } else {
        None
    }
}

fn check_queries(config: &VectorConfigInternal, vectors: &Vec<Embedded>) -> (r: Option<String>)
    ensures
        text::opt_view(r) == query_problem(*config, embedded::embedded_views(vectors@), 0),
{
    let dims = match config.dimensions {
        Some(dims) => dims,
        None => {
            return None;
        },
    };
    let ghost shown = embedded::embedded_views(vectors@);
    let mut q: usize = 0;
    while q < vectors.len()
        invariant
            q <= vectors@.len(),
            shown == embedded::embedded_views(vectors@),
            config.dimensions == Some(dims),
            query_problem(*config, shown, 0) == query_problem(*config, shown, q as int),
        decreases vectors.len() - q,
    {
        assert(shown[q as int] == vectors@[q as int]@);
        let length = match &vectors[q] {
            Embedded::Dense(v) => v.len(),
            Embedded::Sparse(i, _) => i.len(),
        };
        if length != dims as usize {
            let wanted = decimal_text(dims as u64);
            let found = decimal_text(length as u64);
            let tail = text3(" for vector '", config.name.as_str(), "'");
            return Some(
                text5(
                    "Specified dimensions ",
                    wanted.as_str(),
                    " don't match generated dimensions ",
                    found.as_str(),
                    tail.as_str(),
                ),
            );
        }
        q += 1;
    }
    None
}

/// Gives the queries their embeddings, for each of the fields.
pub fn finish_queries(
    config: &VectorConfigInternal,
    fields: &Vec<DocumentField>,
    n: usize,
    routed: RoutedEmbed,
) -> (r: Result<Vec<Vec<VectorData>>, String>)
    ensures
        match queries_failure(*config, n as nat, routed) {
            Some(e) => r matches Err(f) && f@ == e,
            None => r matches Ok(out) && out@.len() == n && spread(
                *config,
                fields@,
                document_work::routed_views(routed),
                out@,
            ),
        },
{
    let dense_model = matches!(config.vector_type, VectorType::DenseModel);
    let dense = matches!(routed, RoutedEmbed::Dense(_));
    if dense_model && !dense {
        return Err("dense routing returned sparse".to_owned());
    }
    if !dense_model && dense {
        return Err("sparse routing returned dense".to_owned());
    }
    let vectors = routed_vectors(routed);
    let ghost shown = embedded::embedded_views(vectors@);
    assert(shown.len() == vectors@.len());
    if vectors.len() != n {
        let found = decimal_text(vectors.len() as u64);
        let wanted = decimal_text(n as u64);
        let kind = if dense_model {
            "dense batch length "
        } else {
            "sparse batch length "
        };
        return Err(text4(kind, found.as_str(), " != query count ", wanted.as_str()));
    }
    if dense_model {
        if let Some(e) = check_queries(config, &vectors) {
            return Err(e);
        }
    }
    let mut out: Vec<Vec<VectorData>> = Vec::new();
    let mut q: usize = 0;
    while q < vectors.len()
        invariant
            q <= vectors@.len(),
            out@.len() == q,
            shown == embedded::embedded_views(vectors@),
            forall|k: int|
                0 <= k < q ==> has_fields(*config, fields@, shown[k], (#[trigger] out@[k])@),
        decreases vectors.len() - q,
    {
        assert(shown[q as int] == vectors@[q as int]@);
        out.push(spread_one(config, fields, &vectors[q]));
        q += 1;
    }
    Ok(out)
}

/// What is said of a vector of queries that could not be made.
pub fn item_failure(name: &str, e: &str) -> (r: String)
    ensures
        r@ == "Failed to generate vector '"@ + name@ + "': "@ + e@,
{
    text4("Failed to generate vector '", name, "': ", e)
}

/// The vectors of a query from all items.
pub open spec fn query_vectors(items: Seq<Vec<Vec<VectorData>>>, q: int) -> Seq<VectorData>
    decreases items.len(),
{
    if items.len() == 0 {
        Seq::empty()
    } else {
        query_vectors(items.drop_last(), q) + items.last()@[q]@
    }
}

/// Brings together the vectors of `n` queries from all items.
pub fn collect_vectors(n: usize, items: Vec<Vec<Vec<VectorData>>>) -> (r: Vec<Vec<VectorData>>)
    requires
        forall|i: int| 0 <= i < items@.len() ==> (#[trigger] items@[i])@.len() == n,
    ensures
        r@.len() == n,
        forall|q: int| 0 <= q < n ==> (#[trigger] r@[q])@ == query_vectors(items@, q),
{
    let ghost all = items@;
    let mut out: Vec<Vec<VectorData>> = Vec::new();
    let mut q: usize = 0;
    while q < n
        invariant
            q <= n,
            out@.len() == q,
            forall|k: int| 0 <= k < q ==> (#[trigger] out@[k])@ =~= Seq::empty(),
        decreases n - q,
    {
        out.push(Vec::new());
        q += 1;
    }
    assert(all.take(0) =~= Seq::empty());
    for item in it: items
        invariant
            it.seq() == all,
            forall|i: int| 0 <= i < all.len() ==> (#[trigger] all[i])@.len() == n,
            out@.len() == n,
            forall|k: int|
                0 <= k < n ==> (#[trigger] out@[k])@ == query_vectors(
                    all.take(it.index() as int),
                    k,
                ),
    {
        let ghost c = it.index() as int;
        let ghost before = out@;
        proof {
            let next = all.take(c + 1);
            assert(next.drop_last() =~= all.take(c));
            assert(next.last() == item);
            assert(all[c] == item);
        }
        let mut q: usize = 0;
        for list in inner: item
            invariant
                inner.seq() == item@,
                q == inner.index(),
                item@.len() == n,
                out@.len() == n,
                before.len() == n,
                forall|k: int| 0 <= k < q ==> (#[trigger] out@[k])@ == before[k]@ + item@[k]@,
                forall|k: int| q <= k < n ==> #[trigger] out@[k] == before[k],
        {
            let mut list = list;
            let ghost added = list@;
            let mut mine: Vec<VectorData> = Vec::new();
            std::mem::swap(&mut mine, &mut out[q]);
            mine.append(&mut list);
            assert(mine@ =~= before[q as int]@ + added);
            out.set(q, mine);
            q += 1;
        }
        assert forall|k: int| 0 <= k < n implies (#[trigger] out@[k])@ == query_vectors(
            all.take(c + 1),
            k,
        ) by {
            assert(before[k]@ == query_vectors(all.take(c), k));
        }
    }
    assert(all.take(all.len() as int) =~= all);
    out
}

proof fn lemma_item_index(v: Seq<(int, Seq<DocumentField>, Double)>, config: int)
    ensures
        0 <= item_index(v, config) <= v.len(),
        item_index(v, config) < v.len() ==> v[item_index(v, config)].0 == config,
        forall|i: int| 0 <= i < item_index(v, config) ==> (#[trigger] v[i]).0 != config,
    decreases v.len(),
{
    if v.len() > 0 && v[0].0 != config {
        lemma_item_index(v.drop_first(), config);
        assert forall|i: int| 0 <= i < item_index(v, config) implies (#[trigger] v[i]).0
            != config by {
            if i > 0 {
                assert(v.drop_first()[i - 1].0 != config);
            }
        }
    }
}

/// Whether one of the items is for a field.
pub open spec fn covers(v: Seq<(int, Seq<DocumentField>, Double)>, s: Slot) -> bool {
    exists|i: int| 0 <= i < v.len() && (#[trigger] v[i]).0 == s.config && v[i].1.contains(s.field)
}

proof fn lemma_with_field(
    v: Seq<(int, Seq<DocumentField>, Double)>,
    config: usize,
    field: DocumentField,
    s: Slot,
)
    requires
        covers(v, s) || s == (Slot { config, field }),
    ensures
        covers(with_field(v, config as int, field), s),
{
    let i = item_index(v, config as int);
    let w = with_field(v, config as int, field);
    lemma_item_index(v, config as int);
    if s == (Slot { config, field }) {
        if i < v.len() {
            assert(w[i].1[v[i].1.len() as int] == field);
            assert(w[i].0 == s.config);
        } else {
            assert(w[v.len() as int].1[0] == field);
            assert(w[v.len() as int].0 == s.config);
        }
    } else {
        let j = choose|j: int|
            0 <= j < v.len() && (#[trigger] v[j]).0 == s.config && v[j].1.contains(s.field);
        let at = choose|at: int| 0 <= at < v[j].1.len() && v[j].1[at] == s.field;
        assert(w[j].1[at] == s.field);
        assert(w[j].0 == s.config);
    }
}

/// Every field that a search asks for is embedded.
pub proof fn asked_fields_are_embedded(
    configs: Seq<VectorConfigInternal>,
    options: Seq<VectorSearchOption>,
    slots: Seq<Slot>,
    i: int,
)
    requires
        0 <= i < slots.len(),
    ensures
        covers(
            plain_items(configs, slots) + trigram_items(configs, options, slots),
            slots[i],
        ),
    decreases slots.len(),
{
    let rest = slots.drop_last();
    let last = slots.last();
    let plain = plain_items(configs, slots);
    let weighted = trigram_items(configs, options, slots);
    let old_plain = plain_items(configs, rest);
    let old_weighted = trigram_items(configs, options, rest);
    let s = slots[i];
    if i < rest.len() {
        asked_fields_are_embedded(configs, options, rest, i);
        let all = old_plain + old_weighted;
        let j = choose|j: int|
            0 <= j < all.len() && (#[trigger] all[j]).0 == s.config && all[j].1.contains(s.field);
        if j < old_plain.len() {
            assert(old_plain[j] == all[j]);
            assert(covers(old_plain, s));
        } else {
            let k = j - old_plain.len();
            assert(old_weighted[k] == all[j]);
            assert(weighted[k] == old_weighted[k]);
            assert((plain + weighted)[plain.len() + k] == weighted[k]);
        }
        if covers(old_plain, s) {
            if !(configs[last.config as int].vector_type is Wmtr) {
                lemma_with_field(old_plain, last.config, last.field, s);
            }
            let k = choose|k: int|
                0 <= k < plain.len() && (#[trigger] plain[k]).0 == s.config && plain[k].1.contains(
                    s.field,
                );
            assert((plain + weighted)[k] == plain[k]);
        }
    } else if configs[last.config as int].vector_type is Wmtr {
        let k = weighted.len() - 1;
        assert(weighted[k].1[0] == s.field);
        assert((plain + weighted)[plain.len() + k] == weighted[k]);
    } else {
        lemma_with_field(old_plain, last.config, last.field, s);
        let k = choose|k: int|
            0 <= k < plain.len() && (#[trigger] plain[k]).0 == s.config && plain[k].1.contains(
                s.field,
            );
        assert((plain + weighted)[k] == plain[k]);
    }
}

/// Texts of queries are accepted exactly if there are some and none is blank.
pub proof fn queries_must_not_be_blank(texts: Seq<Seq<char>>)
    ensures
        texts_problem(texts) is None <==> texts.len() > 0 && forall|i: int|
            0 <= i < texts.len() ==> text::trim(#[trigger] texts[i]).len() > 0,
{
}

/// A custom dense vector needs dimensions where models are validated.
pub proof fn custom_dense_vectors_need_dimensions(
    texts: Seq<Seq<char>>,
    configs: Seq<VectorConfigInternal>,
)
    ensures
        dimensions_problem(configs) is None <==> forall|i: int|
            0 <= i < configs.len() && (#[trigger] configs[i]).vector_type is DenseCustom
                ==> configs[i].dimensions is Some,
        batch_problem(texts, configs, false) == texts_problem(texts),
        batch_problem(texts, configs, true) is None <==> texts_problem(texts) is None
            && dimensions_problem(configs) is None,
    decreases configs.len(),
{
    if configs.len() > 0 {
        let rest = configs.drop_first();
        custom_dense_vectors_need_dimensions(texts, rest);
        assert(forall|i: int| 0 <= i < rest.len() ==> #[trigger] rest[i] == configs[i + 1]);
        if dimensions_problem(configs) is None {
            assert forall|i: int|
                0 <= i < configs.len() && (
                #[trigger] configs[i]).vector_type is DenseCustom implies configs[i].dimensions is Some by {
                if i > 0 {
                    assert(rest[i - 1] == configs[i]);
                }
            }
        }
    }
}

/// The slots of default options are all the fields of all the vectors, each once.
pub proof fn default_options_are_for_every_field(
    s: Seq<(Seq<char>, DocumentField)>,
    x: (Seq<char>, DocumentField),
)
    ensures
        different(s).contains(x) <==> s.contains(x),
        different(s).no_duplicates(),
    decreases s.len(),
{
    if s.len() > 0 {
        let init = s.drop_last();
        let rest = different(init);
        let all = different(s);
        default_options_are_for_every_field(init, x);
        if all.contains(x) {
            let k = choose|k: int| 0 <= k < all.len() && all[k] == x;
            if k < rest.len() {
                assert(rest[k] == x);
                let j = choose|j: int| 0 <= j < init.len() && init[j] == x;
                assert(s[j] == x);
            } else {
                assert(s[s.len() - 1] == x);
            }
        }
        if s.contains(x) {
            let j = choose|j: int| 0 <= j < s.len() && s[j] == x;
            if j < init.len() {
                assert(init[j] == x);
                let k = choose|k: int| 0 <= k < rest.len() && rest[k] == x;
                assert(all[k] == x);
            } else if !rest.contains(x) {
                assert(all[rest.len() as int] == x);
            }
        }
    }
}

/// A vector is found by its name, the last of that name.
pub proof fn vectors_are_found_by_name(
    configs: Seq<VectorConfigInternal>,
    one: VectorConfigInternal,
    name: Seq<char>,
)
    ensures
        one.name@ == name ==> config_index(configs.push(one), name) == Some(configs.len() as int),
        one.name@ != name ==> config_index(configs.push(one), name) == config_index(configs, name),
        config_index(Seq::empty(), name) is None,
{
    assert(configs.push(one).drop_last() =~= configs);
}

/// An option asks for the field of the vector that it names, and an unknown vector
/// is refused.
pub proof fn options_ask_for_their_field(
    configs: Seq<VectorConfigInternal>,
    o: VectorSearchOption,
    c: int,
)
    requires
        0 <= c < configs.len() <= usize::MAX,
        config_index(configs, o.vector_name@) == Some(c),
    ensures
        asked_slot(configs, o) matches Ok(s) ==> s.config == c && templates::search_field(
            configs[c],
            o.field,
        ) == Ok::<DocumentField, Seq<char>>(s.field),
        asked_slot(configs, o) is Ok <==> templates::search_field(configs[c], o.field) is Ok,
{
}

/// An option with weight zero asks for nothing; any other adds its slot, once.
pub proof fn weighted_options_are_asked_for(
    configs: Seq<VectorConfigInternal>,
    options: Seq<VectorSearchOption>,
    o: VectorSearchOption,
)
    ensures
        asked_slots(configs, Seq::empty()) == Ok::<Seq<Slot>, Seq<char>>(Seq::empty()),
        o.weight.bits == 0 || o.weight.bits == 0x8000_0000_0000_0000 ==> asked_slots(
            configs,
            options.push(o),
        ) == asked_slots(configs, options),
        o.weight.bits != 0 && o.weight.bits != 0x8000_0000_0000_0000 ==> (match (
            asked_slots(configs, options),
            asked_slot(configs, o),
        ) {
            (Ok(rest), Ok(s)) => asked_slots(configs, options.push(o)) == Ok::<
                Seq<Slot>,
                Seq<char>,
            >(
                if rest.contains(s) {
                    rest
                } else {
                    rest.push(s)
                },
            ),
            _ => asked_slots(configs, options.push(o)) is Err,
        }),
{
    assert(options.push(o).drop_last() =~= options);
}

/// The weight of trigrams of a slot is that of the last option that asks for it,
/// and one where none does.
pub proof fn the_last_option_weighs_the_trigrams(
    configs: Seq<VectorConfigInternal>,
    options: Seq<VectorSearchOption>,
    o: VectorSearchOption,
    s: Slot,
)
    ensures
        asked_slot(configs, o) == Ok::<Slot, Seq<char>>(s) ==> trigram_weight_of(
            configs,
            options.push(o),
            s,
        ) == o.wmtr_trigram_weight,
        asked_slot(configs, o) != Ok::<Slot, Seq<char>>(s) ==> trigram_weight_of(
            configs,
            options.push(o),
            s,
        ) == trigram_weight_of(configs, options, s),
        trigram_weight_of(configs, Seq::empty(), s).bits == 0x3ff0_0000_0000_0000,
{
    assert(options.push(o).drop_last() =~= options);
}

/// Weighted vectors are embedded slot by slot, each with its own weight of
/// trigrams; any other vector is embedded once for all its fields.
pub proof fn weighted_slots_are_embedded_by_themselves(
    configs: Seq<VectorConfigInternal>,
    options: Seq<VectorSearchOption>,
    slots: Seq<Slot>,
    s: Slot,
)
    ensures
        configs[s.config as int].vector_type is Wmtr ==> trigram_items(
            configs,
            options,
            slots.push(s),
        ) == trigram_items(configs, options, slots).push(
            (s.config as int, seq![s.field], trigram_weight_of(configs, options, s)),
        ) && plain_items(configs, slots.push(s)) == plain_items(configs, slots),
        !(configs[s.config as int].vector_type is Wmtr) ==> trigram_items(
            configs,
            options,
            slots.push(s),
        ) == trigram_items(configs, options, slots) && plain_items(configs, slots.push(s))
            == with_field(plain_items(configs, slots), s.config as int, s.field),
{
    assert(slots.push(s).drop_last() =~= slots);
}

/// Queries are embedded with the model for queries where a model's vector has one,
/// and else with the model of the documents.
pub proof fn queries_have_their_own_model(config: VectorConfigInternal)
    ensures
        (config.vector_type is DenseModel || config.vector_type is SparseModel)
            && config.query_model is Some ==> query_model(config) == (
            Some(config.query_model->0@),
            match config.query_revision {
                Some(r) => Some(r@),
                None => None,
            },
        ),
        !(config.vector_type is DenseModel || config.vector_type is SparseModel)
            || config.query_model is None ==> query_model(config) == (
            match config.model {
                Some(m) => Some(m@),
                None => None,
            },
            match config.revision {
                Some(r) => Some(r@),
                None => None,
            },
        ),
{
}

/// Queries are put into the template for queries where the vector has templates,
/// and else taken as they are.
pub proof fn queries_are_put_into_their_template(
    config: VectorConfigInternal,
    texts: Seq<Seq<char>>,
    i: int,
)
    requires
        0 <= i < texts.len(),
    ensures
        query_texts(config, texts).len() == texts.len(),
        config.doc_template is Some && config.query_template is Some ==> query_texts(
            config,
            texts,
        )[i] == templates::replaced(config.query_template->0@, "{query}"@, texts[i]),
        config.doc_template is None || config.query_template is None ==> query_texts(config, texts)
            == texts,
{
}

/// An answer of the models is accepted exactly if it is of the kind that was asked
/// for, has one vector for every query and, for dense ones, the dimensions that
/// are set.
pub proof fn answers_fit_the_queries(config: VectorConfigInternal, n: nat, routed: RoutedEmbed)
    ensures
        queries_failure(config, n, routed) is None <==> {
            let vectors = document_work::routed_views(routed);
            &&& config.vector_type is DenseModel <==> routed is Dense
            &&& vectors.len() == n
            &&& config.vector_type is DenseModel ==> (config.dimensions matches Some(d) ==> forall|
                q: int,
            |
                0 <= q < vectors.len() ==> document_work::token_length(#[trigger] vectors[q]) == d)
        },
{
    lemma_query_problem(config, document_work::routed_views(routed), 0);
}

proof fn lemma_query_problem(config: VectorConfigInternal, vectors: Seq<EmbeddedView>, q: int)
    requires
        0 <= q <= vectors.len(),
    ensures
        query_problem(config, vectors, q) is None <==> (config.dimensions matches Some(d)
            ==> forall|j: int|
            q <= j < vectors.len() ==> document_work::token_length(#[trigger] vectors[j]) == d),
    decreases vectors.len() - q,
{
    if q < vectors.len() && config.dimensions is Some {
        lemma_query_problem(config, vectors, q + 1);
        if query_problem(config, vectors, q) is None {
            assert forall|j: int| q <= j < vectors.len() implies document_work::token_length(
                #[trigger] vectors[j],
            ) == config.dimensions->0 by {
                if j > q {
                }
            }
        }
    }
}

/// The vectors of a query are those that every item of work made for it, in order.
pub proof fn queries_have_the_vectors_of_every_item(
    items: Seq<Vec<Vec<VectorData>>>,
    one: Vec<Vec<VectorData>>,
    q: int,
)
    ensures
        query_vectors(items.push(one), q) == query_vectors(items, q) + one@[q]@,
        query_vectors(Seq::empty(), q) == Seq::<VectorData>::empty(),
{
    assert(items.push(one).drop_last() =~= items);
}

} // verus!
