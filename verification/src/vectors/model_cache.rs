//! The models in memory: which are kept, which are loading, which may be
//! loaded, and from which files.

use vstd::prelude::*;

use crate::json;
use crate::json::{get_member, Json, JsonValue};
use crate::settings;
use crate::settings::parse_size;
use crate::text;
use crate::text::{
    char_count, chars_of, find_char, has_text, joined, lowercase, opt_text, same_opt_text,
    same_text, sort_texts, split_at_char, text2, text3, text4, text5, text_between, text_in,
    trimmed,
};

verus! {

/// The models that are kept in memory unless told otherwise.
pub const DEFAULT_CACHE_SIZE: usize = 100;

/// The most computations at a time on a graphics processor.
pub const GPU_MODEL_INFERENCE_CONCURRENCY_MAX: usize = 1;

/// Where a model says how the vectors of tokens are made one.
pub const ST_POOLING_CONFIG_PATH: &'static str = "1_Pooling/config.json";

/// The number of models to keep in memory.
pub fn model_cache_size(raw: Option<&str>) -> (r: usize)
    ensures
        r == (match raw {
            Some(s) => match settings::read_size(s@) {
                Some(n) => n,
                None => DEFAULT_CACHE_SIZE as int,
            },
            None => DEFAULT_CACHE_SIZE as int,
        }),
{
    if let Some(s) = raw {
        if let Some(n) = parse_size(s) {
            return n;
        }
    }
    DEFAULT_CACHE_SIZE
}

/// Whether a model is from one of the trusted organizations: its name starts
/// with the organization's and a slash.
pub open spec fn is_trusted(model: Seq<char>, organizations: Seq<Seq<char>>) -> bool {
    let slash = text::first_index(model, '/');
    slash < model.len() && organizations.contains(text::unicode_lowercase(model.take(slash)))
}

/// Whether a model is from one of the trusted organizations.
pub fn is_trusted_model(model_name: &str, organizations: &Vec<String>) -> (r: bool)
    ensures
        r == is_trusted(model_name@, text::views(organizations@)),
{
    let cs = chars_of(model_name);
    let slash = find_char(&cs, '/');
    if slash == cs.len() {
        return false;
    }
    let org = text_between(&cs, 0, slash);
    assert(org@ =~= model_name@.take(slash as int));
    let lowered = lowercase(org.as_str());
    text_in(organizations, lowered.as_str())
}

/// The organizations that lines name: not those that are blank or start with a
/// `#`.
pub open spec fn listed_organizations(lines: Seq<Seq<char>>) -> Seq<Seq<char>>
    decreases lines.len(),
{
    if lines.len() == 0 {
        Seq::empty()
    } else {
        let rest = listed_organizations(lines.drop_last());
        let line = text::trim(lines.last());
        if line.len() == 0 || line[0] == '#' || rest.contains(line) {
            rest
        } else {
            rest.push(line)
        }
    }
}

/// Whether trust is asked for: whether the variable says so.
pub fn trust_enabled(raw: Option<&str>) -> (r: bool)
    ensures
        r == (raw matches Some(s) && text::unicode_lowercase(s@) == "true"@),
{
    match raw {
        Some(s) => {
            let lowered = lowercase(s);
            same_text(lowered.as_str(), "true")
        },
        None => false,
    }
}

/// The organizations that are trusted: none of them counts where trust is not
/// asked for, and a file that could not be read lists none.
pub fn trusted_organizations(enabled: bool, contents: Option<&str>) -> (r: Option<Vec<String>>)
    ensures
        !enabled ==> r is None,
        enabled ==> (r matches Some(v) && text::views(v@) == (match contents {
            Some(s) => listed_organizations(text::split(s@, '\n')),
            None => Seq::empty(),
        })),
{
    if !enabled {
        return None;
    }
    let mut out: Vec<String> = Vec::new();
    assert(text::views(out@) =~= Seq::empty());
    if let Some(s) = contents {
        let lines = split_at_char(s, '\n');
        let ghost all = text::views(lines@);
        let mut i: usize = 0;
        assert(all.take(0) =~= Seq::empty());
        while i < lines.len()
            invariant
                i <= lines@.len(),
                all == text::views(lines@),
                text::views(out@) == listed_organizations(all.take(i as int)),
            decreases lines.len() - i,
        {
            proof {
                let next = all.take(i as int + 1);
                assert(next.drop_last() =~= all.take(i as int));
                assert(next.last() == lines@[i as int]@);
            }
            let line = trimmed(lines[i].as_str());
            let cs = chars_of(line.as_str());
            if cs.len() > 0 && cs[0] != '#' && !text_in(&out, line.as_str()) {
                let ghost before = text::views(out@);
                out.push(line);
                assert(text::views(out@) =~= before.push(text::trim(all[i as int])));
            }
            i += 1;
        }
        assert(all.take(all.len() as int) =~= all);
    }
    Some(out)
}

/// What is said of a model that is not trusted.
pub open spec fn untrusted_text(model: Seq<char>, organizations: Seq<Seq<char>>) -> Seq<char> {
    "Model '"@ + model + "' is not from a trusted organization. Trusted organizations: "@
        + text::join(text::sorted(organizations), ", "@)
}

fn explain_distrust(model: &str, organizations: &Vec<String>) -> (r: String)
    ensures
        r@ == untrusted_text(model@, text::views(organizations@)),
{
    let sorted = sort_texts(organizations);
    let list = joined(&sorted, ", ");
    text4(
        "Model '",
        model,
        "' is not from a trusted organization. Trusted organizations: ",
        list.as_str(),
    )
}

/// A model in memory: when it was last used, and under which number it is
/// found.
#[derive(Debug, PartialEq, Eq)]
pub struct ModelEntry {
    pub model: String,
    pub revision: Option<String>,
    pub used: u64,
    pub handle: u64,
}

/// A model, by name and revision.
pub type ModelName = (Seq<char>, Option<Seq<char>>);

/// The name and revision of an entry.
pub open spec fn entry_key(e: ModelEntry) -> ModelName {
    (e.model@, text::opt_view(e.revision))
}

/// The position of a model, or the number of entries.
pub open spec fn entry_index(v: Seq<ModelEntry>, key: ModelName) -> int
    decreases v.len(),
{
    if v.len() == 0 || entry_key(v[0]) == key {
        0
    } else {
        1 + entry_index(v.drop_first(), key)
    }
}

/// Whether no model stands twice.
pub open spec fn keys_differ(v: Seq<ModelEntry>) -> bool {
    forall|i: int, j: int|
        #![trigger v[i], v[j]]
        0 <= i < j < v.len() ==> entry_key(v[i]) != entry_key(v[j])
}

proof fn lemma_entry_index(v: Seq<ModelEntry>, key: ModelName)
    ensures
        0 <= entry_index(v, key) <= v.len(),
        entry_index(v, key) < v.len() ==> entry_key(v[entry_index(v, key)]) == key,
        forall|i: int| 0 <= i < entry_index(v, key) ==> entry_key(#[trigger] v[i]) != key,
    decreases v.len(),
{
    if v.len() > 0 && entry_key(v[0]) != key {
        lemma_entry_index(v.drop_first(), key);
        assert forall|i: int| 0 <= i < entry_index(v, key) implies entry_key(#[trigger] v[i])
            != key by {
            if i > 0 {
                assert(entry_key(v.drop_first()[i - 1]) != key);
            }
        }
    }
}

fn find_entry(v: &Vec<ModelEntry>, model: &str, revision: &Option<String>) -> (r: usize)
    ensures
        r == entry_index(v@, (model@, text::opt_view(*revision))),
        r <= v@.len(),
{
    let mut i: usize = 0;
    assert(v@.skip(0) =~= v@);
    while i < v.len()
        invariant
            i <= v@.len(),
            entry_index(v@, (model@, text::opt_view(*revision))) == i + entry_index(
                v@.skip(i as int),
                (model@, text::opt_view(*revision)),
            ),
        decreases v.len() - i,
    {
        assert(v@.skip(i as int)[0] == v@[i as int]);
        assert(v@.skip(i as int).drop_first() =~= v@.skip(i as int + 1));
        if same_text(v[i].model.as_str(), model) && same_opt_text(&v[i].revision, revision) {
            return i;
        }
        i += 1;
    }
    i
}

/// The position of the entry that was used the longest time ago.
pub open spec fn oldest(v: Seq<ModelEntry>) -> int
    decreases v.len(),
{
    if v.len() <= 1 {
        0
    } else {
        let rest = oldest(v.drop_last());
        if v.last().used < v[rest].used {
            v.len() - 1
        } else {
            rest
        }
    }
}

/// The entries that are kept to make room for one more.
pub open spec fn with_room(v: Seq<ModelEntry>, max_size: int) -> Seq<ModelEntry>
    decreases v.len(),
{
    if v.len() == 0 || v.len() < max_size || !(0 <= oldest(v) < v.len()) {
        v
    } else {
        with_room(v.remove(oldest(v)), max_size)
    }
}

proof fn lemma_oldest(v: Seq<ModelEntry>)
    requires
        v.len() > 0,
    ensures
        0 <= oldest(v) < v.len(),
        forall|i: int| 0 <= i < v.len() ==> v[oldest(v)].used <= (#[trigger] v[i]).used,
    decreases v.len(),
{
    if v.len() > 1 {
        lemma_oldest(v.drop_last());
        assert forall|i: int| 0 <= i < v.len() implies v[oldest(v)].used <= (#[trigger] v[i]).used by {
            if i < v.len() - 1 {
                assert(v.drop_last()[i] == v[i]);
            }
        }
    }
}

fn find_oldest(v: &Vec<ModelEntry>) -> (r: usize)
    requires
        v@.len() > 0,
    ensures
        r == oldest(v@),
        r < v@.len(),
{
    let mut at: usize = 0;
    let mut i: usize = 1;
    while i < v.len()
        invariant
            1 <= i <= v@.len(),
            at < i,
            at == oldest(v@.take(i as int)),
        decreases v.len() - i,
    {
        proof {
            let next = v@.take(i as int + 1);
            assert(next.drop_last() =~= v@.take(i as int));
            assert(next.last() == v@[i as int]);
            assert(next[at as int] == v@[at as int]);
        }
        if v[i].used < v[at].used {
            at = i;
        }
        i += 1;
    }
    assert(v@.take(v@.len() as int) =~= v@);
    at
}

fn make_room(v: &mut Vec<ModelEntry>, max_size: usize)
    ensures
        final(v)@ == with_room(old(v)@, max_size as int),
{
    while v.len() > 0 && v.len() >= max_size
        invariant
            with_room(v@, max_size as int) == with_room(old(v)@, max_size as int),
        decreases v@.len(),
    {
        proof {
            lemma_oldest(v@);
        }
        let at = find_oldest(v);
        let _ = v.remove(at);
    }
}

/// The models in memory, and those that are loading.
#[derive(Debug, PartialEq, Eq)]
pub struct ModelCache {
    pub entries: Vec<ModelEntry>,
    pub loading: Vec<(String, Option<String>)>,
    pub max_size: usize,
}

/// What there is to do to have a model.
#[derive(Debug, PartialEq, Eq)]
pub enum CacheStep {
    /// Nothing: it is in memory under a number.
    Hit(u64),
    /// Nothing: it may not be loaded.
    Refused(String),
    /// To wait until it is loaded.
    Wait,
    /// To load it.
    Load,
}

/// The models that are loading.
pub open spec fn loading_keys(v: Seq<(String, Option<String>)>) -> Seq<ModelName> {
    Seq::new(v.len(), |i: int| (v[i].0@, text::opt_view(v[i].1)))
}

/// Models without one of them.
pub open spec fn without(v: Seq<ModelName>, key: ModelName) -> Seq<ModelName>
    decreases v.len(),
{
    if v.len() == 0 {
        Seq::empty()
    } else {
        let rest = without(v.drop_last(), key);
        if v.last() == key {
            rest
        } else {
            rest.push(v.last())
        }
    }
}

fn is_loading(v: &Vec<(String, Option<String>)>, model: &str, revision: &Option<String>) -> (r: bool)
    ensures
        r == loading_keys(v@).contains((model@, text::opt_view(*revision))),
{
    let ghost key = (model@, text::opt_view(*revision));
    let ghost keys = loading_keys(v@);
    let mut i: usize = 0;
    while i < v.len()
        invariant
            i <= v@.len(),
            keys == loading_keys(v@),
            key == (model@, text::opt_view(*revision)),
            forall|k: int| 0 <= k < i ==> keys[k] != key,
        decreases v.len() - i,
    {
        if same_text(v[i].0.as_str(), model) && same_opt_text(&v[i].1, revision) {
            assert(keys[i as int] == key);
            return true;
        }
        i += 1;
    }
    false
}

fn stop_loading(v: Vec<(String, Option<String>)>, model: &str, revision: &Option<String>) -> (r: Vec<
    (String, Option<String>),
>)
    ensures
        loading_keys(r@) == without(loading_keys(v@), (model@, text::opt_view(*revision))),
{
    let ghost all = v@;
    let ghost keys = loading_keys(v@);
    let mut out: Vec<(String, Option<String>)> = Vec::new();
    assert(keys.take(0) =~= Seq::empty());
    assert(loading_keys(out@) =~= Seq::empty());
    for k in it: v
        invariant
            it.seq() == all,
            keys == loading_keys(all),
            loading_keys(out@) == without(
                keys.take(it.index() as int),
                (model@, text::opt_view(*revision)),
            ),
    {
        proof {
            let next = keys.take(it.index() as int + 1);
            assert(next.drop_last() =~= keys.take(it.index() as int));
            assert(next.last() == (k.0@, text::opt_view(k.1)));
        }
        if !(same_text(k.0.as_str(), model) && same_opt_text(&k.1, revision)) {
            let ghost before = loading_keys(out@);
            out.push(k);
            assert(loading_keys(out@) =~= before.push((k.0@, text::opt_view(k.1))));
        }
    }
    assert(keys.take(keys.len() as int) =~= keys);
    out
}

impl ModelCache {
    /// No model stands twice, neither in memory nor among those that are
    /// loading.
    pub open spec fn wf(self) -> bool {
        &&& keys_differ(self.entries@)
        &&& forall|i: int, j: int|
            #![trigger loading_keys(self.loading@)[i], loading_keys(self.loading@)[j]]
            0 <= i < j < self.loading@.len() ==> loading_keys(self.loading@)[i] != loading_keys(
                self.loading@,
            )[j]
    }

    /// A cache without models.
    pub fn new(max_size: usize) -> (r: ModelCache)
        ensures
            r.wf(),
            r.entries@.len() == 0,
            r.loading@.len() == 0,
            r.max_size == max_size,
    {
        ModelCache { entries: Vec::new(), loading: Vec::new(), max_size }
    }

    /// Finds what there is to do to have a model. One in memory counts as used
    /// now, and needs no trust.
    pub fn get_or_load(
        &mut self,
        model: &str,
        revision: &Option<String>,
        trusted: &Option<Vec<String>>,
        now: u64,
    ) -> (r: CacheStep)
        requires
            old(self).wf(),
        ensures
            final(self).wf(),
            final(self).max_size == old(self).max_size,
            ({
                let key = (model@, text::opt_view(*revision));
                let at = entry_index(old(self).entries@, key);
                let keys = loading_keys(old(self).loading@);
                if at < old(self).entries@.len() {
                    &&& r == CacheStep::Hit(old(self).entries@[at].handle)
                    &&& final(self).entries@ == old(self).entries@.update(
                        at,
                        ModelEntry { used: now, ..old(self).entries@[at] },
                    )
                    &&& final(self).loading@ == old(self).loading@
                } else {
                    &&& final(self).entries@ == old(self).entries@
                    &&& if trusted is Some && !is_trusted(model@, text::views(trusted->0@)) {
                        &&& r matches CacheStep::Refused(e)
                        &&& e@ == untrusted_text(model@, text::views(trusted->0@))
                        &&& final(self).loading@ == old(self).loading@
                    } else if keys.contains(key) {
                        &&& r is Wait
                        &&& final(self).loading@ == old(self).loading@
                    } else {
                        &&& r is Load
                        &&& loading_keys(final(self).loading@) == keys.push(key)
                    }
                }
            }),
    {
        let ghost key = (model@, text::opt_view(*revision));
        let at = find_entry(&self.entries, model, revision);
        proof {
            lemma_entry_index(self.entries@, key);
        }
        if at < self.entries.len() {
            let ghost before = self.entries@;
            self.entries[at].used = now;
            proof {
                assert(self.entries@ =~= before.update(
                    at as int,
                    ModelEntry { used: now, ..before[at as int] },
                ));
                assert forall|i: int, j: int|
                    #![trigger self.entries@[i], self.entries@[j]]
                    0 <= i < j < self.entries@.len() implies entry_key(self.entries@[i])
                    != entry_key(self.entries@[j]) by {
                    assert(entry_key(before[i]) == entry_key(self.entries@[i]));
                    assert(entry_key(before[j]) == entry_key(self.entries@[j]));
                }
            }
            return CacheStep::Hit(self.entries[at].handle);
        }
        if let Some(organizations) = trusted {
            if !is_trusted_model(model, organizations) {
                return CacheStep::Refused(explain_distrust(model, organizations));
            }
        }
        if is_loading(&self.loading, model, revision) {
            return CacheStep::Wait;
        }
        let ghost before = loading_keys(self.loading@);
        self.loading.push((model.to_owned(), opt_text(revision)));
        proof {
            let after = loading_keys(self.loading@);
            assert(after =~= before.push(key));
            assert forall|i: int, j: int|
                #![trigger after[i], after[j]]
                0 <= i < j < after.len() implies after[i] != after[j] by {
                if j < before.len() {
                    assert(before[i] != before[j]);
                } else {
                    assert(before.contains(before[i]));
                }
            }
        }
        CacheStep::Load
    }

    /// A model was loaded. If another load of it came first, that one is used;
    /// else room is made by dropping the models that were used the longest time
    /// ago.
    pub fn on_loaded(&mut self, model: &str, revision: &Option<String>, handle: u64, now: u64) -> (r:
        u64)
        requires
            old(self).wf(),
        ensures
            final(self).wf(),
            final(self).max_size == old(self).max_size,
            ({
                let key = (model@, text::opt_view(*revision));
                let at = entry_index(old(self).entries@, key);
                &&& loading_keys(final(self).loading@) == without(
                    loading_keys(old(self).loading@),
                    key,
                )
                &&& if at < old(self).entries@.len() {
                    &&& r == old(self).entries@[at].handle
                    &&& final(self).entries@ == old(self).entries@.update(
                        at,
                        ModelEntry { used: now, ..old(self).entries@[at] },
                    )
                } else {
                    let kept = with_room(old(self).entries@, old(self).max_size as int);
                    &&& r == handle
                    &&& final(self).entries@.len() == kept.len() + 1
                    &&& final(self).entries@.drop_last() == kept
                    &&& entry_key(final(self).entries@.last()) == key
                    &&& final(self).entries@.last().used == now
                    &&& final(self).entries@.last().handle == handle
                }
            }),
    {
        let ghost key = (model@, text::opt_view(*revision));
        let ghost keys = loading_keys(self.loading@);
        let mut loading: Vec<(String, Option<String>)> = Vec::new();
        std::mem::swap(&mut loading, &mut self.loading);
        self.loading = stop_loading(loading, model, revision);
        proof {
            lemma_without_differ(keys, key);
            lemma_entry_index(self.entries@, key);
        }
        let at = find_entry(&self.entries, model, revision);
        let ghost before = self.entries@;
        if at < self.entries.len() {
            self.entries[at].used = now;
            proof {
                assert(self.entries@ =~= before.update(
                    at as int,
                    ModelEntry { used: now, ..before[at as int] },
                ));
                assert forall|i: int, j: int|
                    #![trigger self.entries@[i], self.entries@[j]]
                    0 <= i < j < self.entries@.len() implies entry_key(self.entries@[i])
                    != entry_key(self.entries@[j]) by {
                    assert(entry_key(before[i]) == entry_key(self.entries@[i]));
                    assert(entry_key(before[j]) == entry_key(self.entries@[j]));
                }
            }
            return self.entries[at].handle;
        }
        make_room(&mut self.entries, self.max_size);
        let ghost kept = self.entries@;
        proof {
            lemma_with_room(before, self.max_size as int, key);
        }
        self.entries.push(
            ModelEntry { model: model.to_owned(), revision: opt_text(revision), used: now, handle },
        );
        assert(self.entries@.drop_last() =~= kept);
        handle
    }

    /// A model could not be loaded: it is not loading any more.
    pub fn on_failed(&mut self, model: &str, revision: &Option<String>)
        requires
            old(self).wf(),
        ensures
            final(self).wf(),
            final(self).max_size == old(self).max_size,
            final(self).entries@ == old(self).entries@,
            loading_keys(final(self).loading@) == without(
                loading_keys(old(self).loading@),
                (model@, text::opt_view(*revision)),
            ),
    {
        let ghost keys = loading_keys(self.loading@);
        let mut loading: Vec<(String, Option<String>)> = Vec::new();
        std::mem::swap(&mut loading, &mut self.loading);
        self.loading = stop_loading(loading, model, revision);
        proof {
            lemma_without_differ(keys, (model@, text::opt_view(*revision)));
        }
    }

    /// The models in memory, with when each was last used.
    pub fn snapshot(&self) -> (r: Vec<(String, Option<String>, u64)>)
        ensures
            r@.len() == self.entries@.len(),
            forall|i: int|
                0 <= i < r@.len() ==> ((#[trigger] r@[i]).0@, text::opt_view(r@[i].1)) == entry_key(
                    self.entries@[i],
                ) && r@[i].2 == self.entries@[i].used,
    {
        let mut out: Vec<(String, Option<String>, u64)> = Vec::new();
        let mut i: usize = 0;
        while i < self.entries.len()
            invariant
                i <= self.entries@.len(),
                out@.len() == i,
                forall|k: int|
                    0 <= k < i ==> ((#[trigger] out@[k]).0@, text::opt_view(out@[k].1))
                        == entry_key(self.entries@[k]) && out@[k].2 == self.entries@[k].used,
            decreases self.entries.len() - i,
        {
            let e = &self.entries[i];
            out.push((e.model.as_str().to_owned(), opt_text(&e.revision), e.used));
            i += 1;
        }
        out
    }
}

/// The dense models in memory; none before the first was asked for.
pub fn dense_model_cache_snapshot(cache: &Option<ModelCache>) -> (r: Vec<
    (String, Option<String>, u64),
>)
    ensures
        match *cache {
            Some(c) => r@.len() == c.entries@.len() && forall|i: int|
                0 <= i < r@.len() ==> ((#[trigger] r@[i]).0@, text::opt_view(r@[i].1)) == entry_key(
                    c.entries@[i],
                ) && r@[i].2 == c.entries@[i].used,
            None => r@.len() == 0,
        },
{
    match cache {
        Some(c) => c.snapshot(),
        None => Vec::new(),
    }
}

proof fn lemma_without(v: Seq<ModelName>, key: ModelName)
    ensures
        forall|i: int|
            0 <= i < without(v, key).len() ==> v.contains(#[trigger] without(v, key)[i])
                && without(v, key)[i] != key,
    decreases v.len(),
{
    if v.len() > 0 {
        let rest = without(v.drop_last(), key);
        lemma_without(v.drop_last(), key);
        assert forall|i: int| 0 <= i < without(v, key).len() implies v.contains(
            #[trigger] without(v, key)[i],
        ) && without(v, key)[i] != key by {
            if i < rest.len() {
                assert(without(v, key)[i] == rest[i]);
                let at = choose|at: int|
                    0 <= at < v.drop_last().len() && v.drop_last()[at] == rest[i];
                assert(v[at] == rest[i]);
            } else {
                assert(v[v.len() - 1] == v.last());
            }
        }
    }
}

proof fn lemma_without_differ(v: Seq<ModelName>, key: ModelName)
    requires
        forall|i: int, j: int|
            #![trigger v[i], v[j]]
            0 <= i < j < v.len() ==> v[i] != v[j],
    ensures
        forall|i: int, j: int|
            #![trigger without(v, key)[i], without(v, key)[j]]
            0 <= i < j < without(v, key).len() ==> without(v, key)[i] != without(v, key)[j],
    decreases v.len(),
{
    if v.len() > 0 {
        let head = v.drop_last();
        assert forall|i: int, j: int|
            #![trigger head[i], head[j]]
            0 <= i < j < head.len() implies head[i] != head[j] by {
            assert(v[i] != v[j]);
        }
        lemma_without_differ(head, key);
        lemma_without(head, key);
        let w = without(v, key);
        let rest = without(head, key);
        assert forall|i: int, j: int|
            #![trigger w[i], w[j]]
            0 <= i < j < w.len() implies w[i] != w[j] by {
            assert(w[i] == rest[i]);
            if j < rest.len() {
                assert(w[j] == rest[j]);
            } else {
                assert(head.contains(rest[i]));
                let at = choose|at: int| 0 <= at < head.len() && head[at] == rest[i];
                assert(v[at] == rest[i]);
                assert(v[v.len() - 1] == v.last());
            }
        }
    }
}

proof fn lemma_with_room(v: Seq<ModelEntry>, max_size: int, key: ModelName)
    requires
        keys_differ(v),
    ensures
        keys_differ(with_room(v, max_size)),
        with_room(v, max_size).len() == 0 || with_room(v, max_size).len() < max_size,
        forall|i: int|
            0 <= i < with_room(v, max_size).len() ==> v.contains(#[trigger] with_room(v, max_size)[i]),
        entry_index(v, key) == v.len() ==> forall|i: int|
            0 <= i < with_room(v, max_size).len() ==> entry_key(#[trigger] with_room(v, max_size)[i])
                != key,
    decreases v.len(),
{
    if v.len() == 0 || v.len() < max_size {
        lemma_entry_index(v, key);
        assert forall|i: int| 0 <= i < v.len() implies v.contains(#[trigger] v[i]) by {}
    } else {
        lemma_oldest(v);
        let at = oldest(v);
        let w = v.remove(at);
        assert forall|i: int| 0 <= i < w.len() implies #[trigger] w[i] == v[if i < at {
            i
        } else {
            i + 1
        }] by {}
        assert(keys_differ(w));
        lemma_entry_index(v, key);
        lemma_entry_index(w, key);
        lemma_with_room(w, max_size, key);
        let kept = with_room(w, max_size);
        assert forall|i: int| 0 <= i < kept.len() implies v.contains(#[trigger] kept[i]) by {
            assert(w.contains(kept[i]));
            let j = choose|j: int| 0 <= j < w.len() && w[j] == kept[i];
            assert(v[if j < at {
                j
            } else {
                j + 1
            }] == kept[i]);
        }
        if entry_index(v, key) == v.len() {
            if entry_index(w, key) < w.len() {
                let j = entry_index(w, key);
                assert(entry_key(w[j]) == key);
            }
        }
    }
}

proof fn lemma_room_keeps(v: Seq<ModelEntry>, max_size: int, e: ModelEntry, d: ModelEntry)
    requires
        keys_differ(v),
        with_room(v, max_size).contains(e),
        v.contains(d),
        !with_room(v, max_size).contains(d),
    ensures
        d.used <= e.used,
    decreases v.len(),
{
    if v.len() > 0 && v.len() >= max_size {
        lemma_oldest(v);
        let at = oldest(v);
        let w = v.remove(at);
        assert forall|i: int| 0 <= i < w.len() implies #[trigger] w[i] == v[if i < at {
            i
        } else {
            i + 1
        }] by {}
        assert(keys_differ(w));
        lemma_with_room(w, max_size, entry_key(e));
        let kept = with_room(w, max_size);
        let k = choose|k: int| 0 <= k < kept.len() && kept[k] == e;
        assert(w.contains(kept[k]));
        let j = choose|j: int| 0 <= j < w.len() && w[j] == e;
        assert(v[if j < at {
            j
        } else {
            j + 1
        }] == e);
        let p = choose|p: int| 0 <= p < v.len() && v[p] == d;
        if p == at {
            assert(v[at].used <= e.used);
        } else {
            assert(w[if p < at {
                p
            } else {
                p - 1
            }] == d);
            assert(w.contains(d));
            lemma_room_keeps(w, max_size, e, d);
        }
    }
}

/// To make room for a model, only models go that were used no later than those
/// that stay, and there is room then.
pub proof fn the_least_recently_used_models_go(
    cache: ModelCache,
    kept: ModelEntry,
    dropped: ModelEntry,
)
    requires
        cache.wf(),
        with_room(cache.entries@, cache.max_size as int).contains(kept),
        cache.entries@.contains(dropped),
        !with_room(cache.entries@, cache.max_size as int).contains(dropped),
    ensures
        dropped.used <= kept.used,
        with_room(cache.entries@, cache.max_size as int).len() < cache.max_size,
{
    lemma_room_keeps(cache.entries@, cache.max_size as int, kept, dropped);
    lemma_with_room(cache.entries@, cache.max_size as int, entry_key(kept));
}

/// The kinds of programs that load models.
#[derive(Debug, PartialEq, Eq)]
pub enum Loader {
    Bert,
    ModernBert,
    Static,
    /// The general one, which gets the architecture's name.
    Generic(String),
}

/// The architecture that a model's configuration names first.
pub open spec fn architecture_of(config: Json) -> Option<Seq<char>> {
    match config {
        Json::Object(m) => match json::member(m, "architectures"@) {
            Some(Json::Array(a)) => if a.len() > 0 {
                match a[0] {
                    Json::Text(s) => if s.len() > 0 {
                        Some(s)
                    } else {
                        None
                    },
                    _ => None,
                }
            } else {
                None
            },
            _ => None,
        },
        _ => None,
    }
}

/// Finds the architecture that a model's configuration names.
pub fn hf_architecture(config: &JsonValue) -> (r: Option<String>)
    ensures
        text::opt_view(r) == architecture_of(config@),
{
    if let JsonValue::Object(m) = config {
        proof {
            JsonValue::object_view(*m);
        }
        if let Some(v) = get_member(m, "architectures") {
            if let JsonValue::Array(a) = v {
                proof {
                    JsonValue::array_view(*a);
                }
                if a.len() > 0 {
                    if let JsonValue::Text(s) = &a[0] {
                        if char_count(s.as_str()) > 0 {
                            return Some(s.as_str().to_owned());
                        }
                    }
                }
            }
        }
    }
    None
}

/// Chooses what loads a model of an architecture. Without one, it is taken for
/// a static model.
pub fn choose_loader(architecture: &Option<String>) -> (r: Loader)
    ensures
        match *architecture {
            None => r is Static,
            Some(a) => if a@ == "BertModel"@ {
                r is Bert
            } else if a@ == "ModernBertModel"@ || a@ == "ModernBertForMaskedLM"@ {
                r is ModernBert
            } else if a@ == "StaticModel"@ {
                r is Static
            } else {
                r matches Loader::Generic(name) && name@ == a@
            },
        },
{
    let a = match architecture {
        Some(a) => a.as_str(),
        None => {
            return Loader::Static;
        },
    };
    if same_text(a, "BertModel") {
        Loader::Bert
    } else if same_text(a, "ModernBertModel") || same_text(a, "ModernBertForMaskedLM") {
        Loader::ModernBert
    } else if same_text(a, "StaticModel") {
        Loader::Static
    } else {
        Loader::Generic(a.to_owned())
    }
}

/// What is said where neither the general loader nor that of static models can
/// load a model.
pub fn fallback_failure(model: &str, first: &str, second: &str) -> (r: String)
    ensures
        r@ == "Failed to load model '"@ + model@ + "': "@ + first@
            + ("; static/model2vec fallback also failed: "@ + second@),
{
    let tail = text2("; static/model2vec fallback also failed: ", second);
    text5("Failed to load model '", model, "': ", first, tail.as_str())
}

/// Whether a message of the hub says that there is no such file.
pub fn is_hub_not_found(message: &str) -> (r: bool)
    ensures
        r == (text::contains_text(message@, "404"@) || text::contains_text(
            message@,
            "status code 404"@,
        ) || text::contains_text(message@, "Not Found"@)),
{
    has_text(message, "404") || has_text(message, "status code 404") || has_text(
        message,
        "Not Found",
    )
}

/// The files of a static model.
#[derive(Debug, PartialEq, Eq)]
pub struct StaticModelFiles {
    pub config: String,
    pub tokenizer: String,
    pub model: String,
}

/// Where the files of a static model stand.
pub open spec fn is_layout(
    f: StaticModelFiles,
    config_file: Seq<char>,
    model_prefix: Seq<char>,
) -> bool {
    &&& f.config@ == config_file
    &&& f.tokenizer@ == model_prefix + "tokenizer.json"@
    &&& f.model@ == model_prefix + "model.safetensors"@
}

/// The places where the files of a static model are looked for on the hub, in
/// order.
pub fn static_layouts() -> (r: Vec<StaticModelFiles>)
    ensures
        r@.len() == 3,
        is_layout(r@[0], "config.json"@, ""@),
        is_layout(r@[1], "config_sentence_transformers.json"@, ""@),
        is_layout(r@[2], "config_sentence_transformers.json"@, "0_StaticEmbedding/"@),
{
    vec![
        layout("config.json", ""),
        layout("config_sentence_transformers.json", ""),
        layout("config_sentence_transformers.json", "0_StaticEmbedding/"),
    ]
}

/// The files of a static model below a folder of this machine.
#[derive(Debug, PartialEq, Eq)]
pub struct LocalModelFiles {
    /// Whether the configuration stands in the folder's parent instead.
    pub config_in_parent: bool,
    pub files: StaticModelFiles,
}

/// The places where the files of a static model are looked for on this machine,
/// in order: those of the hub and, where the folder has a parent, the parent for
/// the configuration and the folder for the rest.
pub fn local_layouts(has_parent: bool) -> (r: Vec<LocalModelFiles>)
    ensures
        r@.len() == (if has_parent {
            4int
        } else {
            3int
        }),
        forall|i: int| 0 <= i < r@.len() ==> (#[trigger] r@[i]).config_in_parent == (i == 3),
        is_layout(r@[0].files, "config.json"@, ""@),
        is_layout(r@[1].files, "config_sentence_transformers.json"@, ""@),
        is_layout(r@[2].files, "config_sentence_transformers.json"@, "0_StaticEmbedding/"@),
        has_parent ==> is_layout(r@[3].files, "config_sentence_transformers.json"@, ""@),
{
    let mut r: Vec<LocalModelFiles> = Vec::new();
    r.push(LocalModelFiles { config_in_parent: false, files: layout("config.json", "") });
    r.push(
        LocalModelFiles {
            config_in_parent: false,
            files: layout("config_sentence_transformers.json", ""),
        },
    );
    r.push(
        LocalModelFiles {
            config_in_parent: false,
            files: layout("config_sentence_transformers.json", "0_StaticEmbedding/"),
        },
    );
    if has_parent {
        r.push(
            LocalModelFiles {
                config_in_parent: true,
                files: layout("config_sentence_transformers.json", ""),
            },
        );
    }
    r
}

fn layout(config_file: &str, model_prefix: &str) -> (r: StaticModelFiles)
    ensures
        is_layout(r, config_file@, model_prefix@),
{
    StaticModelFiles {
        config: config_file.to_owned(),
        tokenizer: text2(model_prefix, "tokenizer.json"),
        model: text2(model_prefix, "model.safetensors"),
    }
}

/// What is said where the files of a static model stand in none of the places.
pub fn no_layout_text(model: &str, on_hub: bool) -> (r: String)
    ensures
        r@ == (if on_hub {
            "no valid static model layout for '"@ + model@
                + "' on HuggingFace Hub (need config.json or config_sentence_transformers.json + tokenizer.json + model.safetensors)"@
        } else {
            "no valid static model layout in '"@ + model@
                + "' (need config.json or config_sentence_transformers.json + tokenizer.json + model.safetensors)"@
        }),
{
    if on_hub {
        text3(
            "no valid static model layout for '",
            model,
            "' on HuggingFace Hub (need config.json or config_sentence_transformers.json + tokenizer.json + model.safetensors)",
        )
    } else {
        text3(
            "no valid static model layout in '",
            model,
            "' (need config.json or config_sentence_transformers.json + tokenizer.json + model.safetensors)",
        )
    }
}

/// Permits for computations on a graphics processor.
#[derive(Debug, Clone, Copy, PartialEq, Eq, Structural)]
pub struct Permits {
    pub max: usize,
    pub available: usize,
}

impl Permits {
    pub open spec fn wf(self) -> bool {
        self.available <= self.max
    }

    pub fn new(max: usize) -> (r: Permits)
        ensures
            r.wf(),
            r.max == max,
            r.available == max,
    {
        Permits { max, available: max }
    }

    /// Takes a permit, if there is one.
    pub fn acquire(&mut self) -> (r: bool)
        requires
            old(self).wf(),
        ensures
            final(self).wf(),
            final(self).max == old(self).max,
            r == (old(self).available > 0),
            final(self).available == (if r {
                old(self).available - 1
            } else {
                0
            }),
    {
        if self.available == 0 {
            return false;
        }
        self.available = self.available - 1;
        true
    }

    /// Gives a permit back. There are never more than at the start.
    pub fn release(&mut self)
        requires
            old(self).wf(),
        ensures
            final(self).wf(),
            final(self).max == old(self).max,
            final(self).available == (if old(self).available < old(self).max {
                old(self).available + 1
            } else {
                old(self).max as int
            }),
    {
        if self.available < self.max {
            self.available = self.available + 1;
        }
    }
}

/// A model is found by its name and its revision, where it is.
pub proof fn models_are_found_by_name(v: Seq<ModelEntry>, key: ModelName, i: int)
    ensures
        0 <= i < v.len() && (v[i].model@, text::opt_view(v[i].revision)) == key && (forall|k: int|
            0 <= k < i ==> ((#[trigger] v[k]).model@, text::opt_view(v[k].revision)) != key)
            ==> entry_index(v, key) == i,
        (forall|k: int|
            0 <= k < v.len() ==> ((#[trigger] v[k]).model@, text::opt_view(v[k].revision)) != key)
            ==> entry_index(v, key) == v.len(),
    decreases v.len(),
{
    if v.len() > 0 && entry_key(v[0]) != key {
        let rest = v.drop_first();
        assert(forall|k: int| 0 <= k < rest.len() ==> #[trigger] rest[k] == v[k + 1]);
        models_are_found_by_name(rest, key, i - 1);
        if 0 < i < v.len() {
            assert(rest[i - 1] == v[i]);
        }
    }
}

/// The oldest model is the one that was used least recently.
pub proof fn the_oldest_was_used_least_recently(v: Seq<ModelEntry>, i: int)
    requires
        0 <= i < v.len(),
    ensures
        0 <= oldest(v) < v.len(),
        v[oldest(v)].used <= v[i].used,
    decreases v.len(),
{
    if v.len() > 1 {
        let init = v.drop_last();
        if i < init.len() {
            the_oldest_was_used_least_recently(init, i);
            assert(init[i] == v[i]);
        } else {
            the_oldest_was_used_least_recently(init, 0);
        }
        assert(init[oldest(init)] == v[oldest(init)]);
    }
}

/// Models go only where there is no room for one more, and no more of them than
/// have to.
pub proof fn models_go_only_for_room(v: Seq<ModelEntry>, max_size: int)
    ensures
        v.len() < max_size ==> with_room(v, max_size) == v,
        max_size >= 1 && v.len() >= max_size ==> with_room(v, max_size).len() == max_size - 1,
        max_size <= 0 ==> with_room(v, max_size).len() == 0,
    decreases v.len(),
{
    if v.len() > 0 && v.len() >= max_size {
        the_oldest_was_used_least_recently(v, 0);
        models_go_only_for_room(v.remove(oldest(v)), max_size);
    }
}

/// A model is trusted exactly if the organization before the first slash is, in
/// small letters; a model without one is not.
pub proof fn models_are_trusted_by_organization(
    organization: Seq<char>,
    rest: Seq<char>,
    organizations: Seq<Seq<char>>,
)
    requires
        !organization.contains('/'),
    ensures
        is_trusted(organization + seq!['/'] + rest, organizations) <==> organizations.contains(
            text::unicode_lowercase(organization),
        ),
        !is_trusted(organization, organizations),
{
    let model = organization + seq!['/'] + rest;
    text::first_index_is_first(model, '/');
    text::first_index_is_first(organization, '/');
    let i = text::first_index(model, '/');
    let n = organization.len() as int;
    assert(model[n] == '/');
    if i < n {
        assert(model[i] == organization[i]);
        assert(organization.contains(organization[i]));
    }
    assert(model.take(n) =~= organization);
    let j = text::first_index(organization, '/');
    if j < n {
        assert(organization.contains(organization[j]));
    }
}

/// An organization is listed exactly if a line holds it, with white space around
/// it left out; blank lines and comments are none.
pub proof fn organizations_are_listed_line_by_line(lines: Seq<Seq<char>>, name: Seq<char>)
    ensures
        listed_organizations(lines).contains(name) <==> name.len() > 0 && name[0] != '#' && exists|
            i: int,
        |
            0 <= i < lines.len() && text::trim(#[trigger] lines[i]) == name,
    decreases lines.len(),
{
    if lines.len() > 0 {
        let init = lines.drop_last();
        let rest = listed_organizations(init);
        let all = listed_organizations(lines);
        organizations_are_listed_line_by_line(init, name);
        assert(forall|i: int| 0 <= i < init.len() ==> #[trigger] init[i] == lines[i]);
        assert(lines[lines.len() - 1] == lines.last());
        if all.contains(name) {
            let k = choose|k: int| 0 <= k < all.len() && all[k] == name;
            if k < rest.len() {
                assert(rest[k] == name);
                let i = choose|i: int| 0 <= i < init.len() && text::trim(#[trigger] init[i]) == name;
                assert(text::trim(lines[i]) == name);
            } else {
                assert(text::trim(lines[lines.len() - 1]) == name);
            }
        }
        if name.len() > 0 && name[0] != '#' && exists|i: int|
            0 <= i < lines.len() && text::trim(#[trigger] lines[i]) == name {
            let i = choose|i: int| 0 <= i < lines.len() && text::trim(#[trigger] lines[i]) == name;
            if i < init.len() {
                assert(text::trim(init[i]) == name);
                let k = choose|k: int| 0 <= k < rest.len() && rest[k] == name;
                assert(all[k] == name);
            } else if !rest.contains(name) {
                assert(all[rest.len() as int] == name);
            } else {
                let k = choose|k: int| 0 <= k < rest.len() && rest[k] == name;
                assert(all[k] == name);
            }
        }
    }
}

/// A model that is loaded or has failed is no longer being loaded; the others are.
pub proof fn other_models_go_on_loading(v: Seq<ModelName>, key: ModelName, other: ModelName)
    ensures
        !without(v, key).contains(key),
        other != key ==> (without(v, key).contains(other) <==> v.contains(other)),
    decreases v.len(),
{
    if v.len() > 0 {
        let init = v.drop_last();
        let rest = without(init, key);
        let all = without(v, key);
        other_models_go_on_loading(init, key, other);
        if all.contains(key) {
            let k = choose|k: int| 0 <= k < all.len() && all[k] == key;
            assert(rest[k] == key);
        }
        if other != key {
            if all.contains(other) {
                let k = choose|k: int| 0 <= k < all.len() && all[k] == other;
                if k < rest.len() {
                    assert(rest[k] == other);
                    let i = choose|i: int| 0 <= i < init.len() && init[i] == other;
                    assert(v[i] == other);
                } else {
                    assert(v[v.len() - 1] == other);
                }
            }
            if v.contains(other) {
                let i = choose|i: int| 0 <= i < v.len() && v[i] == other;
                if i < init.len() {
                    assert(init[i] == other);
                    let k = choose|k: int| 0 <= k < rest.len() && rest[k] == other;
                    assert(all[k] == other);
                } else {
                    assert(all[rest.len() as int] == other);
                }
            }
        }
    }
}

/// The architecture of a model is the first that its configuration lists, where
/// that is a text and not empty.
pub proof fn the_first_architecture_counts(m: Seq<(Seq<char>, Json)>, a: Seq<Json>, s: Seq<char>)
    requires
        json::member(m, "architectures"@) == Some(Json::Array(a)),
    ensures
        a.len() == 0 ==> architecture_of(Json::Object(m)) is None,
        a.len() > 0 && a[0] == Json::Text(s) && s.len() > 0 ==> architecture_of(Json::Object(m))
            == Some(s),
        a.len() > 0 && !(a[0] is Text) ==> architecture_of(Json::Object(m)) is None,
{
}

} // verus!
