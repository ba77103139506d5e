//! A cache of collection configurations. An entry counts for a minute, and the
//! oldest entry makes room for a new one when the cache is full.

use vstd::prelude::*;
use crate::models::CollectionConfigInternal;
use crate::text::same_text;

verus! {

/// How long an entry counts, in milliseconds.
pub const CACHE_TTL_MS: u64 = 60_000;

/// The most entries in the cache.
pub const CACHE_MAX_ENTRIES: usize = 1000;

/// A configuration and when it was put in the cache, in milliseconds.
#[derive(Debug, PartialEq, Eq)]
pub struct CacheEntry {
    pub name: String,
    pub config: CollectionConfigInternal,
    pub inserted_at: u64,
}

/// The cached configurations by collection name.
#[derive(Debug, PartialEq, Eq)]
pub struct CollectionConfigCache {
    entries: Vec<CacheEntry>,
    /// With several nodes, writes never use the cache: a change made on another
    /// node would not be seen. Searches do.
    cluster_mode: bool,
}

/// Whether the first entry with a name is at a position.
spec fn is_at(entries: Seq<CacheEntry>, name: Seq<char>, i: int) -> bool {
    0 <= i < entries.len() && entries[i].name@ == name
}

/// Whether no two entries have the same name.
spec fn names_differ(entries: Seq<CacheEntry>) -> bool {
    forall|i: int, j: int|
        #![trigger entries[i], entries[j]]
        0 <= i < j < entries.len() ==> entries[i].name@ != entries[j].name@
}

/// The entries as a map.
spec fn entry_map(entries: Seq<CacheEntry>) -> Map<Seq<char>, (CollectionConfigInternal, u64)>
    decreases entries.len(),
{
    if entries.len() == 0 {
        Map::empty()
    } else {
        entry_map(entries.drop_last()).insert(
            entries.last().name@,
            (entries.last().config, entries.last().inserted_at),
        )
    }
}

proof fn lemma_entry_map(entries: Seq<CacheEntry>)
    requires
        names_differ(entries),
    ensures
        forall|i: int|
            0 <= i < entries.len() ==> entry_map(entries).dom().contains(
                (#[trigger] entries[i]).name@,
            ) && entry_map(entries)[entries[i].name@] == (
                entries[i].config,
                entries[i].inserted_at,
            ),
        forall|name: Seq<char>| #[trigger]
            entry_map(entries).dom().contains(name) ==> exists|i: int| is_at(entries, name, i),
    decreases entries.len(),
{
    if entries.len() > 0 {
        let init = entries.drop_last();
        assert(names_differ(init)) by {
            assert forall|i: int, j: int|
                #![trigger init[i], init[j]]
                0 <= i < j < init.len() implies init[i].name@ != init[j].name@ by {
                assert(entries[i].name@ != entries[j].name@);
            }
        }
        lemma_entry_map(init);
        assert forall|i: int| 0 <= i < entries.len() implies entry_map(entries).dom().contains(
            (#[trigger] entries[i]).name@,
        ) && entry_map(entries)[entries[i].name@] == (entries[i].config, entries[i].inserted_at) by {
            if i < init.len() {
                assert(init[i] == entries[i]);
                assert(entries[i].name@ != entries[entries.len() - 1].name@);
            }
        }
        assert forall|name: Seq<char>| #[trigger]
            entry_map(entries).dom().contains(name) implies exists|i: int|
            is_at(entries, name, i) by {
            if name == entries.last().name@ {
                assert(is_at(entries, name, entries.len() - 1));
            } else {
                assert(entry_map(init).dom().contains(name));
                let i = choose|i: int| is_at(init, name, i);
                assert(is_at(entries, name, i));
            }
        }
    }
}

proof fn lemma_entry_count(entries: Seq<CacheEntry>)
    requires
        names_differ(entries),
    ensures
        entry_map(entries).dom().finite(),
        entry_map(entries).dom().len() == entries.len(),
    decreases entries.len(),
{
    if entries.len() > 0 {
        let init = entries.drop_last();
        assert(names_differ(init)) by {
            assert forall|i: int, j: int|
                #![trigger init[i], init[j]]
                0 <= i < j < init.len() implies init[i].name@ != init[j].name@ by {
                assert(entries[i].name@ != entries[j].name@);
            }
        }
        lemma_entry_count(init);
        lemma_entry_map(init);
        let name = entries.last().name@;
        if entry_map(init).dom().contains(name) {
            let i = choose|i: int| is_at(init, name, i);
            assert(entries[i].name@ != entries[entries.len() - 1].name@);
        }
        assert(entry_map(entries).dom() =~= entry_map(init).dom().insert(name));
    } else {
        assert(entry_map(entries).dom() =~= Set::empty());
    }
}

impl CollectionConfigCache {
    /// The configurations in the cache, with the times they were put there.
    pub closed spec fn view(&self) -> Map<Seq<char>, (CollectionConfigInternal, u64)> {
        entry_map(self.entries@)
    }

    /// The number of entries.
    pub closed spec fn size(&self) -> nat {
        self.entries@.len()
    }

    /// Whether writes bypass the cache.
    pub closed spec fn bypassed(&self) -> bool {
        self.cluster_mode
    }

    /// Whether there are no more entries than allowed, each with its own name.
    pub closed spec fn wf(&self) -> bool {
        names_differ(self.entries@) && self.entries@.len() <= CACHE_MAX_ENTRIES
    }

    /// The configuration of a collection, if it is in the cache and still counts.
    pub open spec fn current(&self, name: Seq<char>, now: u64) -> Option<CollectionConfigInternal> {
        if self@.dom().contains(name) && now - self@[name].1 < CACHE_TTL_MS {
            Some(self@[name].0)
        } else {
            None
        }
    }

    /// An empty cache.
    pub fn new(cluster_mode: bool) -> (r: Self)
        ensures
            r.wf(),
            r@ == Map::<Seq<char>, (CollectionConfigInternal, u64)>::empty(),
            r.size() == 0,
            r.bypassed() == cluster_mode,
    {
        CollectionConfigCache { entries: Vec::new(), cluster_mode }
    }

    fn find(&self, name: &str) -> (r: Option<usize>)
        requires
            names_differ(self.entries@),
        ensures
            match r {
                Some(i) => is_at(self.entries@, name@, i as int) && self@.dom().contains(name@)
                    && self@[name@] == (
                    self.entries@[i as int].config,
                    self.entries@[i as int].inserted_at,
                ),
                None => !self@.dom().contains(name@) && forall|i: int|
                    !is_at(self.entries@, name@, i),
            },
    {
        proof {
            lemma_entry_map(self.entries@);
        }
        let mut i: usize = 0;
        while i < self.entries.len()
            invariant
                i <= self.entries@.len(),
                forall|k: int| 0 <= k < i ==> (#[trigger] self.entries@[k]).name@ != name@,
                forall|k: int|
                    0 <= k < self.entries@.len() ==> self@.dom().contains(
                        (#[trigger] self.entries@[k]).name@,
                    ) && self@[self.entries@[k].name@] == (
                        self.entries@[k].config,
                        self.entries@[k].inserted_at,
                    ),
                forall|n: Seq<char>| #[trigger]
                    self@.dom().contains(n) ==> exists|k: int| is_at(self.entries@, n, k),
            decreases self.entries.len() - i,
        {
            if same_text(self.entries[i].name.as_str(), name) {
                return Some(i);
            }
            i += 1;
        }
        None
    }

    /// The configuration of a collection for a search, at a time.
    pub fn get_for_search(&self, collection_name: &str, now: u64) -> (r: Option<
        &CollectionConfigInternal,
    >)
        requires
            self.wf(),
        ensures
            match r {
                Some(c) => self.current(collection_name@, now) == Some(*c),
                None => self.current(collection_name@, now) is None,
            },
    {
        match self.find(collection_name) {
            Some(i) => {
                let e = &self.entries[i];
                if now < e.inserted_at || now - e.inserted_at < CACHE_TTL_MS {
                    Some(&e.config)
                } else {
                    None
                }
            },
            None => None,
        }
    }

    /// The configuration of a collection for a write, at a time: none with
    /// several nodes.
    pub fn get(&self, collection_name: &str, now: u64) -> (r: Option<&CollectionConfigInternal>)
        requires
            self.wf(),
        ensures
            match r {
                Some(c) => !self.bypassed() && self.current(collection_name@, now) == Some(*c),
                None => self.bypassed() || self.current(collection_name@, now) is None,
            },
    {
        if self.cluster_mode {
            return None;
        }
        self.get_for_search(collection_name, now)
    }

    fn oldest(&self) -> (r: usize)
        requires
            self.entries@.len() > 0,
        ensures
            r < self.entries@.len(),
            forall|k: int|
                0 <= k < self.entries@.len() ==> self.entries@[r as int].inserted_at <= (
                #[trigger] self.entries@[k]).inserted_at,
    {
        let mut best: usize = 0;
        let mut i: usize = 1;
        while i < self.entries.len()
            invariant
                best < i <= self.entries@.len(),
                forall|k: int|
                    0 <= k < i ==> self.entries@[best as int].inserted_at <= (
                    #[trigger] self.entries@[k]).inserted_at,
            decreases self.entries.len() - i,
        {
            if self.entries[i].inserted_at < self.entries[best].inserted_at {
                best = i;
            }
            i += 1;
        }
        best
    }

    fn remove_at(&mut self, i: usize)
        requires
            i < old(self).entries@.len(),
            names_differ(old(self).entries@),
        ensures
            names_differ(final(self).entries@),
            final(self).entries@ == old(self).entries@.remove(i as int),
            final(self)@ == old(self)@.remove(old(self).entries@[i as int].name@),
            final(self).cluster_mode == old(self).cluster_mode,
    {
        let ghost before = self.entries@;
        self.entries.remove(i);
        proof {
            let after = self.entries@;
            assert(after == before.remove(i as int));
            assert forall|a: int, b: int|
                #![trigger after[a], after[b]]
                0 <= a < b < after.len() implies after[a].name@ != after[b].name@ by {
                let x = if a < i {
                    a
                } else {
                    a + 1
                };
                let y = if b < i {
                    b
                } else {
                    b + 1
                };
                assert(after[a] == before[x] && after[b] == before[y]);
            }
            lemma_entry_map(before);
            lemma_entry_map(after);
            let gone = before[i as int].name@;
            let m = entry_map(before).remove(gone);
            assert forall|n: Seq<char>| #[trigger]
                entry_map(after).dom().contains(n) <==> m.dom().contains(n) by {
                if entry_map(after).dom().contains(n) {
                    let k = choose|k: int| is_at(after, n, k);
                    let x = if k < i {
                        k
                    } else {
                        k + 1
                    };
                    assert(after[k] == before[x]);
                    assert(before[x].name@ == n);
                }
                if m.dom().contains(n) {
                    let k = choose|k: int| is_at(before, n, k);
                    let x = if k < i {
                        k
                    } else {
                        k - 1
                    };
                    assert(after[x] == before[k]);
                    assert(after[x].name@ == n);
                }
            }
            assert forall|n: Seq<char>| entry_map(after).dom().contains(n) implies entry_map(
                after,
            )[n] == m[n] by {
                let k = choose|k: int| is_at(after, n, k);
                let x = if k < i {
                    k
                } else {
                    k + 1
                };
                assert(after[k] == before[x]);
            }
            assert(entry_map(after) =~= m);
        }
    }

    /// Whether an entry is one of the oldest.
    pub open spec fn is_oldest(&self, name: Seq<char>) -> bool {
        self@.dom().contains(name) && forall|other: Seq<char>| #[trigger]
            self@.dom().contains(other) ==> self@[name].1 <= self@[other].1
    }

    /// Puts a configuration in the cache, at a time. A full cache drops one of
    /// its oldest entries to take a collection that it does not hold yet.
    pub fn set(&mut self, collection_name: &str, config: CollectionConfigInternal, now: u64)
        requires
            old(self).wf(),
        ensures
            final(self).wf(),
            final(self).bypassed() == old(self).bypassed(),
            final(self).size() == if old(self)@.dom().contains(collection_name@) || old(self).size()
                >= CACHE_MAX_ENTRIES {
                old(self).size()
            } else {
                old(self).size() + 1
            },
            ({
                let entry = (config, now);
                if old(self).size() < CACHE_MAX_ENTRIES || old(self)@.dom().contains(
                    collection_name@,
                ) {
                    final(self)@ == old(self)@.insert(collection_name@, entry)
                } else {
                    exists|dropped: Seq<char>|
                        #[trigger] old(self).is_oldest(dropped) && final(self)@ == old(
                            self,
                        )@.remove(dropped).insert(collection_name@, entry)
                }
            }),
    {
        let ghost at_start = *self;
        match self.find(collection_name) {
            Some(i) => {
                self.remove_at(i);
            },
            None => {
                if self.entries.len() >= CACHE_MAX_ENTRIES {
                    let i = self.oldest();
                    proof {
                        lemma_entry_map(self.entries@);
                        let gone = self.entries@[i as int].name@;
                        assert forall|other: Seq<char>| #[trigger]
                            self@.dom().contains(other) implies self@[gone].1
                            <= self@[other].1 by {
                            let k = choose|k: int| is_at(self.entries@, other, k);
                            assert(self.entries@[i as int].inserted_at
                                <= self.entries@[k].inserted_at);
                        }
                        assert(at_start.is_oldest(gone));
                    }
                    self.remove_at(i);
                }
            },
        }
        let ghost middle = self.entries@;
        let ghost entry = (config, now);
        proof {
            lemma_entry_map(middle);
            assert(!self@.dom().contains(collection_name@));
        }
        self.entries.push(
            CacheEntry { name: collection_name.to_owned(), config, inserted_at: now },
        );
        proof {
            let after = self.entries@;
            assert(after.drop_last() =~= middle);
            assert(entry_map(after) == entry_map(middle).insert(collection_name@, entry));
            assert forall|a: int, b: int|
                #![trigger after[a], after[b]]
                0 <= a < b < after.len() implies after[a].name@ != after[b].name@ by {
                assert(after[a] == middle[a]);
                assert(entry_map(middle).dom().contains(middle[a].name@));
                if b < middle.len() {
                    assert(after[b] == middle[b]);
                }
            }
            assert(entry_map(at_start.entries@).remove(collection_name@).insert(
                collection_name@,
                entry,
            ) =~= entry_map(at_start.entries@).insert(collection_name@, entry));
        }
    }

    /// Removes a collection's configuration from the cache.
    pub fn invalidate(&mut self, collection_name: &str)
        requires
            old(self).wf(),
        ensures
            final(self).wf(),
            final(self).bypassed() == old(self).bypassed(),
            final(self)@ == old(self)@.remove(collection_name@),
            final(self).size() == if old(self)@.dom().contains(collection_name@) {
                old(self).size() - 1
            } else {
                old(self).size() as int
            },
    {
        match self.find(collection_name) {
            Some(i) => {
                self.remove_at(i);
            },
            None => {
                assert(self@.remove(collection_name@) =~= self@);
            },
        }
    }

    /// The number of entries is that of the configurations in the cache.
    pub proof fn entries_are_counted(&self)
        requires
            self.wf(),
        ensures
            self@.dom().finite(),
            self.size() == self@.dom().len(),
    {
        lemma_entry_count(self.entries@);
    }

    /// The cache never holds more entries than allowed.
    pub proof fn never_overfull(&self)
        requires
            self.wf(),
        ensures
            self.size() <= CACHE_MAX_ENTRIES,
    {
    }
}

/// What was put in the cache is found there for as long as it counts, and no
/// longer; the other collections are not affected.
pub proof fn cached_configs_are_found(
    before: CollectionConfigCache,
    after: CollectionConfigCache,
    name: Seq<char>,
    config: CollectionConfigInternal,
    at: u64,
    now: u64,
    other: Seq<char>,
)
    requires
        after@ == before@.insert(name, (config, at)),
        other != name,
    ensures
        now - at < CACHE_TTL_MS ==> after.current(name, now) == Some(config),
        now - at >= CACHE_TTL_MS ==> after.current(name, now) is None,
        after.current(other, now) == before.current(other, now),
{
}

/// What was removed from the cache is not found there; the other collections
/// are not affected.
pub proof fn removed_configs_are_gone(
    before: CollectionConfigCache,
    after: CollectionConfigCache,
    name: Seq<char>,
    now: u64,
    other: Seq<char>,
)
    requires
        after@ == before@.remove(name),
        other != name,
    ensures
        after.current(name, now) is None,
        after.current(other, now) == before.current(other, now),
{
}

/// A configuration is current for a minute after it was set, and a cache holds a
/// thousand of them.
pub proof fn configs_are_current_for_a_minute(
    cache: CollectionConfigCache,
    name: Seq<char>,
    now: u64,
)
    requires
        cache.wf(),
        cache@.dom().contains(name),
    ensures
        now - cache@[name].1 < 60_000 ==> cache.current(name, now) == Some(cache@[name].0),
        now - cache@[name].1 >= 60_000 ==> cache.current(name, now) is None,
        cache.size() <= 1000,
{
    cache.never_overfull();
}

} // verus!
