//! Cache of the mutations fetched for an entity from a mutation index, used
//! heavily while iterating through search results. It keeps the entities
//! used most recently, up to its capacity.
use vstd::prelude::*;
use lru::LruCache;
use crate::store::mutation_index::{IndexOperation, MutationResults};

verus! {

#[verifier::external_type_specification]
#[verifier::external_body]
#[verifier::reject_recursive_types(K)]
#[verifier::reject_recursive_types(V)]
#[verifier::reject_recursive_types(S)]
pub struct ExLruCache<K, V, S>(LruCache<K, V, S>);

#[verifier::external_type_specification]
#[verifier::external_body]
pub struct ExDefaultHasher(lru::DefaultHasher);

/// Entries of the cache, by entity id, from the least to the most recently
/// used.
pub uninterp spec fn lru_entries(cache: LruCache<String, MutationResults>) -> Seq<(Seq<char>, MutationResults)>;

/// Number of entries the cache was made to hold at most.
pub uninterp spec fn lru_capacity(cache: LruCache<String, MutationResults>) -> nat;

/// Position of the entry with the key, if any.
pub open spec fn key_index(entries: Seq<(Seq<char>, MutationResults)>, key: Seq<char>) -> Option<int> {
    if exists|i: int| 0 <= i < entries.len() && #[trigger] entries[i].0 == key {
        Some(choose|i: int| 0 <= i < entries.len() && #[trigger] entries[i].0 == key)
    } else {
        None
    }
}

/// Keys occur once each.
pub open spec fn keys_distinct(entries: Seq<(Seq<char>, MutationResults)>) -> bool {
    forall|i: int, j: int| 0 <= i < entries.len() && 0 <= j < entries.len() && i != j
        ==> #[trigger] entries[i].0 != #[trigger] entries[j].0
}

/// Entries once the one at `i` became the most recently used.
pub open spec fn moved_last(entries: Seq<(Seq<char>, MutationResults)>, i: int) -> Seq<(Seq<char>, MutationResults)> {
    entries.remove(i).push(entries[i])
}

/// Entries once the key got the value: an existing entry gets updated and
/// becomes the most recently used; a new one is added as the most recently
/// used, replacing the least recently used one when the cache is full.
pub open spec fn put_entries(entries: Seq<(Seq<char>, MutationResults)>, cap: nat, key: Seq<char>, value: MutationResults) -> Seq<(Seq<char>, MutationResults)> {
    match key_index(entries, key) {
        Some(i) => entries.remove(i).push((key, value)),
        None => if entries.len() >= cap {
            entries.drop_first().push((key, value))
        } else {
            entries.push((key, value))
        },
    }
}

/// Calls `LruCache::new`: a cache with no entry that holds at most `cap`
/// entries.
#[verifier::external_body]
fn lru_new(cap: usize) -> (res: LruCache<String, MutationResults>)
    requires
        cap > 0,
    ensures
        lru_entries(res) == Seq::<(Seq<char>, MutationResults)>::empty(),
        lru_capacity(res) == cap,
{
    LruCache::new(std::num::NonZeroUsize::new(cap).unwrap())
}

/// Calls `LruCache::get`: gives a copy of the key's value, if the key is in
/// the cache, and makes its entry the most recently used.
#[verifier::external_body]
fn lru_get(cache: &mut LruCache<String, MutationResults>, key: &str) -> (res: Option<MutationResults>)
    ensures
        lru_capacity(*final(cache)) == lru_capacity(*old(cache)),
        match key_index(lru_entries(*old(cache)), key@) {
            Some(i) => res == Some(lru_entries(*old(cache))[i].1)
                && lru_entries(*final(cache)) == moved_last(lru_entries(*old(cache)), i),
            None => res is None && lru_entries(*final(cache)) == lru_entries(*old(cache)),
        },
{
    cache.get(key).cloned()
}

/// Calls `LruCache::put`: the key gets the value as the most recently used
/// entry, replacing the least recently used entry when a new key comes into
/// a full cache. Gives back the key's former value, if it had one.
#[verifier::external_body]
fn lru_put(cache: &mut LruCache<String, MutationResults>, key: String, value: MutationResults) -> (res: Option<MutationResults>)
    ensures
        lru_capacity(*final(cache)) == lru_capacity(*old(cache)),
        lru_entries(*final(cache)) == put_entries(lru_entries(*old(cache)), lru_capacity(*old(cache)), key@, value),
        match key_index(lru_entries(*old(cache)), key@) {
            Some(i) => res == Some(lru_entries(*old(cache))[i].1),
            None => res is None,
        },
{
    cache.put(key, value)
}

/// Calls `LruCache::pop`: removes the key's entry and gives back its value,
/// if the key was in the cache.
#[verifier::external_body]
fn lru_pop(cache: &mut LruCache<String, MutationResults>, key: &str) -> (res: Option<MutationResults>)
    ensures
        lru_capacity(*final(cache)) == lru_capacity(*old(cache)),
        match key_index(lru_entries(*old(cache)), key@) {
            Some(i) => res == Some(lru_entries(*old(cache))[i].1)
                && lru_entries(*final(cache)) == lru_entries(*old(cache)).remove(i),
            None => res is None && lru_entries(*final(cache)) == lru_entries(*old(cache)),
        },
{
    cache.pop(key)
}

/// Cache of mutations results by entity id.
pub struct EntityMutationsCache {
    cache: LruCache<String, MutationResults>,
}

impl EntityMutationsCache {
    /// Entries, from the least to the most recently used.
    pub closed spec fn entries(&self) -> Seq<(Seq<char>, MutationResults)> {
        lru_entries(self.cache)
    }

    pub closed spec fn capacity(&self) -> nat {
        lru_capacity(self.cache)
    }

    /// Each entity has at most one entry, and the cache holds no more
    /// entries than its capacity, which isn't 0.
    pub closed spec fn wf(&self) -> bool {
        &&& keys_distinct(self.entries())
        &&& self.entries().len() <= self.capacity()
        &&& self.capacity() > 0
    }

    /// A cache with no entry that holds the results of at most `size`
    /// entities.
    pub fn new(size: usize) -> (res: EntityMutationsCache)
        requires
            size > 0,
        ensures
            res.wf(),
            res.entries() == Seq::<(Seq<char>, MutationResults)>::empty(),
            res.capacity() == size,
    {
        EntityMutationsCache { cache: lru_new(size) }
    }

    /// The cached results of the entity, if any; the entity becomes the most
    /// recently used.
    pub fn get(&mut self, entity_id: &str) -> (res: Option<MutationResults>)
        requires
            old(self).wf(),
        ensures
            final(self).wf(),
            final(self).capacity() == old(self).capacity(),
            match key_index(old(self).entries(), entity_id@) {
                Some(i) => res == Some(old(self).entries()[i].1)
                    && final(self).entries() == moved_last(old(self).entries(), i),
                None => res is None && final(self).entries() == old(self).entries(),
            },
    {
        let res = lru_get(&mut self.cache, entity_id);
        proof {
            if let Some(i) = key_index(old(self).entries(), entity_id@) {
                lemma_moved_last_keeps_keys(old(self).entries(), i);
            }
        }
        res
    }

    /// Caches the results of the entity as the most recently used.
    pub fn put(&mut self, entity_id: &str, results: MutationResults)
        requires
            old(self).wf(),
        ensures
            final(self).wf(),
            final(self).capacity() == old(self).capacity(),
            final(self).entries() == put_entries(old(self).entries(), old(self).capacity(), entity_id@, results),
    {
        proof {
            lemma_put_keeps_cache_bounded(self.entries(), self.capacity(), entity_id@, results);
        }
        let _ = lru_put(&mut self.cache, entity_id.to_string(), results);
    }

    /// Forgets the results of the entity.
    pub fn remove(&mut self, entity_id: &str)
        requires
            old(self).wf(),
        ensures
            final(self).wf(),
            final(self).capacity() == old(self).capacity(),
            match key_index(old(self).entries(), entity_id@) {
                Some(i) => final(self).entries() == old(self).entries().remove(i),
                None => final(self).entries() == old(self).entries(),
            },
    {
        proof {
            lemma_without_key(self.entries(), entity_id@);
        }
        let _ = lru_pop(&mut self.cache, entity_id);
    }
}

/// Entity whose indexed mutations an index operation changes, when the
/// operation names it.
pub open spec fn touched_entity(op: IndexOperation) -> Option<Seq<char>> {
    match op {
        IndexOperation::PutTrait(put) => Some(put.entity_id@),
        IndexOperation::PutTraitTombstone(tombstone) => Some(tombstone.entity_id@),
        IndexOperation::PutEntityTombstone(tombstone) => Some(tombstone.entity_id@),
        IndexOperation::DeleteOperation(_) => None,
    }
}

/// Entries once the key's entry, if any, is removed.
pub open spec fn without_key(entries: Seq<(Seq<char>, MutationResults)>, key: Seq<char>) -> Seq<(Seq<char>, MutationResults)> {
    match key_index(entries, key) {
        Some(i) => entries.remove(i),
        None => entries,
    }
}

/// Entries once the entities touched by the first `n` operations are
/// removed, one operation after the other.
pub open spec fn evicted(entries: Seq<(Seq<char>, MutationResults)>, ops: Seq<IndexOperation>, n: nat) -> Seq<(Seq<char>, MutationResults)>
    decreases n,
{
    if n == 0 {
        entries
    } else {
        let before = evicted(entries, ops, (n - 1) as nat);
        match touched_entity(ops[n - 1]) {
            Some(key) => without_key(before, key),
            None => before,
        }
    }
}

impl EntityMutationsCache {
    /// Forgets the cached results of every entity that the index operations
    /// touch, as they are applied on the index, so that the cache never
    /// serves mutations older than those of the index. Returns the number of
    /// operations.
    pub fn evict_touched_entities(&mut self, operations: &Vec<IndexOperation>) -> (applied: usize)
        requires
            old(self).wf(),
        ensures
            final(self).wf(),
            applied == operations@.len(),
            forall|k: int| 0 <= k < operations@.len() && #[trigger] touched_entity(operations@[k]) is Some
                ==> key_index(final(self).entries(), touched_entity(operations@[k])->0) is None,
            forall|key: Seq<char>|
                (forall|k: int| 0 <= k < operations@.len() ==> #[trigger] touched_entity(operations@[k]) != Some(key))
                    ==> (key_index(final(self).entries(), key) is Some <==> key_index(old(self).entries(), key) is Some),
            final(self).capacity() == old(self).capacity(),
            final(self).entries() == evicted(old(self).entries(), operations@, operations@.len()),
    {
        let mut k: usize = 0;
        while k < operations.len()
            invariant
                k <= operations@.len(),
                self.wf(),
                self.capacity() == old(self).capacity(),
                self.entries() == evicted(old(self).entries(), operations@, k as nat),
            decreases operations@.len() - k,
        {
            match &operations[k] {
                IndexOperation::PutTrait(put) => self.remove(put.entity_id.as_str()),
                IndexOperation::PutTraitTombstone(tombstone) => self.remove(tombstone.entity_id.as_str()),
                IndexOperation::PutEntityTombstone(tombstone) => self.remove(tombstone.entity_id.as_str()),
                IndexOperation::DeleteOperation(_) => {},
            }
            k = k + 1;
        }
        proof {
            lemma_evicted_touched(old(self).entries(), operations@, operations@.len());
        }
        k
    }
}

/// Removing a key keeps the other keys distinct and leaves no entry for it.
proof fn lemma_without_key(entries: Seq<(Seq<char>, MutationResults)>, key: Seq<char>)
    requires
        keys_distinct(entries),
    ensures
        keys_distinct(without_key(entries, key)),
        key_index(without_key(entries, key), key) is None,
        forall|other: Seq<char>| other != key ==> (key_index(without_key(entries, key), other) is Some <==> key_index(entries, other) is Some),
{
    let w = without_key(entries, key);
    match key_index(entries, key) {
        Some(i) => {
            assert(entries[i].0 == key);
            assert forall|a: int, b: int| 0 <= a < w.len() && 0 <= b < w.len() && a != b implies #[trigger] w[a].0 != #[trigger] w[b].0 by {
                let a0 = if a < i { a } else { a + 1 };
                let b0 = if b < i { b } else { b + 1 };
                assert(w[a] == entries[a0]);
                assert(w[b] == entries[b0]);
            }
            assert forall|j: int| 0 <= j < w.len() implies #[trigger] w[j].0 != key by {
                let j0 = if j < i { j } else { j + 1 };
                assert(w[j] == entries[j0]);
            }
            assert forall|other: Seq<char>| other != key implies (key_index(w, other) is Some <==> key_index(entries, other) is Some) by {
                if key_index(entries, other) is Some {
                    let j = choose|j: int| 0 <= j < entries.len() && #[trigger] entries[j].0 == other;
                    assert(j != i);
                    let j1 = if j < i { j } else { j - 1 };
                    assert(w[j1] == entries[j]);
                }
                if key_index(w, other) is Some {
                    let j = choose|j: int| 0 <= j < w.len() && #[trigger] w[j].0 == other;
                    let j0 = if j < i { j } else { j + 1 };
                    assert(w[j] == entries[j0]);
                }
            }
        },
        None => {},
    }
}

/// Once index operations are applied, the cache holds no entry for an entity
/// that any of them touched, and keeps each other entity it held.
pub proof fn lemma_evicted_touched(entries: Seq<(Seq<char>, MutationResults)>, ops: Seq<IndexOperation>, n: nat)
    requires
        keys_distinct(entries),
        n <= ops.len(),
    ensures
        keys_distinct(evicted(entries, ops, n)),
        forall|k: int| 0 <= k < n && #[trigger] touched_entity(ops[k]) is Some ==> key_index(
            evicted(entries, ops, n),
            touched_entity(ops[k])->0,
        ) is None,
        forall|key: Seq<char>|
            (forall|k: int| 0 <= k < n ==> #[trigger] touched_entity(ops[k]) != Some(key)) ==> (key_index(
                evicted(entries, ops, n),
                key,
            ) is Some <==> key_index(entries, key) is Some),
    decreases n,
{
    if n > 0 {
        let m = (n - 1) as nat;
        lemma_evicted_touched(entries, ops, m);
        let before = evicted(entries, ops, m);
        match touched_entity(ops[m as int]) {
            Some(key) => {
                lemma_without_key(before, key);
                assert forall|k: int| 0 <= k < n && #[trigger] touched_entity(ops[k]) is Some implies key_index(
                    evicted(entries, ops, n),
                    touched_entity(ops[k])->0,
                ) is None by {
                    if k < m {
                        let other = touched_entity(ops[k])->0;
                        if other != key {
                            assert(key_index(before, other) is None);
                        }
                    }
                }
                assert forall|key2: Seq<char>|
                    (forall|k: int| 0 <= k < n ==> #[trigger] touched_entity(ops[k]) != Some(key2)) implies (key_index(
                        evicted(entries, ops, n),
                        key2,
                    ) is Some <==> key_index(entries, key2) is Some) by {
                    assert(touched_entity(ops[m as int]) != Some(key2));
                    assert forall|k: int| 0 <= k < m implies #[trigger] touched_entity(ops[k]) != Some(key2) by {
                        assert(touched_entity(ops[k]) != Some(key2));
                    }
                }
            },
            None => {
                assert forall|key2: Seq<char>|
                    (forall|k: int| 0 <= k < n ==> #[trigger] touched_entity(ops[k]) != Some(key2)) implies (key_index(
                        evicted(entries, ops, n),
                        key2,
                    ) is Some <==> key_index(entries, key2) is Some) by {
                    assert forall|k: int| 0 <= k < m implies #[trigger] touched_entity(ops[k]) != Some(key2) by {
                        assert(touched_entity(ops[k]) != Some(key2));
                    }
                }
            },
        }
    }
}

/// Making an entry the most recently used keeps each key once and the
/// number of entries.
proof fn lemma_moved_last_keeps_keys(entries: Seq<(Seq<char>, MutationResults)>, i: int)
    requires
        keys_distinct(entries),
        0 <= i < entries.len(),
    ensures
        keys_distinct(moved_last(entries, i)),
        moved_last(entries, i).len() == entries.len(),
{
    let m = moved_last(entries, i);
    let last = entries.len() - 1;
    assert forall|a: int, b: int| 0 <= a < m.len() && 0 <= b < m.len() && a != b implies #[trigger] m[a].0 != #[trigger] m[b].0 by {
        let a0 = if a == last { i } else if a < i { a } else { a + 1 };
        let b0 = if b == last { i } else if b < i { b } else { b + 1 };
        assert(m[a] == entries[a0]);
        assert(m[b] == entries[b0]);
    }
}

/// Putting keeps each key once and the cache within its capacity.
pub proof fn lemma_put_keeps_cache_bounded(entries: Seq<(Seq<char>, MutationResults)>, cap: nat, key: Seq<char>, value: MutationResults)
    requires
        keys_distinct(entries),
        entries.len() <= cap,
        cap > 0,
    ensures
        keys_distinct(put_entries(entries, cap, key, value)),
        put_entries(entries, cap, key, value).len() <= cap,
{
    let r = put_entries(entries, cap, key, value);
    match key_index(entries, key) {
        Some(i) => {
            let rem = entries.remove(i);
            assert forall|a: int, b: int| 0 <= a < r.len() && 0 <= b < r.len() && a != b implies #[trigger] r[a].0 != #[trigger] r[b].0 by {
                let a0 = if a < i { a } else { a + 1 };
                let b0 = if b < i { b } else { b + 1 };
                if a == rem.len() {
                    assert(r[b] == entries[b0]);
                    assert(entries[i].0 == key);
                } else if b == rem.len() {
                    assert(r[a] == entries[a0]);
                    assert(entries[i].0 == key);
                } else {
                    assert(r[a] == entries[a0]);
                    assert(r[b] == entries[b0]);
                }
            }
        },
        None => {
            let base = if entries.len() >= cap { entries.drop_first() } else { entries };
            assert forall|a: int, b: int| 0 <= a < r.len() && 0 <= b < r.len() && a != b implies #[trigger] r[a].0 != #[trigger] r[b].0 by {
                let off = if entries.len() >= cap { 1int } else { 0int };
                if a == base.len() {
                    assert(r[b] == entries[b + off]);
                    assert(!(entries[b + off].0 == key));
                } else if b == base.len() {
                    assert(r[a] == entries[a + off]);
                    assert(!(entries[a + off].0 == key));
                } else {
                    assert(r[a] == entries[a + off]);
                    assert(r[b] == entries[b + off]);
                }
            }
        },
    }
}

/// Results put for an entity are the ones its next get gives back.
pub proof fn lemma_get_after_put(entries: Seq<(Seq<char>, MutationResults)>, cap: nat, key: Seq<char>, value: MutationResults)
    requires
        keys_distinct(entries),
        entries.len() <= cap,
        cap > 0,
    ensures
        ({
            let r = put_entries(entries, cap, key, value);
            key_index(r, key) == Some(r.len() - 1) && r[r.len() - 1].1 == value
        }),
{
    lemma_put_keeps_cache_bounded(entries, cap, key, value);
    let r = put_entries(entries, cap, key, value);
    let last = r.len() - 1;
    assert(r[last].0 == key);
    let c = choose|i: int| 0 <= i < r.len() && #[trigger] r[i].0 == key;
    if c != last {
        assert(r[c].0 != r[last].0);
    }
}

} // verus!
