//! Garbage collection of entities' mutations from the mutations index.
//!
//! Since the chain holds an immutable list of entity mutations, deleting an
//! entity or a trait only puts a tombstone. The garbage collector generates
//! operation deletion mutations for entities that got flagged during searches:
//! a fully deleted entity, a fully deleted trait, or old versions of a trait.
use vstd::prelude::*;
use crate::store::mutation::{EntityId, EntityMutation, MutationBuilder, Mutation, DeleteOperationsMutation, OperationId, TraitId};
use crate::store::mutation_index::{DateTimeNanos, MutationMetadata, MutationType};

verus! {

pub const DAY_SECS: u64 = 86_400;

/// Configuration of the entity garbage collector. Durations are in seconds.
#[derive(Debug, Clone, Copy, PartialEq, Eq, Structural)]
pub struct GarbageCollectorConfig {
    /// After how long do we collect a fully deleted entity.
    pub deleted_entity_collection_secs: u64,
    /// After how long do we collect a fully deleted trait.
    pub deleted_trait_collection_secs: u64,
    /// Maximum versions to keep for a trait when it is compacted.
    pub trait_versions_max: usize,
    /// After how many versions for a trait a compaction is triggered.
    pub trait_versions_leeway: usize,
    /// Minimum age an operation needs to have in order to be collected.
    pub min_operation_age_secs: u64,
    /// Size of the queue of entities to be collected.
    pub queue_size: usize,
}

impl GarbageCollectorConfig {
    /// Default configuration: deleted entities and traits are collected after
    /// 14 days, traits are compacted to 5 versions once they have more than 7,
    /// operations are collected once 7 days old, and 500 entities get queued
    /// at most.
    pub fn default() -> (res: GarbageCollectorConfig)
        ensures
            res.deleted_entity_collection_secs == 14 * DAY_SECS,
            res.deleted_trait_collection_secs == 14 * DAY_SECS,
            res.trait_versions_max == 5,
            res.trait_versions_leeway == 7,
            res.min_operation_age_secs == 7 * DAY_SECS,
            res.queue_size == 500,
    {
        GarbageCollectorConfig {
            deleted_entity_collection_secs: 14 * DAY_SECS,
            deleted_trait_collection_secs: 14 * DAY_SECS,
            trait_versions_max: 5,
            trait_versions_leeway: 7,
            min_operation_age_secs: 7 * DAY_SECS,
            queue_size: 500,
        }
    }

    /// Configuration from the node's configuration: only the queue size can
    /// be configured there, the rest is the default.
    pub fn from_proto(queue_size: Option<u32>) -> (res: GarbageCollectorConfig)
        ensures
            res.queue_size == (match queue_size {
                Some(v) => v as usize,
                None => 500usize,
            }),
            res.deleted_entity_collection_secs == 14 * DAY_SECS,
            res.deleted_trait_collection_secs == 14 * DAY_SECS,
            res.trait_versions_max == 5,
            res.trait_versions_leeway == 7,
            res.min_operation_age_secs == 7 * DAY_SECS,
    {
        let mut config = GarbageCollectorConfig::default();
        if let Some(v) = queue_size {
            config.queue_size = v as usize;
        }
        config
    }
}

/// Aggregated state of a trait of an entity, as read by the collector.
#[derive(Debug, Clone)]
pub struct TraitAggregator {
    pub deletion_date: Option<DateTimeNanos>,
    pub mutation_count: usize,
}

/// Aggregated state of an entity out of its indexed mutations, as read by the
/// collector.
#[derive(Debug, Clone)]
pub struct EntityAggregator {
    pub entity_id: EntityId,
    /// Traits of the entity, by id.
    pub traits: Vec<(TraitId, TraitAggregator)>,
    /// Some mutations are still in the pending store.
    pub in_pending: bool,
    /// A deletion of operations is pending for the entity.
    pub pending_deletion: bool,
    pub deletion_date: Option<DateTimeNanos>,
    /// Operations that make the current state of the entity.
    pub active_operations: Vec<OperationId>,
}

/// Collection to apply to an entity.
#[derive(Debug, Clone, PartialEq, Eq)]
pub enum GCOperation {
    DeleteEntity,
    DeleteTrait(TraitId),
    CompactTrait(TraitId),
}

/// Nanoseconds in `secs` seconds.
pub open spec fn secs_nanos(secs: u64) -> int {
    secs * 1_000_000_000
}

/// The date is at least `secs` seconds before `now`.
pub open spec fn elapsed_at_least(now: DateTimeNanos, date: DateTimeNanos, secs: u64) -> bool {
    now - date >= secs_nanos(secs)
}

/// Collection of a single trait, if any: a trait deleted long enough ago is
/// deleted, otherwise a trait with too many versions is compacted.
pub open spec fn trait_collection(config: GarbageCollectorConfig, trait_id: TraitId, aggr: TraitAggregator, now: DateTimeNanos) -> Seq<GCOperation> {
    if aggr.deletion_date matches Some(d) && elapsed_at_least(now, d, config.deleted_trait_collection_secs) {
        seq![GCOperation::DeleteTrait(trait_id)]
    } else if aggr.mutation_count > config.trait_versions_leeway {
        seq![GCOperation::CompactTrait(trait_id)]
    } else {
        seq![]
    }
}

pub open spec fn traits_collections(config: GarbageCollectorConfig, traits: Seq<(TraitId, TraitAggregator)>, now: DateTimeNanos) -> Seq<GCOperation>
    decreases traits.len(),
{
    if traits.len() == 0 {
        seq![]
    } else {
        traits_collections(config, traits.drop_last(), now)
            + trait_collection(config, traits.last().0, traits.last().1, now)
    }
}

/// Collections to apply to an entity: none while any of its operations is
/// pending or a deletion is pending, the whole entity once deleted long
/// enough ago, or else each trait's collection.
pub open spec fn entity_collections(config: GarbageCollectorConfig, aggr: EntityAggregator, now: DateTimeNanos) -> Seq<GCOperation> {
    if aggr.in_pending || aggr.pending_deletion {
        seq![]
    } else if aggr.deletion_date matches Some(d) && elapsed_at_least(now, d, config.deleted_entity_collection_secs) {
        seq![GCOperation::DeleteEntity]
    } else {
        traits_collections(config, aggr.traits@, now)
    }
}

/// The mutation applies to the given trait (a put or a tombstone of it).
pub open spec fn is_trait_mutation(m: MutationMetadata, trait_id: Seq<char>) -> bool {
    match m.mutation_type {
        MutationType::TraitPut(put) => put.trait_id@ == trait_id,
        MutationType::TraitTombstone(id) => id@ == trait_id,
        _ => false,
    }
}

/// Operation ids of the mutations of the given trait, in order.
pub open spec fn trait_operation_ids(ms: Seq<MutationMetadata>, trait_id: Seq<char>) -> Seq<OperationId>
    decreases ms.len(),
{
    if ms.len() == 0 {
        seq![]
    } else {
        trait_operation_ids(ms.drop_last(), trait_id)
            + if is_trait_mutation(ms.last(), trait_id) { seq![ms.last().operation_id] } else { seq![] }
    }
}

/// Time of an operation: operation ids are consistent timestamps, in
/// nanoseconds since the Unix epoch.
pub open spec fn operation_time(op: OperationId) -> int {
    op as int
}

/// Operation ids of the given trait whose operation happened before `min_time`.
pub open spec fn old_trait_operation_ids(ms: Seq<MutationMetadata>, trait_id: Seq<char>, min_time: int) -> Seq<OperationId>
    decreases ms.len(),
{
    if ms.len() == 0 {
        seq![]
    } else {
        old_trait_operation_ids(ms.drop_last(), trait_id, min_time)
            + if is_trait_mutation(ms.last(), trait_id) && operation_time(ms.last().operation_id) < min_time {
                seq![ms.last().operation_id]
            } else {
                seq![]
            }
    }
}

/// The mutation deletes exactly the given operations of the entity.
pub open spec fn deletes_operations(m: EntityMutation, entity_id: EntityId, ops: Seq<OperationId>) -> bool {
    &&& m.entity_id == entity_id
    &&& m.mutation matches Some(Mutation::DeleteOperations(del)) && del.operation_ids@ == ops
}

fn build_deletion(entity_id: EntityId, operation_ids: Vec<OperationId>) -> (res: EntityMutation)
    ensures
        deletes_operations(res, entity_id, operation_ids@),
{
    let request = MutationBuilder::new().delete_operations(entity_id, operation_ids).build();
    let mut mutations = request.mutations;
    mutations.pop().unwrap()
}

/// Returns the operation ids of the mutations that apply to the given trait.
pub fn filter_trait_mutations(mutations: &Vec<MutationMetadata>, trait_id: &String) -> (res: Vec<OperationId>)
    ensures
        res@ == trait_operation_ids(mutations@, trait_id@),
{
    let mut res: Vec<OperationId> = Vec::new();
    let mut k: usize = 0;
    while k < mutations.len()
        invariant
            k <= mutations@.len(),
            res@ == trait_operation_ids(mutations@.take(k as int), trait_id@),
        decreases mutations@.len() - k,
    {
        let m = &mutations[k];
        let matches = match &m.mutation_type {
            MutationType::TraitPut(put) => put.trait_id == *trait_id,
            MutationType::TraitTombstone(id) => *id == *trait_id,
            _ => false,
        };
        if matches {
            res.push(m.operation_id);
        }
        proof {
            assert(mutations@.take(k as int + 1).drop_last() =~= mutations@.take(k as int));
        }
        k = k + 1;
    }
    proof {
        assert(mutations@.take(k as int) =~= mutations@);
    }
    res
}

/// Creates a deletion mutation for all operations of the deleted entity.
pub fn collect_delete_entity(aggr: &EntityAggregator, mutations: &Vec<MutationMetadata>) -> (res: Option<EntityMutation>)
    requires
        aggr.deletion_date is Some,
    ensures
        mutations@.len() == 0 ==> res is None,
        mutations@.len() > 0 ==> (res matches Some(m) && deletes_operations(
            m,
            aggr.entity_id,
            mutations@.map_values(|m: MutationMetadata| m.operation_id),
        )),
{
    let mut operation_ids: Vec<OperationId> = Vec::new();
    let mut k: usize = 0;
    while k < mutations.len()
        invariant
            k <= mutations@.len(),
            operation_ids@ == mutations@.take(k as int).map_values(|m: MutationMetadata| m.operation_id),
        decreases mutations@.len() - k,
    {
        operation_ids.push(mutations[k].operation_id);
        proof {
            assert(mutations@.take(k as int + 1) =~= mutations@.take(k as int).push(mutations@[k as int]));
        }
        k = k + 1;
        proof {
            assert(operation_ids@ =~= mutations@.take(k as int).map_values(|m: MutationMetadata| m.operation_id));
        }
    }
    proof {
        assert(mutations@.take(k as int) =~= mutations@);
    }
    if operation_ids.len() == 0 {
        return None;
    }
    Some(build_deletion(aggr.entity_id.clone(), operation_ids))
}

/// The entity has a trait with the given id whose deletion date is set.
pub open spec fn has_deleted_trait(aggr: EntityAggregator, trait_id: Seq<char>) -> bool {
    exists|k: int| 0 <= k < aggr.traits@.len() && #[trigger] aggr.traits@[k].0@ == trait_id && aggr.traits@[k].1.deletion_date is Some
}

/// Creates a deletion mutation for all operations of a deleted trait.
pub fn collect_delete_trait(aggr: &EntityAggregator, trait_id: &String, mutations: &Vec<MutationMetadata>) -> (res: Option<EntityMutation>)
    requires
        has_deleted_trait(*aggr, trait_id@),
    ensures
        trait_operation_ids(mutations@, trait_id@).len() == 0 ==> res is None,
        trait_operation_ids(mutations@, trait_id@).len() > 0 ==> (res matches Some(m)
            && deletes_operations(m, aggr.entity_id, trait_operation_ids(mutations@, trait_id@))),
{
    let operation_ids = filter_trait_mutations(mutations, trait_id);
    if operation_ids.len() == 0 {
        return None;
    }
    Some(build_deletion(aggr.entity_id.clone(), operation_ids))
}

/// None of the operations is active in the entity.
pub open spec fn all_inactive(aggr: EntityAggregator, ops: Seq<OperationId>) -> bool {
    forall|k: int| 0 <= k < ops.len() ==> !aggr.active_operations@.contains(#[trigger] ops[k])
}

/// Operations that a compaction of the trait deletes: the oldest of its
/// operations older than `min_time`, keeping `max_versions` of them.
pub open spec fn compacted_operation_ids(ms: Seq<MutationMetadata>, trait_id: Seq<char>, min_time: int, max_versions: usize) -> Seq<OperationId> {
    let old_ops = old_trait_operation_ids(ms, trait_id, min_time);
    if old_ops.len() <= max_versions {
        seq![]
    } else {
        old_ops.take(old_ops.len() - max_versions)
    }
}

/// Creates a deletion mutation for the oldest operations of a trait so that
/// only the `max_versions` most recent ones older than `min_op_time` are kept.
/// None of these operations may still be active (`requires`).
pub fn collect_trait_versions(
    aggr: &EntityAggregator,
    trait_id: &String,
    min_op_time: DateTimeNanos,
    max_versions: usize,
    mutations: &Vec<MutationMetadata>,
) -> (res: Option<EntityMutation>)
    requires
        all_inactive(*aggr, compacted_operation_ids(mutations@, trait_id@, min_op_time as int, max_versions)),
    ensures
        compacted_operation_ids(mutations@, trait_id@, min_op_time as int, max_versions).len() == 0 ==> res is None,
        compacted_operation_ids(mutations@, trait_id@, min_op_time as int, max_versions).len() > 0 ==> (res matches Some(m)
            && deletes_operations(m, aggr.entity_id, compacted_operation_ids(mutations@, trait_id@, min_op_time as int, max_versions))),
{
    let mut trait_operations: Vec<OperationId> = Vec::new();
    let mut k: usize = 0;
    while k < mutations.len()
        invariant
            k <= mutations@.len(),
            trait_operations@ == old_trait_operation_ids(mutations@.take(k as int), trait_id@, min_op_time as int),
        decreases mutations@.len() - k,
    {
        let m = &mutations[k];
        let matches = match &m.mutation_type {
            MutationType::TraitPut(put) => put.trait_id == *trait_id,
            MutationType::TraitTombstone(id) => *id == *trait_id,
            _ => false,
        };
        if matches && (m.operation_id as i128) < (min_op_time as i128) {
            trait_operations.push(m.operation_id);
        }
        proof {
            assert(mutations@.take(k as int + 1).drop_last() =~= mutations@.take(k as int));
        }
        k = k + 1;
    }
    proof {
        assert(mutations@.take(k as int) =~= mutations@);
    }
    if trait_operations.len() <= max_versions {
        return None;
    }
    let to_delete_count = trait_operations.len() - max_versions;
    let mut operation_ids: Vec<OperationId> = Vec::new();
    let mut j: usize = 0;
    while j < to_delete_count
        invariant
            to_delete_count <= trait_operations@.len(),
            j <= to_delete_count,
            operation_ids@ == trait_operations@.take(j as int),
        decreases to_delete_count - j,
    {
        operation_ids.push(trait_operations[j]);
        proof {
            assert(trait_operations@.take(j as int + 1) =~= trait_operations@.take(j as int).push(trait_operations@[j as int]));
        }
        j = j + 1;
    }
    Some(build_deletion(aggr.entity_id.clone(), operation_ids))
}

/// Operations that a collection deletes; empty when it deletes nothing.
pub open spec fn collected_operation_ids(
    config: GarbageCollectorConfig,
    aggr: EntityAggregator,
    ms: Seq<MutationMetadata>,
    min_time: int,
    op: GCOperation,
) -> Seq<OperationId> {
    match op {
        GCOperation::DeleteEntity => ms.map_values(|m: MutationMetadata| m.operation_id),
        GCOperation::DeleteTrait(trait_id) => trait_operation_ids(ms, trait_id@),
        GCOperation::CompactTrait(trait_id) => compacted_operation_ids(ms, trait_id@, min_time, config.trait_versions_max),
    }
}

/// Operations deleted by each deletion mutation generated for the given
/// collections, in order; collections that delete nothing generate none.
pub open spec fn collections_deletions(
    config: GarbageCollectorConfig,
    aggr: EntityAggregator,
    ms: Seq<MutationMetadata>,
    min_time: int,
    ops: Seq<GCOperation>,
) -> Seq<Seq<OperationId>>
    decreases ops.len(),
{
    if ops.len() == 0 {
        seq![]
    } else {
        let deleted = collected_operation_ids(config, aggr, ms, min_time, ops.last());
        collections_deletions(config, aggr, ms, min_time, ops.drop_last())
            + if deleted.len() == 0 { seq![] } else { seq![deleted] }
    }
}

/// Start of the time range of operations that can be collected.
pub open spec fn min_operation_time(config: GarbageCollectorConfig, now: DateTimeNanos) -> int {
    now - secs_nanos(config.min_operation_age_secs)
}

/// No compaction of the entity would delete an active operation.
pub open spec fn compactions_inactive(config: GarbageCollectorConfig, aggr: EntityAggregator, ms: Seq<MutationMetadata>, now: DateTimeNanos) -> bool {
    forall|k: int| 0 <= k < entity_collections(config, aggr, now).len()
        ==> (#[trigger] entity_collections(config, aggr, now)[k] matches GCOperation::CompactTrait(trait_id)
            ==> all_inactive(aggr, compacted_operation_ids(ms, trait_id@, min_operation_time(config, now), config.trait_versions_max)))
}

/// Each mutation deletes the corresponding operations of the entity.
pub open spec fn deletions_match(res: Seq<EntityMutation>, entity_id: EntityId, expected: Seq<Seq<OperationId>>) -> bool {
    &&& res.len() == expected.len()
    &&& forall|k: int| 0 <= k < res.len() ==> deletes_operations(#[trigger] res[k], entity_id, expected[k])
}

proof fn lemma_trait_collections_trait(config: GarbageCollectorConfig, traits: Seq<(TraitId, TraitAggregator)>, now: DateTimeNanos, k: int)
    requires
        0 <= k < traits_collections(config, traits, now).len(),
    ensures
        traits_collections(config, traits, now)[k] matches GCOperation::DeleteTrait(trait_id)
            ==> exists|j: int| 0 <= j < traits.len() && #[trigger] traits[j].0 == trait_id && traits[j].1.deletion_date is Some,
    decreases traits.len(),
{
    let prefix = traits_collections(config, traits.drop_last(), now);
    if k < prefix.len() {
        lemma_trait_collections_trait(config, traits.drop_last(), now, k);
        if let GCOperation::DeleteTrait(trait_id) = traits_collections(config, traits, now)[k] {
            let j = choose|j: int| 0 <= j < traits.drop_last().len() && #[trigger] traits.drop_last()[j].0 == trait_id && traits.drop_last()[j].1.deletion_date is Some;
            assert(traits[j] == traits.drop_last()[j]);
        }
    } else {
        if let GCOperation::DeleteTrait(trait_id) = traits_collections(config, traits, now)[k] {
            assert(traits[traits.len() - 1].0 == trait_id);
        }
    }
}

/// Trait that a collection applies to, if it applies to one.
pub open spec fn collected_trait(op: GCOperation) -> Option<Seq<char>> {
    match op {
        GCOperation::DeleteEntity => None,
        GCOperation::DeleteTrait(t) => Some(t@),
        GCOperation::CompactTrait(t) => Some(t@),
    }
}

/// Each trait of the entity is listed once.
pub open spec fn distinct_trait_ids(traits: Seq<(TraitId, TraitAggregator)>) -> bool {
    forall|i: int, j: int| 0 <= i < traits.len() && 0 <= j < traits.len() && i != j ==> #[trigger] traits[i].0@ != #[trigger] traits[j].0@
}

/// The trait got deleted at least the configured delay before `now`.
pub open spec fn trait_deleted_long_ago(config: GarbageCollectorConfig, aggr: TraitAggregator, now: DateTimeNanos) -> bool {
    aggr.deletion_date matches Some(d) && now - d >= config.deleted_trait_collection_secs * 1_000_000_000
}

/// What the collections of the traits are made of: each applies to one of
/// the traits, deletes it only when it got deleted long ago, compacts it only
/// when it didn't and has more versions than the leeway; no two collections
/// apply to the same trait; and each trait deleted long ago gets deleted,
/// each other trait with too many versions gets compacted.
proof fn lemma_traits_collections_law(config: GarbageCollectorConfig, traits: Seq<(TraitId, TraitAggregator)>, now: DateTimeNanos)
    requires
        distinct_trait_ids(traits),
    ensures
        ({
            let res = traits_collections(config, traits, now);
            &&& forall|k: int| 0 <= k < res.len() ==> exists|j: int| 0 <= j < traits.len() && {
                &&& collected_trait(#[trigger] res[k]) == Some(traits[j].0@)
                &&& (res[k] is DeleteTrait ==> trait_deleted_long_ago(config, traits[j].1, now))
                &&& (res[k] is CompactTrait ==> !trait_deleted_long_ago(config, traits[j].1, now)
                    && traits[j].1.mutation_count > config.trait_versions_leeway)
            }
            &&& forall|k1: int, k2: int| 0 <= k1 < k2 < res.len() ==> #[trigger] collected_trait(res[k1]) != #[trigger] collected_trait(res[k2])
            &&& forall|j: int| 0 <= j < traits.len() && trait_deleted_long_ago(config, #[trigger] traits[j].1, now)
                ==> res.contains(GCOperation::DeleteTrait(traits[j].0))
            &&& forall|j: int| 0 <= j < traits.len() && !trait_deleted_long_ago(config, #[trigger] traits[j].1, now)
                && traits[j].1.mutation_count > config.trait_versions_leeway ==> res.contains(GCOperation::CompactTrait(traits[j].0))
        }),
    decreases traits.len(),
{
    let res = traits_collections(config, traits, now);
    if traits.len() > 0 {
        let init = traits.drop_last();
        let n = traits.len() - 1;
        let (tid, ta) = traits[n];
        assert(traits.last() == traits[n]);
        assert(distinct_trait_ids(init)) by {
            assert forall|i: int, j: int| 0 <= i < init.len() && 0 <= j < init.len() && i != j implies #[trigger] init[i].0@ != #[trigger] init[j].0@ by {
                assert(init[i] == traits[i]);
                assert(init[j] == traits[j]);
            }
        }
        lemma_traits_collections_law(config, init, now);
        let pre = traits_collections(config, init, now);
        let last = trait_collection(config, tid, ta, now);
        assert(res == pre + last);
        assert(trait_deleted_long_ago(config, ta, now) == (ta.deletion_date matches Some(d) && elapsed_at_least(now, d, config.deleted_trait_collection_secs)));
        assert(last.len() <= 1);
        assert forall|k: int| 0 <= k < last.len() implies collected_trait(#[trigger] last[k]) == Some(tid@) by {}
        assert forall|k: int| 0 <= k < res.len() implies exists|j: int| 0 <= j < traits.len() && {
            &&& collected_trait(#[trigger] res[k]) == Some(traits[j].0@)
            &&& (res[k] is DeleteTrait ==> trait_deleted_long_ago(config, traits[j].1, now))
            &&& (res[k] is CompactTrait ==> !trait_deleted_long_ago(config, traits[j].1, now)
                && traits[j].1.mutation_count > config.trait_versions_leeway)
        } by {
            if k < pre.len() {
                assert(res[k] == pre[k]);
                let j = choose|j: int| 0 <= j < init.len() && {
                    &&& collected_trait(#[trigger] pre[k]) == Some(init[j].0@)
                    &&& (pre[k] is DeleteTrait ==> trait_deleted_long_ago(config, init[j].1, now))
                    &&& (pre[k] is CompactTrait ==> !trait_deleted_long_ago(config, init[j].1, now)
                        && init[j].1.mutation_count > config.trait_versions_leeway)
                };
                assert(init[j] == traits[j]);
            } else {
                assert(res[k] == last[k - pre.len()]);
                assert(collected_trait(res[k]) == Some(traits[n].0@));
            }
        }
        // collections of earlier traits never apply to the last one
        assert forall|k: int| 0 <= k < pre.len() implies #[trigger] collected_trait(pre[k]) != Some(tid@) by {
            let j = choose|j: int| 0 <= j < init.len() && {
                &&& collected_trait(#[trigger] pre[k]) == Some(init[j].0@)
                &&& (pre[k] is DeleteTrait ==> trait_deleted_long_ago(config, init[j].1, now))
                &&& (pre[k] is CompactTrait ==> !trait_deleted_long_ago(config, init[j].1, now)
                    && init[j].1.mutation_count > config.trait_versions_leeway)
            };
            assert(init[j] == traits[j]);
            assert(traits[j].0@ != traits[n].0@);
        }
        assert forall|k1: int, k2: int| 0 <= k1 < k2 < res.len() implies #[trigger] collected_trait(res[k1]) != #[trigger] collected_trait(res[k2]) by {
            if k2 < pre.len() {
                assert(res[k1] == pre[k1]);
                assert(res[k2] == pre[k2]);
                assert(collected_trait(pre[k1]) != collected_trait(pre[k2]));
            } else if k1 < pre.len() {
                assert(res[k1] == pre[k1]);
                assert(res[k2] == last[k2 - pre.len()]);
                assert(collected_trait(pre[k1]) != Some(tid@));
            } else {
                assert(false);
            }
        }
        assert forall|j: int| 0 <= j < traits.len() && trait_deleted_long_ago(config, #[trigger] traits[j].1, now)
            implies res.contains(GCOperation::DeleteTrait(traits[j].0)) by {
            if j < n {
                assert(init[j] == traits[j]);
                assert(trait_deleted_long_ago(config, init[j].1, now));
                let k = choose|k: int| 0 <= k < pre.len() && pre[k] == GCOperation::DeleteTrait(init[j].0);
                assert(res[k] == pre[k]);
            } else {
                assert(last == seq![GCOperation::DeleteTrait(tid)]);
                assert(res[pre.len() as int] == GCOperation::DeleteTrait(tid));
            }
        }
        assert forall|j: int| 0 <= j < traits.len() && !trait_deleted_long_ago(config, #[trigger] traits[j].1, now)
            && traits[j].1.mutation_count > config.trait_versions_leeway implies res.contains(GCOperation::CompactTrait(traits[j].0)) by {
            if j < n {
                assert(init[j] == traits[j]);
                assert(!trait_deleted_long_ago(config, init[j].1, now));
                let k = choose|k: int| 0 <= k < pre.len() && pre[k] == GCOperation::CompactTrait(init[j].0);
                assert(res[k] == pre[k]);
            } else {
                assert(last == seq![GCOperation::CompactTrait(tid)]);
                assert(res[pre.len() as int] == GCOperation::CompactTrait(tid));
            }
        }
    }
}

/// Collections of an entity: none while one of its operations is pending or
/// a deletion of operations is pending; only the whole entity's deletion once
/// it got deleted long enough ago; otherwise at most one collection per
/// trait, where a trait deleted long ago gets deleted and never compacted,
/// and any other trait with more versions than the leeway gets compacted.
pub proof fn lemma_entity_collections_law(config: GarbageCollectorConfig, aggr: EntityAggregator, now: DateTimeNanos)
    requires
        distinct_trait_ids(aggr.traits@),
    ensures
        ({
            let res = entity_collections(config, aggr, now);
            let traits = aggr.traits@;
            let entity_deleted = aggr.deletion_date matches Some(d) && now - d >= config.deleted_entity_collection_secs * 1_000_000_000;
            &&& (aggr.in_pending || aggr.pending_deletion) ==> res.len() == 0
            &&& (!aggr.in_pending && !aggr.pending_deletion && entity_deleted) ==> res == seq![GCOperation::DeleteEntity]
            &&& (!aggr.in_pending && !aggr.pending_deletion && !entity_deleted) ==> {
                &&& forall|k1: int, k2: int| 0 <= k1 < k2 < res.len() ==> #[trigger] collected_trait(res[k1]) != #[trigger] collected_trait(res[k2])
                &&& forall|k: int| 0 <= k < res.len() ==> exists|j: int| 0 <= j < traits.len() && {
                    &&& collected_trait(#[trigger] res[k]) == Some(traits[j].0@)
                    &&& (res[k] is DeleteTrait ==> trait_deleted_long_ago(config, traits[j].1, now))
                    &&& (res[k] is CompactTrait ==> !trait_deleted_long_ago(config, traits[j].1, now)
                        && traits[j].1.mutation_count > config.trait_versions_leeway)
                }
                &&& forall|j: int| 0 <= j < traits.len() && trait_deleted_long_ago(config, #[trigger] traits[j].1, now)
                    ==> res.contains(GCOperation::DeleteTrait(traits[j].0))
                        && !res.contains(GCOperation::CompactTrait(traits[j].0))
                &&& forall|j: int| 0 <= j < traits.len() && !trait_deleted_long_ago(config, #[trigger] traits[j].1, now)
                    && traits[j].1.mutation_count > config.trait_versions_leeway ==> res.contains(GCOperation::CompactTrait(traits[j].0))
            }
        }),
{
    let res = entity_collections(config, aggr, now);
    let traits = aggr.traits@;
    lemma_traits_collections_law(config, traits, now);
    if !aggr.in_pending && !aggr.pending_deletion {
        assert((aggr.deletion_date matches Some(d) && now - d >= config.deleted_entity_collection_secs * 1_000_000_000)
            == (aggr.deletion_date matches Some(d) && elapsed_at_least(now, d, config.deleted_entity_collection_secs)));
        if !(aggr.deletion_date matches Some(d) && elapsed_at_least(now, d, config.deleted_entity_collection_secs)) {
            assert(res == traits_collections(config, traits, now));
            assert forall|j: int| 0 <= j < traits.len() && trait_deleted_long_ago(config, #[trigger] traits[j].1, now)
                implies !res.contains(GCOperation::CompactTrait(traits[j].0)) by {
                let kd = choose|k: int| 0 <= k < res.len() && res[k] == GCOperation::DeleteTrait(traits[j].0);
                if res.contains(GCOperation::CompactTrait(traits[j].0)) {
                    let kc = choose|k: int| 0 <= k < res.len() && res[k] == GCOperation::CompactTrait(traits[j].0);
                    assert(collected_trait(res[kd]) == collected_trait(res[kc]));
                    if kd < kc {
                        assert(collected_trait(res[kd]) != collected_trait(res[kc]));
                    } else {
                        assert(collected_trait(res[kc]) != collected_trait(res[kd]));
                    }
                }
            }
        }
    }
}

/// Garbage collector of entities flagged during searches.
pub struct GarbageCollector {
    config: GarbageCollectorConfig,
    entity_ids: Vec<EntityId>,
}

impl GarbageCollector {
    /// Configuration of the collector.
    pub closed spec fn spec_config(&self) -> GarbageCollectorConfig {
        self.config
    }

    /// Entities queued for collection, without duplicates.
    pub closed spec fn queue(&self) -> Seq<Seq<char>> {
        self.entity_ids@.map_values(|id: EntityId| id@)
    }

    /// Ids of the entities queued for collection.
    pub closed spec fn queued_ids(&self) -> Seq<EntityId> {
        self.entity_ids@
    }

    /// Creates a collector with an empty queue. Each duration must fit in a
    /// date duration, which counts milliseconds in an `i64` (`requires`).
    pub fn new(config: GarbageCollectorConfig) -> (res: GarbageCollector)
        requires
            config.deleted_entity_collection_secs <= i64::MAX / 1000,
            config.deleted_trait_collection_secs <= i64::MAX / 1000,
            config.min_operation_age_secs <= i64::MAX / 1000,
        ensures
            res.spec_config() == config,
            res.queue() == Seq::<Seq<char>>::empty(),
    {
        let res = GarbageCollector { config, entity_ids: Vec::new() };
        proof {
            assert(res.queue() =~= Seq::<Seq<char>>::empty());
        }
        res
    }

    fn elapsed_at_least_exec(now: DateTimeNanos, date: DateTimeNanos, secs: u64) -> (res: bool)
        ensures
            res == elapsed_at_least(now, date, secs),
    {
        (now as i128) - (date as i128) >= (secs as i128) * 1_000_000_000
    }

    /// Generates the collections to apply to an entity at time `now`.
    pub fn gen_entity_collections(&self, aggregator: &EntityAggregator, now: DateTimeNanos) -> (res: Vec<GCOperation>)
        ensures
            res@ == entity_collections(self.spec_config(), *aggregator, now),
    {
        let mut ops: Vec<GCOperation> = Vec::new();
        if aggregator.in_pending || aggregator.pending_deletion {
            return ops;
        }
        if let Some(deletion_date) = aggregator.deletion_date {
            if Self::elapsed_at_least_exec(now, deletion_date, self.config.deleted_entity_collection_secs) {
                ops.push(GCOperation::DeleteEntity);
                return ops;
            }
        }
        let traits = &aggregator.traits;
        let mut k: usize = 0;
        while k < traits.len()
            invariant
                k <= traits@.len(),
                ops@ == traits_collections(self.config, traits@.take(k as int), now),
            decreases traits@.len() - k,
        {
            let (trait_id, trait_aggr) = &traits[k];
            let mut collected = false;
            if let Some(deletion_date) = trait_aggr.deletion_date {
                if Self::elapsed_at_least_exec(now, deletion_date, self.config.deleted_trait_collection_secs) {
                    ops.push(GCOperation::DeleteTrait(trait_id.clone()));
                    collected = true;
                }
            }
            if !collected && trait_aggr.mutation_count > self.config.trait_versions_leeway {
                ops.push(GCOperation::CompactTrait(trait_id.clone()));
            }
            proof {
                assert(traits@.take(k as int + 1).drop_last() =~= traits@.take(k as int));
                assert(ops@ =~= traits_collections(self.config, traits@.take(k as int + 1), now));
            }
            k = k + 1;
        }
        proof {
            assert(traits@.take(k as int) =~= traits@);
        }
        ops
    }

    /// Adds the entity to the queue unless the queue is full or already holds it.
    fn maybe_enqueue(&mut self, entity_id: &EntityId)
        requires
            old(self).queue().no_duplicates(),
        ensures
            final(self).spec_config() == old(self).spec_config(),
            final(self).queue().no_duplicates(),
            final(self).queue() == if old(self).queue().len() >= old(self).spec_config().queue_size
                || old(self).queue().contains(entity_id@) {
                old(self).queue()
            } else {
                old(self).queue().push(entity_id@)
            },
    {
        if self.entity_ids.len() >= self.config.queue_size {
            return;
        }
        let mut k: usize = 0;
        while k < self.entity_ids.len()
            invariant
                k <= self.entity_ids@.len(),
                self.queue() == old(self).queue(),
                old(self).queue().no_duplicates(),
                self.config == old(self).config,
                self.entity_ids@ == old(self).entity_ids@,
                forall|j: int| 0 <= j < k ==> #[trigger] self.entity_ids@[j]@ != entity_id@,
            decreases self.entity_ids@.len() - k,
        {
            if self.entity_ids[k] == *entity_id {
                proof {
                    assert(self.queue()[k as int] == entity_id@);
                }
                return;
            }
            k = k + 1;
        }
        proof {
            assert(!old(self).queue().contains(entity_id@)) by {
                if old(self).queue().contains(entity_id@) {
                    let j = choose|j: int| 0 <= j < old(self).queue().len() && old(self).queue()[j] == entity_id@;
                    assert(self.entity_ids@[j]@ == entity_id@);
                }
            }
        }
        self.entity_ids.push(entity_id.clone());
        proof {
            assert(self.queue() =~= old(self).queue().push(entity_id@));
        }
    }

    /// Number of entities queued for collection.
    pub fn queue_len(&self) -> (res: usize)
        ensures
            res == self.queue().len(),
    {
        self.entity_ids.len()
    }

    /// Checks if an entity whose mutations got aggregated from the index
    /// should be added to the collection queue.
    pub fn maybe_flag_for_collection(&mut self, aggregator: &EntityAggregator, now: DateTimeNanos)
        requires
            old(self).queue().no_duplicates(),
        ensures
            final(self).spec_config() == old(self).spec_config(),
            final(self).queue().no_duplicates(),
            final(self).queue() == if entity_collections(old(self).spec_config(), *aggregator, now).len() == 0
                || old(self).queue().len() >= old(self).spec_config().queue_size
                || old(self).queue().contains(aggregator.entity_id@) {
                old(self).queue()
            } else {
                old(self).queue().push(aggregator.entity_id@)
            },
    {
        let ops = self.gen_entity_collections(aggregator, now);
        if ops.len() > 0 {
            self.maybe_enqueue(&aggregator.entity_id);
        }
    }

    /// Generates the deletion mutations of an entity, given its aggregated
    /// state and its mutations sorted in commit order, at time `now`.
    pub fn collect_entity(&self, aggregator: &EntityAggregator, sorted_mutations: &Vec<MutationMetadata>, now: DateTimeNanos) -> (res: Vec<EntityMutation>)
        requires
            min_operation_time(self.spec_config(), now) >= i64::MIN,
            compactions_inactive(self.spec_config(), *aggregator, sorted_mutations@, now),
        ensures
            deletions_match(
                res@,
                aggregator.entity_id,
                collections_deletions(
                    self.spec_config(),
                    *aggregator,
                    sorted_mutations@,
                    min_operation_time(self.spec_config(), now),
                    entity_collections(self.spec_config(), *aggregator, now),
                ),
            ),
    {
        let min_op_time = ((now as i128) - (self.config.min_operation_age_secs as i128) * 1_000_000_000) as i64;
        let gc_ops = self.gen_entity_collections(aggregator, now);
        let ghost min_time = min_operation_time(self.config, now);
        let mut deletions: Vec<EntityMutation> = Vec::new();
        let mut k: usize = 0;
        while k < gc_ops.len()
            invariant
                k <= gc_ops@.len(),
                min_op_time as int == min_time,
                min_time == min_operation_time(self.config, now),
                gc_ops@ == entity_collections(self.config, *aggregator, now),
                compactions_inactive(self.config, *aggregator, sorted_mutations@, now),
                deletions_match(
                    deletions@,
                    aggregator.entity_id,
                    collections_deletions(self.config, *aggregator, sorted_mutations@, min_time, gc_ops@.take(k as int)),
                ),
            decreases gc_ops@.len() - k,
        {
            let ghost expected_before = collections_deletions(self.config, *aggregator, sorted_mutations@, min_time, gc_ops@.take(k as int));
            proof {
                assert(gc_ops@.take(k as int + 1).drop_last() =~= gc_ops@.take(k as int));
                assert(gc_ops@.take(k as int + 1).last() == gc_ops@[k as int]);
            }
            let opt_deletion = match &gc_ops[k] {
                GCOperation::DeleteEntity => {
                    proof {
                        if aggregator.in_pending || aggregator.pending_deletion {
                        } else if aggregator.deletion_date is None {
                            assert(gc_ops@ == traits_collections(self.config, aggregator.traits@, now));
                            lemma_traits_collections_no_entity(self.config, aggregator.traits@, now, k as int);
                        }
                    }
                    collect_delete_entity(aggregator, sorted_mutations)
                },
                GCOperation::DeleteTrait(trait_id) => {
                    proof {
                        lemma_entity_collections_trait(self.config, *aggregator, now, k as int);
                        let j = choose|j: int| 0 <= j < aggregator.traits@.len() && #[trigger] aggregator.traits@[j].0 == *trait_id && aggregator.traits@[j].1.deletion_date is Some;
                        assert(aggregator.traits@[j].0@ == trait_id@);
                    }
                    collect_delete_trait(aggregator, trait_id, sorted_mutations)
                },
                GCOperation::CompactTrait(trait_id) => {
                    proof {
                        let e = entity_collections(self.config, *aggregator, now);
                        assert(e[k as int] == GCOperation::CompactTrait(*trait_id));
                        assert(e[k as int] matches GCOperation::CompactTrait(t)
                            ==> all_inactive(*aggregator, compacted_operation_ids(sorted_mutations@, t@, min_operation_time(self.config, now), self.config.trait_versions_max)));
                        assert(all_inactive(*aggregator, compacted_operation_ids(sorted_mutations@, trait_id@, min_time, self.config.trait_versions_max)));
                        assert(min_op_time as int == min_time);
                    }
                    collect_trait_versions(aggregator, trait_id, min_op_time, self.config.trait_versions_max, sorted_mutations)
                },
            };
            if let Some(deletion) = opt_deletion {
                deletions.push(deletion);
            }
            k = k + 1;
            proof {
                let expected = collections_deletions(self.config, *aggregator, sorted_mutations@, min_time, gc_ops@.take(k as int));
                assert(deletions_match(deletions@, aggregator.entity_id, expected)) by {
                    assert forall|j: int| 0 <= j < deletions@.len() implies deletes_operations(#[trigger] deletions@[j], aggregator.entity_id, expected[j]) by {
                        if j < expected_before.len() {
                            assert(expected[j] == expected_before[j]);
                        }
                    }
                }
            }
        }
        proof {
            assert(gc_ops@.take(k as int) =~= gc_ops@);
        }
        deletions
    }
}

/// Entity and deleted operations of each deletion generated by a collection
/// pass, given what got fetched for each queued entity (`None` when the
/// entity couldn't be fetched).
pub open spec fn pass_deletions(
    config: GarbageCollectorConfig,
    fetched: Seq<Option<(EntityAggregator, Vec<MutationMetadata>)>>,
    now: DateTimeNanos,
) -> Seq<(EntityId, Seq<OperationId>)>
    decreases fetched.len(),
{
    if fetched.len() == 0 {
        seq![]
    } else {
        pass_deletions(config, fetched.drop_last(), now) + match fetched.last() {
            Some((aggr, ms)) => collections_deletions(
                config,
                aggr,
                ms@,
                min_operation_time(config, now),
                entity_collections(config, aggr, now),
            ).map_values(|d: Seq<OperationId>| (aggr.entity_id, d)),
            None => seq![],
        }
    }
}

/// Each mutation deletes the operations of the corresponding entity.
pub open spec fn pass_deletions_match(res: Seq<EntityMutation>, expected: Seq<(EntityId, Seq<OperationId>)>) -> bool {
    &&& res.len() == expected.len()
    &&& forall|k: int| 0 <= k < res.len() ==> deletes_operations(#[trigger] res[k], expected[k].0, expected[k].1)
}

impl GarbageCollector {
    /// Garbage collects the entities currently in queue, fetching their
    /// aggregated state and sorted mutations with `entity_fetcher`, at time
    /// `now`. Empties the queue and returns the deletion mutations.
    pub fn run<F: Fn(&EntityId) -> Option<(EntityAggregator, Vec<MutationMetadata>)>>(&mut self, entity_fetcher: F, now: DateTimeNanos) -> (res: Vec<EntityMutation>)
        requires
            min_operation_time(old(self).spec_config(), now) >= i64::MIN,
            forall|id: &EntityId| call_requires(entity_fetcher, (id,)),
            forall|id: &EntityId, r: Option<(EntityAggregator, Vec<MutationMetadata>)>|
                #[trigger] call_ensures(entity_fetcher, (id,), r) ==> (r matches Some(f)
                    ==> compactions_inactive(old(self).spec_config(), f.0, f.1@, now)),
        ensures
            final(self).spec_config() == old(self).spec_config(),
            final(self).queue() == Seq::<Seq<char>>::empty(),
            exists|fetched: Seq<Option<(EntityAggregator, Vec<MutationMetadata>)>>| {
                &&& fetched.len() == old(self).queued_ids().len()
                &&& forall|j: int| 0 <= j < fetched.len() ==> call_ensures(entity_fetcher, (&old(self).queued_ids()[j],), #[trigger] fetched[j])
                &&& pass_deletions_match(res@, pass_deletions(old(self).spec_config(), fetched, now))
            },
    {
        let mut entity_ids: Vec<EntityId> = Vec::new();
        std::mem::swap(&mut entity_ids, &mut self.entity_ids);
        proof {
            assert(self.queue() =~= Seq::<Seq<char>>::empty());
        }
        let mut deletions: Vec<EntityMutation> = Vec::new();
        let ghost mut fetched: Seq<Option<(EntityAggregator, Vec<MutationMetadata>)>> = seq![];
        let mut k: usize = 0;
        while k < entity_ids.len()
            invariant
                k <= entity_ids@.len(),
                entity_ids@ == old(self).queued_ids(),
                self.config == old(self).config,
                self.queue() == Seq::<Seq<char>>::empty(),
                min_operation_time(self.config, now) >= i64::MIN,
                forall|id: &EntityId| call_requires(entity_fetcher, (id,)),
                forall|id: &EntityId, r: Option<(EntityAggregator, Vec<MutationMetadata>)>|
                    #[trigger] call_ensures(entity_fetcher, (id,), r) ==> (r matches Some(f)
                        ==> compactions_inactive(self.config, f.0, f.1@, now)),
                fetched.len() == k,
                forall|j: int| 0 <= j < k ==> call_ensures(entity_fetcher, (&entity_ids@[j],), #[trigger] fetched[j]),
                pass_deletions_match(deletions@, pass_deletions(self.config, fetched, now)),
            decreases entity_ids@.len() - k,
        {
            let entity_id = &entity_ids[k];
            let opt_fetched = entity_fetcher(entity_id);
            let ghost before = deletions@;
            let ghost expected_before = pass_deletions(self.config, fetched, now);
            let ghost old_fetched = fetched;
            proof {
                fetched = fetched.push(opt_fetched);
                assert(fetched.drop_last() =~= old_fetched);
                assert(fetched.last() == opt_fetched);
                assert forall|j: int| 0 <= j < k + 1 implies call_ensures(entity_fetcher, (&entity_ids@[j],), #[trigger] fetched[j]) by {
                    if j < k {
                        assert(fetched[j] == old_fetched[j]);
                    }
                }
            }
            match opt_fetched {
                Some((aggregator, sorted_mutations)) => {
                    let entity_deletions = self.collect_entity(&aggregator, &sorted_mutations, now);
                    let ghost expected_entity = collections_deletions(
                        self.config,
                        aggregator,
                        sorted_mutations@,
                        min_operation_time(self.config, now),
                        entity_collections(self.config, aggregator, now),
                    );
                    let mut entity_deletions = entity_deletions;
                    let ghost appended = entity_deletions@;
                    deletions.append(&mut entity_deletions);
                    proof {
                        let expected = pass_deletions(self.config, fetched, now);
                        assert(expected == expected_before + expected_entity.map_values(|d: Seq<OperationId>| (aggregator.entity_id, d)));
                        assert forall|i: int| 0 <= i < deletions@.len() implies deletes_operations(#[trigger] deletions@[i], expected[i].0, expected[i].1) by {
                            if i < before.len() {
                                assert(deletions@[i] == before[i]);
                            } else {
                                let e = i - before.len();
                                assert(deletions@[i] == appended[e]);
                            }
                        }
                    }
                },
                None => {
                    proof {
                        assert(pass_deletions(self.config, fetched, now) == expected_before);
                    }
                },
            }
            k = k + 1;
        }
        deletions
    }
}

/// Trait collections never delete the whole entity.
proof fn lemma_traits_collections_no_entity(config: GarbageCollectorConfig, traits: Seq<(TraitId, TraitAggregator)>, now: DateTimeNanos, k: int)
    requires
        0 <= k < traits_collections(config, traits, now).len(),
    ensures
        !(traits_collections(config, traits, now)[k] is DeleteEntity),
    decreases traits.len(),
{
    let prefix = traits_collections(config, traits.drop_last(), now);
    if k < prefix.len() {
        lemma_traits_collections_no_entity(config, traits.drop_last(), now, k);
    }
}

/// A deleted trait collection is for a trait of the entity that has a
/// deletion date.
proof fn lemma_entity_collections_trait(config: GarbageCollectorConfig, aggr: EntityAggregator, now: DateTimeNanos, k: int)
    requires
        0 <= k < entity_collections(config, aggr, now).len(),
    ensures
        entity_collections(config, aggr, now)[k] matches GCOperation::DeleteTrait(trait_id)
            ==> exists|j: int| 0 <= j < aggr.traits@.len() && #[trigger] aggr.traits@[j].0 == trait_id && aggr.traits@[j].1.deletion_date is Some,
{
    if !(aggr.in_pending || aggr.pending_deletion) {
        if !(aggr.deletion_date matches Some(d) && elapsed_at_least(now, d, config.deleted_entity_collection_secs)) {
            lemma_trait_collections_trait(config, aggr.traits@, now, k);
        }
    }
}

} // verus!
