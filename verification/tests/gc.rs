use exocore::store::gc::{EntityAggregator, GarbageCollector, GarbageCollectorConfig, TraitAggregator};
use exocore::store::mutation::{EntityMutation, Mutation, OperationId};
use exocore::store::mutation_index::{MutationMetadata, MutationType, PutTraitMetadata};
use exocore::store::ordering::{OrderingValue, OrderingValueWrapper};

const SEC: i64 = 1_000_000_000;
// operation ids are timestamps in nanoseconds
const T0: u64 = 1_600_000_000 * 1_000_000_000;

fn config() -> GarbageCollectorConfig {
    GarbageCollectorConfig::default()
}

fn metadata(block_offset: Option<u64>, operation_id: OperationId, mutation_type: MutationType) -> MutationMetadata {
    MutationMetadata {
        operation_id,
        block_offset,
        entity_id: "et1".to_string(),
        mutation_type,
        sort_value: OrderingValueWrapper {
            value: OrderingValue { value: None, operation_id: 0 },
            reverse: false,
            ignore: false,
        },
    }
}

fn put(block_offset: Option<u64>, operation_id: OperationId, trait_id: &str) -> MutationMetadata {
    metadata(
        block_offset,
        operation_id,
        MutationType::TraitPut(PutTraitMetadata {
            trait_id: trait_id.to_string(),
            trait_type: Some("typ".to_string()),
            creation_date: None,
            modification_date: None,
            has_reference: false,
        }),
    )
}

fn trait_aggr(trait_id: &str, deletion_date: Option<i64>, mutation_count: usize) -> (String, TraitAggregator) {
    (trait_id.to_string(), TraitAggregator { deletion_date, mutation_count })
}

fn entity_aggr(traits: Vec<(String, TraitAggregator)>, deletion_date: Option<i64>, active: Vec<u64>) -> EntityAggregator {
    EntityAggregator {
        entity_id: "et1".to_string(),
        traits,
        in_pending: false,
        pending_deletion: false,
        deletion_date,
        active_operations: active,
    }
}

fn extract_ops(muts: Vec<EntityMutation>) -> Vec<OperationId> {
    muts.into_iter()
        .flat_map(|m| match m.mutation.unwrap() {
            Mutation::DeleteOperations(del_mut) => del_mut.operation_ids,
            _ => vec![],
        })
        .collect()
}

#[test]
fn collect_old_deleted_entity() {
    let config = GarbageCollectorConfig { deleted_entity_collection_secs: 1, min_operation_age_secs: 1, ..config() };
    let mut gc = GarbageCollector::new(config);
    let put_op = T0;
    let del_op = put_op + 1;
    let mutations = vec![
        put(Some(9), put_op, "trt1"),
        metadata(Some(10), del_op, MutationType::EntityTombstone),
    ];
    let aggregator = entity_aggr(vec![trait_aggr("trt1", None, 1)], Some(del_op as i64), vec![]);

    // entity cannot be collected since deletion is not old enough
    gc.maybe_flag_for_collection(&aggregator, T0 as i64);
    assert_eq!(gc.queue_len(), 0);

    // two seconds later, the delete operation is old enough
    let now = T0 as i64 + 2 * SEC;
    gc.maybe_flag_for_collection(&aggregator, now);
    assert_eq!(gc.queue_len(), 1);

    let deletions = gc.run(|_id| Some((aggregator.clone(), mutations.clone())), now);
    assert_eq!(deletions.len(), 1);
    assert_eq!(extract_ops(deletions), vec![put_op, del_op]);
    assert_eq!(gc.queue_len(), 0);
}

#[test]
fn collect_old_deleted_trait() {
    let config = GarbageCollectorConfig { deleted_trait_collection_secs: 1, min_operation_age_secs: 1, ..config() };
    let mut gc = GarbageCollector::new(config);
    let put1_op = T0;
    let put2_op = put1_op + 1;
    let del_op = put2_op + 1;
    let mutations = vec![
        put(Some(9), put1_op, "trt1"),
        put(Some(9), put2_op, "trt2"),
        metadata(Some(10), del_op, MutationType::TraitTombstone("trt1".to_string())),
    ];
    let aggregator = entity_aggr(
        vec![trait_aggr("trt1", Some(del_op as i64), 2), trait_aggr("trt2", None, 1)],
        None,
        vec![put2_op],
    );

    // deletion isn't a second old yet
    gc.maybe_flag_for_collection(&aggregator, T0 as i64);
    assert_eq!(gc.queue_len(), 0);

    let now = T0 as i64 + 2 * SEC;
    gc.maybe_flag_for_collection(&aggregator, now);
    assert_eq!(gc.queue_len(), 1);

    let deletions = gc.run(|_id| Some((aggregator.clone(), mutations.clone())), now);
    assert_eq!(deletions.len(), 1);
    assert_eq!(extract_ops(deletions), vec![put1_op, del_op]);
}

#[test]
fn collect_old_trait_versions() {
    let ops: Vec<u64> = (0..5).map(|i| T0 + i).collect();
    let mutations: Vec<MutationMetadata> = ops.iter().enumerate().map(|(i, op)| put(Some(2 + i as u64), *op, "trt1")).collect();
    let aggregator = entity_aggr(vec![trait_aggr("trt1", None, 5)], None, vec![ops[4]]);
    let now = T0 as i64 + 2 * SEC;

    // not enough versions to be collected
    let mut gc = GarbageCollector::new(GarbageCollectorConfig {
        trait_versions_max: 3,
        trait_versions_leeway: 6,
        min_operation_age_secs: 1,
        ..config()
    });
    gc.maybe_flag_for_collection(&aggregator, now);
    assert_eq!(gc.queue_len(), 0);

    // should now have enough versions to be collected
    let mut gc = GarbageCollector::new(GarbageCollectorConfig {
        trait_versions_max: 3,
        trait_versions_leeway: 4,
        min_operation_age_secs: 1,
        ..config()
    });
    gc.maybe_flag_for_collection(&aggregator, now);
    assert_eq!(gc.queue_len(), 1);

    // two first versions get deleted
    let deletions = gc.run(|_id| Some((aggregator.clone(), mutations.clone())), now);
    assert_eq!(deletions.len(), 1);
    assert_eq!(extract_ops(deletions), vec![ops[0], ops[1]]);
}

#[test]
fn cannot_collect_if_pending_deletion() {
    let aggregator = EntityAggregator {
        pending_deletion: true,
        ..entity_aggr(vec![trait_aggr("trt1", None, 4)], None, vec![T0 + 3])
    };
    let mut gc = GarbageCollector::new(GarbageCollectorConfig {
        trait_versions_max: 2,
        trait_versions_leeway: 3,
        min_operation_age_secs: 1,
        ..config()
    });
    gc.maybe_flag_for_collection(&aggregator, T0 as i64 + 60 * SEC);
    assert_eq!(gc.queue_len(), 0);
}

#[test]
fn cannot_collect_if_any_operations_in_pending() {
    let aggregator = EntityAggregator {
        in_pending: true,
        ..entity_aggr(vec![trait_aggr("trt1", None, 5)], None, vec![T0 + 4])
    };
    let mut gc = GarbageCollector::new(GarbageCollectorConfig {
        trait_versions_max: 2,
        trait_versions_leeway: 3,
        min_operation_age_secs: 1,
        ..config()
    });
    gc.maybe_flag_for_collection(&aggregator, T0 as i64 + 60 * SEC);
    assert_eq!(gc.queue_len(), 0);
}

#[test]
fn queue_is_bounded_and_without_duplicates() {
    let config = GarbageCollectorConfig { deleted_entity_collection_secs: 1, queue_size: 2, ..config() };
    let mut gc = GarbageCollector::new(config);
    let now = T0 as i64 + 10 * SEC;
    let mut aggregator = entity_aggr(vec![], Some(T0 as i64), vec![]);
    gc.maybe_flag_for_collection(&aggregator, now);
    gc.maybe_flag_for_collection(&aggregator, now);
    assert_eq!(gc.queue_len(), 1);
    aggregator.entity_id = "et2".to_string();
    gc.maybe_flag_for_collection(&aggregator, now);
    aggregator.entity_id = "et3".to_string();
    gc.maybe_flag_for_collection(&aggregator, now);
    assert_eq!(gc.queue_len(), 2);
}

#[test]
fn default_gc_config() {
    let config = GarbageCollectorConfig::default();
    assert_eq!(config.deleted_entity_collection_secs, 14 * 86_400);
    assert_eq!(config.trait_versions_max, 5);
    assert_eq!(config.trait_versions_leeway, 7);
    assert_eq!(config.queue_size, 500);
    assert_eq!(GarbageCollectorConfig::from_proto(Some(10)).queue_size, 10);
}
