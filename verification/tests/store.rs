use exocore::store::entity_cache::EntityMutationsCache;
use exocore::store::error::Error;
use exocore::store::config::{ClientConfiguration, NodeStoreConfig, ServerConfiguration, StoreConfig};
use exocore::store::entity_index::{
    chain_divergence_action, chain_events_actions, chain_index_batch, chain_indexing_start, merge_entity_mutations,
    fetched_trait, pending_index_batch, reindex_pending_operations, trait_fetch, TraitAggregate, TraitFetch,
    ChainEvent, ChainEventAction, ChainIndexing, DivergenceAction, EngineOperation, EngineOperationStatus,
    EntityIndexConfig, EntityIndexError,
};
use exocore::store::local_store::{
    events_for_index, prepare_mutations, query_result_action, should_skip_deferred_indexing, should_track_mutation,
    MutationRequestError, QueryResultAction, QuerySender,
};
use exocore::store::mutation::{
    DeleteTraitMutation, EntityMutation, Mutation, MutationBuilder, PutTraitMutation, TestMutation, Timestamp, Trait,
};
use exocore::store::mutation_index::{
    dedup_results, paged_results, IndexOperation, MutationMetadata, MutationResults, MutationType,
    PutEntityTombstoneMutation, PutTraitIndexMutation, Storage,
};
use exocore::store::ordering::{value_from_u64, value_max, value_min, OrderingValue, OrderingValueWrapper, Paging, Value};
use exocore::store::remote::{ClientNodes, ClientRequests, ResponseError, ResponseKind, ResponseTarget, TimedRegistry};
use exocore::transport::ConnectionStatus;
use std::cmp::Ordering;

fn trt(id: &str) -> Trait {
    Trait {
        id: id.to_string(),
        message: None,
        creation_date: None,
        modification_date: None,
        deletion_date: None,
        last_operation_id: 0,
    }
}

fn put_mutation(entity_id: &str, trait_id: &str) -> EntityMutation {
    EntityMutation {
        entity_id: entity_id.to_string(),
        mutation: Some(Mutation::PutTrait(PutTraitMutation { trt: Some(trt(trait_id)) })),
    }
}

fn meta(operation_id: u64, block_offset: Option<u64>) -> MutationMetadata {
    MutationMetadata {
        operation_id,
        block_offset,
        entity_id: "et".to_string(),
        mutation_type: MutationType::EntityTombstone,
        sort_value: OrderingValueWrapper { value: value_from_u64(0, operation_id), reverse: false, ignore: false },
    }
}

fn committed(operation_id: u64, offset: u64, height: u64) -> EngineOperation {
    EngineOperation {
        operation_id,
        status: EngineOperationStatus::Committed(offset, height),
        entity_mutation: Some(put_mutation("et1", "t1")),
    }
}

#[test]
fn test_chain_index_block_depth_leeway() {
    let config = EntityIndexConfig { chain_index_min_depth: 1, chain_index_depth_leeway: 5, ..EntityIndexConfig::default() };
    // nothing indexed yet: index from the start
    assert_eq!(chain_indexing_start(Some((100, 3)), None, &config), Ok(ChainIndexing::From(None)));
    // chain grew by less than the leeway: nothing to index
    assert_eq!(chain_indexing_start(Some((400, 7)), Some((100, 3)), &config), Ok(ChainIndexing::UpToDate));
    // chain grew enough: index from the last indexed block
    assert_eq!(chain_indexing_start(Some((600, 8)), Some((100, 3)), &config), Ok(ChainIndexing::From(Some(100))));
    assert_eq!(chain_indexing_start(None, None, &config), Err(EntityIndexError::EmptyChain));
}

#[test]
fn chain_divergence() {
    assert_eq!(chain_divergence_action(Some(10), 20), Ok(DivergenceAction::ReindexPending));
    assert_eq!(
        chain_divergence_action(Some(20), 20),
        Err(EntityIndexError::ChainDiverged { diverged_offset: 20, last_indexed_offset: 20 })
    );
    assert_eq!(chain_divergence_action(None, 5), Ok(DivergenceAction::ReindexChain));

    // a divergence at or before the last indexed block stops the store
    match chain_divergence_action(Some(30), 20) {
        Err(err) => assert!(err.is_fatal()),
        Ok(_) => panic!("expected a divergence error"),
    }
    assert!(!EntityIndexError::EmptyChain.is_fatal());
}

#[test]
fn reindex_pending_on_discontinuity() {
    let actions = chain_events_actions(&vec![
        ChainEvent::NewPendingOperation(1),
        ChainEvent::NewPendingOperation(2),
        ChainEvent::StreamDiscontinuity,
        ChainEvent::NewPendingOperation(3),
    ]);
    assert_eq!(actions.len(), 3);
    assert!(matches!(&actions[0], ChainEventAction::IndexPendingOperations(ids) if ids == &vec![1, 2]));
    assert!(matches!(&actions[1], ChainEventAction::ReindexPending));
    assert!(matches!(&actions[2], ChainEventAction::IndexPendingOperations(ids) if ids == &vec![3]));
}

#[test]
fn chain_events_dispatch() {
    let actions = chain_events_actions(&vec![
        ChainEvent::Started,
        ChainEvent::NewChainBlock(3),
        ChainEvent::ChainDiverged(4),
    ]);
    assert!(matches!(actions[0], ChainEventAction::IndexChainAndReindexPending));
    assert!(matches!(actions[1], ChainEventAction::IndexChain));
    assert!(matches!(actions[2], ChainEventAction::HandleDivergence(4)));
    assert!(chain_events_actions(&vec![]).is_empty());
}

#[test]
fn chain_batch_indexes_deep_enough_blocks() {
    let ops = vec![
        committed(1, 10, 1),
        committed(2, 20, 2),
        EngineOperation { operation_id: 3, status: EngineOperationStatus::Pending, entity_mutation: None },
        committed(4, 30, 5),
    ];
    // chain height 5, min depth 3: blocks of height <= 2 past offset 10 get indexed
    let batch = chain_index_batch(ops, Some(10), 5, 3, false);
    assert_eq!(batch.affected_operations, vec![1, 2, 3, 4]);
    assert_eq!(batch.chain_operations.len(), 1);
    assert!(matches!(&batch.chain_operations[0], IndexOperation::PutTrait(p) if p.operation_id == 2 && p.block_offset == Some(20)));
    assert!(matches!(batch.pending_operations[..], [IndexOperation::DeleteOperation(2)]));
    assert_eq!(batch.highest_offset, Some(20));
    assert_eq!(batch.operations_count(), 1);
    assert_eq!(batch.chain_index_last_block(Some(10)), Some(20));

    let batch = chain_index_batch(vec![committed(1, 10, 1)], None, 5, 3, true);
    assert!(batch.pending_operations.is_empty());
    assert_eq!(batch.chain_index_last_block(Some(7)), Some(7));
}

#[test]
fn fetch_entity_mutations() {
    let pending = vec![meta(5, None), meta(3, None)];
    let chain = vec![meta(4, Some(2)), meta(3, Some(1)), meta(6, Some(2))];
    let merged = merge_entity_mutations(pending, chain);
    let ids: Vec<(u64, Option<u64>)> = merged.iter().map(|m| (m.operation_id, m.block_offset)).collect();
    assert_eq!(ids, vec![(3, Some(1)), (4, Some(2)), (6, Some(2)), (3, None), (5, None)]);

    let merged = merge_entity_mutations(vec![meta(7, Some(1))], vec![meta(7, Some(1))]);
    assert_eq!(merged.len(), 1);
}

#[test]
fn entity_index_default_config() {
    let config = EntityIndexConfig::default();
    assert_eq!(config.chain_index_min_depth, 3);
    assert_eq!(config.chain_index_depth_leeway, 10);
    assert!(!config.chain_index_in_memory);
}

#[test]
fn store_mutate_generate_ids() {
    let mutations = vec![
        EntityMutation { entity_id: String::new(), mutation: Some(Mutation::PutTrait(PutTraitMutation { trt: Some(trt("")) })) },
        EntityMutation { entity_id: String::new(), mutation: Some(Mutation::PutTrait(PutTraitMutation { trt: Some(trt("t2")) })) },
        put_mutation("et9", "t3"),
    ];
    let fresh_entities = vec!["et_a".to_string(), "et_b".to_string(), "et_c".to_string()];
    let fresh_traits = vec!["trt_a".to_string(), "trt_b".to_string(), "trt_c".to_string()];

    let prepared = prepare_mutations(mutations.clone(), false, fresh_entities.clone(), fresh_traits.clone());
    assert_eq!(prepared.error, None);
    let ids: Vec<&str> = prepared.mutations.iter().map(|m| m.entity_id.as_str()).collect();
    assert_eq!(ids, vec!["et_a", "et_b", "et9"]);
    match &prepared.mutations[0].mutation {
        Some(Mutation::PutTrait(PutTraitMutation { trt: Some(t) })) => assert_eq!(t.id, "trt_a"),
        _ => panic!("expected a put"),
    }
    match &prepared.mutations[1].mutation {
        Some(Mutation::PutTrait(PutTraitMutation { trt: Some(t) })) => assert_eq!(t.id, "t2"),
        _ => panic!("expected a put"),
    }

    // with a common entity id, the second mutation takes the first one's id
    let prepared = prepare_mutations(mutations, true, fresh_entities, fresh_traits);
    let ids: Vec<&str> = prepared.mutations.iter().map(|m| m.entity_id.as_str()).collect();
    assert_eq!(ids, vec!["et_a", "et_a", "et9"]);
}

#[test]
fn mutation_error_propagating() {
    let mutations = vec![
        put_mutation("et1", "t1"),
        EntityMutation { entity_id: "et1".to_string(), mutation: Some(Mutation::Test(TestMutation { success: false })) },
        put_mutation("et1", "t2"),
    ];
    let fresh = vec![String::new(), String::new(), String::new()];
    let prepared = prepare_mutations(mutations, false, fresh.clone(), fresh);
    assert_eq!(prepared.error, Some(MutationRequestError::MutationExpected));
    assert_eq!(prepared.mutations.len(), 1);
}

#[test]
fn store_decisions() {
    assert!(should_track_mutation(true, false, 1));
    assert!(should_track_mutation(false, true, 2));
    assert!(!should_track_mutation(true, true, 0));
    assert!(!should_track_mutation(false, false, 3));

    let events = vec![ChainEvent::NewChainBlock(1), ChainEvent::NewPendingOperation(2)];
    assert_eq!(events_for_index(events.clone(), true), vec![ChainEvent::NewPendingOperation(2)]);
    assert_eq!(events_for_index(events.clone(), false), events);

    assert!(should_skip_deferred_indexing(100, 1_000, 5_000, 60_000));
    assert!(!should_skip_deferred_indexing(100, 60_000, 5_000, 60_000));
    assert!(!should_skip_deferred_indexing(5_000, 1_000, 5_000, 60_000));

    assert_eq!(query_result_action(QuerySender::Query, false), QueryResultAction::Reply);
    assert_eq!(query_result_action(QuerySender::WatchedQuery(3), true), QueryResultAction::ReplyIfChanged(3));
    assert_eq!(query_result_action(QuerySender::WatchedQuery(3), false), QueryResultAction::UnwatchAndReply(3));
}

#[test]
fn mutation_builder_builds_in_order() {
    let request = MutationBuilder::new()
        .put_trait("et1".to_string(), trt("t1"))
        .delete_trait("et1".to_string(), "t2".to_string())
        .return_entities()
        .build();
    assert_eq!(request.mutations.len(), 2);
    assert!(request.return_entities);
    assert!(!request.wait_indexed);
    assert!(matches!(&request.mutations[1].mutation, Some(Mutation::DeleteTrait(DeleteTraitMutation { trait_id })) if trait_id == "t2"));
}

#[test]
fn index_operations_from_mutations() {
    let ops = IndexOperation::from_pending_engine_operation(9, Some(put_mutation("et1", "t1")));
    assert!(matches!(&ops[..], [IndexOperation::PutTrait(p)] if p.block_offset.is_none() && p.operation_id == 9 && p.entity_id == "et1"));
    let ops = IndexOperation::from_chain_engine_operation(9, Some(put_mutation("et1", "t1")), 44);
    assert!(matches!(&ops[..], [IndexOperation::PutTrait(p)] if p.block_offset == Some(44)));
    assert!(IndexOperation::from_chain_engine_operation(9, None, 44).is_empty());
}

#[test]
fn dedup_and_paging_results() {
    let mut results = MutationResults { mutations: vec![meta(1, None), meta(1, None), meta(2, None)], total: 3, remaining: 0, next_page: None };
    dedup_results(&Storage::Memory, &mut results);
    let ids: Vec<u64> = results.mutations.iter().map(|m| m.operation_id).collect();
    assert_eq!(ids, vec![1, 2]);

    let paging = Paging { after_ordering_value: None, before_ordering_value: None, count: 2, offset: 4 };
    let page = paged_results(vec![meta(1, None), meta(2, None)], 10, &paging);
    assert_eq!(page.remaining, 4);
    assert_eq!(page.next_page.map(|p| (p.count, p.offset)), Some((2, 6)));
    let page = paged_results(vec![meta(1, None)], 10, &paging);
    assert!(page.next_page.is_none());
}

#[test]
fn ordering_values_compare() {
    let a = value_from_u64(1, 10);
    let b = value_from_u64(2, 5);
    assert_eq!(a.partial_cmp(&b), Some(Ordering::Less));
    assert_eq!(a.partial_cmp(&value_from_u64(1, 11)), Some(Ordering::Less));
    assert!(value_max().is_after(&b));
    assert!(value_min().is_before(&a));
    let date = OrderingValue { value: Some(Value::Date(exocore::store::ordering::DateValue { seconds: 1, nanos: 0 })), operation_id: 1 };
    assert_eq!(a.partial_cmp(&date), None);

    let wa = OrderingValueWrapper { value: a, reverse: true, ignore: false };
    let wb = OrderingValueWrapper { value: b, reverse: true, ignore: false };
    assert_eq!(wa.cmp(&wb), Ordering::Greater);
    let ignored = OrderingValueWrapper { value: b, reverse: false, ignore: true };
    assert_eq!(ignored.partial_cmp(&wa), Some(Ordering::Less));
    assert!(wa.is_within_bound(&value_min(), &value_max()));

    let paging = Paging { after_ordering_value: Some(value_from_u64(0, 0)), before_ordering_value: Some(b), count: 10, offset: 0 };
    assert!(a.is_within_page_bound(&paging));
    assert!(!b.is_within_page_bound(&paging));
}

#[test]
fn configurations_defaults() {
    let config = StoreConfig::default();
    assert_eq!(config.query_parallelism, 4);
    assert_eq!(config.mutation_tracker_timeout_ms, 5_000);
    let config = StoreConfig::from_proto(NodeStoreConfig { query_parallelism: Some(8), index: None });
    assert_eq!(config.query_parallelism, 8);
    assert_eq!(ClientConfiguration::default().query_timeout_ms, 10_000);
    assert_eq!(ServerConfiguration::default().watched_queries_register_timeout_ms, 20_000);
}

#[test]
fn watched_queries_registry_expires_unregistered() {
    let mut registry = TimedRegistry::new();
    assert!(!registry.register(1, 0));
    assert!(!registry.register(2, 5_000));
    assert!(registry.register(1, 10_000));
    let mut expired = registry.remove_expired(26_000, 20_000);
    expired.sort();
    assert_eq!(expired, vec![2]);
    assert!(registry.contains(1));
    assert!(registry.remove(1));
    assert!(!registry.remove(1));
}

#[test]
fn client_keepalive_and_timeouts() {
    let mut watched = TimedRegistry::new();
    watched.register(1, 0);
    watched.register(2, 8_000);
    let mut due = watched.refresh_due(11_000, 10_000, false);
    due.sort();
    assert_eq!(due, vec![1]);
    let mut due = watched.refresh_due(11_500, 10_000, true);
    due.sort();
    assert_eq!(due, vec![1, 2]);
    assert!(watched.refresh_due(12_000, 10_000, false).is_empty());
}

#[test]
fn client_routes_responses() {
    let mut requests = ClientRequests {
        pending_mutations: TimedRegistry::new(),
        pending_queries: TimedRegistry::new(),
        watched_queries: TimedRegistry::new(),
    };
    requests.pending_mutations.register(1, 0);
    requests.pending_queries.register(2, 0);
    requests.watched_queries.register(3, 0);

    assert_eq!(requests.route_response(ResponseKind::Mutation, 1), Ok(ResponseTarget::PendingMutation));
    assert_eq!(requests.route_response(ResponseKind::Mutation, 1), Err(ResponseError::UnknownMutation));
    assert_eq!(requests.route_response(ResponseKind::Query, 3), Ok(ResponseTarget::WatchedQuery));
    assert_eq!(requests.route_response(ResponseKind::Query, 2), Ok(ResponseTarget::PendingQuery));
    assert_eq!(requests.route_response(ResponseKind::Query, 2), Err(ResponseError::UnknownQuery));
    assert_eq!(requests.route_response(ResponseKind::Invalid, 3), Ok(ResponseTarget::UnwatchedQuery));
    assert_eq!(requests.route_response(ResponseKind::Invalid, 3), Ok(ResponseTarget::Nothing));
}

#[test]
fn connects_to_online_node() {
    let mut nodes = ClientNodes::new();
    let store_nodes = vec!["n1".to_string(), "n2".to_string()];
    assert_eq!(nodes.get_store_node(), None);
    assert!(nodes.accepts_message_from(&"n9".to_string()));

    // n2 gets connected: it becomes the store node
    assert!(nodes.handle_node_status_change(&"n2".to_string(), ConnectionStatus::Connected, &store_nodes));
    assert_eq!(nodes.get_store_node(), Some("n2".to_string()));
    assert!(!nodes.accepts_message_from(&"n1".to_string()));

    // n1 gets connected: n2 stays the store node
    assert!(!nodes.handle_node_status_change(&"n3".to_string(), ConnectionStatus::Disconnected, &store_nodes));
    assert!(nodes.handle_node_status_change(&"n1".to_string(), ConnectionStatus::Connected, &store_nodes));
    assert_eq!(nodes.get_store_node(), Some("n2".to_string()));

    // n2 disconnects: n1 takes over
    assert!(nodes.handle_node_status_change(&"n2".to_string(), ConnectionStatus::Disconnected, &store_nodes));
    assert_eq!(nodes.get_store_node(), Some("n1".to_string()));
}

#[test]
fn entity_cache_evicts_least_recently_used() {
    let results = |total: usize| MutationResults { mutations: vec![], total, remaining: 0, next_page: None };
    let mut cache = EntityMutationsCache::new(2);
    cache.put("a", results(1));
    cache.put("b", results(2));
    assert_eq!(cache.get("a").map(|r| r.total), Some(1));
    // "b" is now the least recently used entity: it gets evicted
    cache.put("c", results(3));
    assert!(cache.get("b").is_none());
    assert_eq!(cache.get("c").map(|r| r.total), Some(3));
    cache.put("a", results(4));
    assert_eq!(cache.get("a").map(|r| r.total), Some(4));
    cache.remove("a");
    assert!(cache.get("a").is_none());
}

#[test]
fn fatal_store_errors() {
    assert!(Error::Fatal("x".to_string()).is_fatal());
    assert!(Error::Io("x".to_string()).is_fatal());
    assert!(Error::ChainEngine("x".to_string(), true).is_fatal());
    assert!(!Error::ChainEngine("x".to_string(), false).is_fatal());
    assert!(!Error::NotConnected.is_fatal());
    assert!(!Error::Timeout(10, 5).is_fatal());
}

#[test]
fn reindex_pending_takes_chain_past_index_then_pending_store() {
    let pending_op = |id: u64| EngineOperation {
        operation_id: id,
        status: EngineOperationStatus::Pending,
        entity_mutation: Some(put_mutation("et2", "t2")),
    };
    let chain_ops = vec![committed(1, 10, 1), committed(2, 20, 2), committed(3, 30, 3)];
    // pending store: operation 2 got committed in the meantime, 5 and 6 are pending
    let pending_ops = vec![
        EngineOperation {
            operation_id: 2,
            status: EngineOperationStatus::Committed(20, 2),
            entity_mutation: Some(put_mutation("et1", "t1")),
        },
        pending_op(5),
        EngineOperation { operation_id: 6, status: EngineOperationStatus::Pending, entity_mutation: None },
    ];
    // chain index holds blocks up to offset 10
    let ops = reindex_pending_operations(chain_ops, pending_ops, Some((10, 1)));
    let ids: Vec<u64> = ops
        .iter()
        .map(|op| match op {
            IndexOperation::PutTrait(p) => {
                assert!(p.block_offset.is_none());
                p.operation_id
            }
            _ => panic!("expected a trait put"),
        })
        .collect();
    assert_eq!(ids, vec![2, 3, 5]);

    // with no chain index block, chain operations past offset 0 are taken
    let ops = reindex_pending_operations(vec![committed(1, 0, 1), committed(2, 5, 2)], vec![], None);
    assert_eq!(ops.len(), 1);
    assert!(matches!(&ops[0], IndexOperation::PutTrait(p) if p.operation_id == 2));

    assert!(pending_index_batch(vec![]).is_empty());
}

fn aggregate(last_put: Option<(u64, Option<u64>)>) -> TraitAggregate {
    TraitAggregate {
        trait_id: "t1".to_string(),
        projection_skip: None,
        creation_date: Some(Timestamp { seconds: 10, nanos: 0 }),
        modification_date: Some(Timestamp { seconds: 20, nanos: 5 }),
        deletion_date: None,
        last_operation_id: Some(42),
        last_put,
    }
}

#[test]
fn entity_traits_fetch_decisions() {
    assert_eq!(trait_fetch(&aggregate(Some((7, Some(100)))), false), TraitFetch::Chain(100, 7));
    assert_eq!(trait_fetch(&aggregate(Some((7, None))), false), TraitFetch::Operation(7));
    assert_eq!(trait_fetch(&aggregate(None), true), TraitFetch::Skip);

    let skipped = TraitAggregate { projection_skip: Some(true), ..aggregate(Some((7, None))) };
    assert_eq!(trait_fetch(&skipped, true), TraitFetch::Skip);
    let kept = TraitAggregate { projection_skip: Some(false), ..aggregate(Some((7, None))) };
    assert_eq!(trait_fetch(&kept, false), TraitFetch::Operation(7));

    let deleted = TraitAggregate { deletion_date: Some(Timestamp { seconds: 30, nanos: 0 }), ..aggregate(Some((7, None))) };
    assert_eq!(trait_fetch(&deleted, false), TraitFetch::Skip);
    assert_eq!(trait_fetch(&deleted, true), TraitFetch::Operation(7));
}

#[test]
fn entity_traits_from_fetched_mutation() {
    let agg = aggregate(Some((7, Some(100))));
    let entity_id = "et1".to_string();

    let trt = fetched_trait(&entity_id, &agg, Some(put_mutation("et1", "t1"))).expect("trait");
    assert_eq!(trt.id, "t1");
    assert_eq!(trt.creation_date, Some(Timestamp { seconds: 10, nanos: 0 }));
    assert_eq!(trt.modification_date, Some(Timestamp { seconds: 20, nanos: 5 }));
    assert_eq!(trt.deletion_date, None);
    assert_eq!(trt.last_operation_id, 42);

    // mutation of another entity, not a put, or nothing fetched: no trait
    assert!(fetched_trait(&entity_id, &agg, Some(put_mutation("et2", "t1"))).is_none());
    let delete = EntityMutation {
        entity_id: "et1".to_string(),
        mutation: Some(Mutation::DeleteTrait(DeleteTraitMutation { trait_id: "t1".to_string() })),
    };
    assert!(fetched_trait(&entity_id, &agg, Some(delete)).is_none());
    assert!(fetched_trait(&entity_id, &agg, None).is_none());

    let no_op_id = TraitAggregate { last_operation_id: None, ..agg };
    assert_eq!(fetched_trait(&entity_id, &no_op_id, Some(put_mutation("et1", "t1"))).unwrap().last_operation_id, 0);
}

#[test]
fn store_mutate_return_entities() {
    let mutation = MutationBuilder::new().put_trait("entry1".to_string(), trt("trt1")).return_entities().build();
    // returning entities means waiting for the mutation to be indexed
    assert!(should_track_mutation(false, mutation.return_entities, mutation.mutations.len()));

    let prepared = prepare_mutations(
        mutation.mutations,
        mutation.common_entity_id,
        vec!["fresh".to_string()],
        vec!["fresh_trt".to_string()],
    );
    assert_eq!(prepared.error, None);
    assert_eq!(prepared.mutations.len(), 1);

    let entity = &prepared.mutations[0];
    assert_eq!(entity.entity_id, "entry1");
}

#[test]
fn applied_operations_evict_touched_entities_from_cache() {
    let results = |total: usize| MutationResults { mutations: vec![], total, remaining: 0, next_page: None };
    let mut cache = EntityMutationsCache::new(4);
    cache.put("a", results(1));
    cache.put("b", results(2));
    cache.put("c", results(3));

    let ops = vec![
        IndexOperation::PutTrait(PutTraitIndexMutation { block_offset: None, operation_id: 1, entity_id: "a".to_string(), trt: trt("t1") }),
        IndexOperation::DeleteOperation(7),
        IndexOperation::PutEntityTombstone(PutEntityTombstoneMutation { block_offset: Some(3), operation_id: 2, entity_id: "c".to_string() }),
    ];
    assert_eq!(cache.evict_touched_entities(&ops), 3);
    assert!(cache.get("a").is_none());
    assert!(cache.get("c").is_none());
    assert_eq!(cache.get("b").map(|r| r.total), Some(2));
}
