//! Decisions of the local store: preparing the mutations of a request before
//! they get written to the chain, whether to wait for their indexation,
//! which chain events reach the index, when the deferred chain indexing
//! runs, and whether a query result gets replied.
use vstd::prelude::*;
use crate::store::entity_index::ChainEvent;
use crate::store::mutation::{EntityMutation, Mutation, PutTraitMutation, Trait};

verus! {

/// Why the mutations of a request were refused.
#[derive(Debug, Copy, Clone, PartialEq, Eq, Structural)]
pub enum MutationRequestError {
    /// A test mutation can't be written: a mutation was expected.
    MutationExpected,
}

/// Mutations of a request, ready to be written in order, and the error that
/// stopped the preparation, if any: mutations before a refused one are still
/// written.
pub struct PreparedMutations {
    pub mutations: Vec<EntityMutation>,
    pub error: Option<MutationRequestError>,
}

/// Entity id that the `i`-th mutation ends up with: its own, else the one of
/// the previous mutation when the request asks for a common entity id, else
/// the fresh one given for it.
pub open spec fn final_entity_id(muts: Seq<EntityMutation>, i: int, common_entity_id: bool, fresh_entity_ids: Seq<String>) -> Seq<char>
    decreases i,
{
    if i < 0 {
        seq![]
    } else if muts[i].entity_id@.len() > 0 {
        muts[i].entity_id@
    } else if common_entity_id && i > 0 {
        final_entity_id(muts, i - 1, common_entity_id, fresh_entity_ids)
    } else {
        fresh_entity_ids[i]@
    }
}

/// The mutation is a test one.
pub open spec fn is_test(m: EntityMutation) -> bool {
    m.mutation matches Some(Mutation::Test(_))
}

/// The prepared mutation is the original one with the entity id and, for a
/// put of a trait without id, the fresh trait id.
pub open spec fn prepared_as(res: EntityMutation, orig: EntityMutation, entity_id: Seq<char>, fresh_trait_id: String) -> bool {
    &&& res.entity_id@ == entity_id
    &&& match orig.mutation {
        Some(Mutation::PutTrait(PutTraitMutation { trt: Some(t) })) => {
            if t.id@.len() == 0 {
                res.mutation == Some(Mutation::PutTrait(PutTraitMutation { trt: Some(Trait { id: fresh_trait_id, ..t }) }))
            } else {
                res.mutation == orig.mutation
            }
        },
        _ => res.mutation == orig.mutation,
    }
}

/// Position of the first test mutation, if any.
pub open spec fn first_test(muts: Seq<EntityMutation>) -> Option<int> {
    if exists|i: int| 0 <= i < muts.len() && is_test(#[trigger] muts[i]) {
        Some(choose|i: int| 0 <= i < muts.len() && is_test(#[trigger] muts[i])
            && forall|j: int| 0 <= j < i ==> !is_test(muts[j]))
    } else {
        None
    }
}

/// Prepares the mutations of a request to be written: a mutation without
/// entity id gets the one of the previous mutation if the request asks for a
/// common entity id, else the fresh one given for it (`fresh_entity_ids[i]`
/// for the `i`-th mutation); a put of a trait without id gets the fresh one
/// given for it (`fresh_trait_ids[i]`). A test mutation stops the
/// preparation with an error.
pub fn prepare_mutations(
    mutations: Vec<EntityMutation>,
    common_entity_id: bool,
    fresh_entity_ids: Vec<String>,
    fresh_trait_ids: Vec<String>,
) -> (res: PreparedMutations)
    requires
        fresh_entity_ids@.len() >= mutations@.len(),
        fresh_trait_ids@.len() >= mutations@.len(),
    ensures
        res.error == match first_test(mutations@) {
            Some(_) => Some(MutationRequestError::MutationExpected),
            None => None::<MutationRequestError>,
        },
        res.mutations@.len() == match first_test(mutations@) {
            Some(i) => i,
            None => mutations@.len() as int,
        },
        forall|i: int| 0 <= i < res.mutations@.len() ==> prepared_as(
            #[trigger] res.mutations@[i],
            mutations@[i],
            final_entity_id(mutations@, i, common_entity_id, fresh_entity_ids@),
            fresh_trait_ids@[i],
        ),
{
    let ghost muts = mutations@;
    let ghost fresh_e = fresh_entity_ids@;
    let ghost fresh_t = fresh_trait_ids@;
    let mut remaining = mutations;
    let mut entity_ids_left = fresh_entity_ids;
    let mut trait_ids_left = fresh_trait_ids;
    let total = remaining.len();
    let mut prepared: Vec<EntityMutation> = Vec::new();
    let mut last_entity_id: Option<String> = None;
    let mut k: usize = 0;
    while remaining.len() > 0
        invariant
            k <= muts.len(),
            muts == mutations@,
            muts.len() == total,
            remaining@ == muts.skip(k as int),
            remaining@.len() == total - k,
            entity_ids_left@ == fresh_e.skip(k as int),
            fresh_e == fresh_entity_ids@,
            trait_ids_left@ == fresh_t.skip(k as int),
            fresh_t == fresh_trait_ids@,
            fresh_e.len() >= total,
            fresh_t.len() >= total,
            prepared@.len() == k,
            forall|j: int| 0 <= j < k ==> !is_test(#[trigger] muts[j]),
            forall|i: int| 0 <= i < k ==> prepared_as(
                #[trigger] prepared@[i],
                muts[i],
                final_entity_id(muts, i, common_entity_id, fresh_e),
                fresh_t[i],
            ),
            match last_entity_id {
                Some(id) => k > 0 && id@ == final_entity_id(muts, k - 1, common_entity_id, fresh_e),
                None => k == 0,
            },
        decreases remaining@.len(),
    {
        let mutation = remaining.remove(0);
        let fresh_entity_id = entity_ids_left.remove(0);
        let fresh_trait_id = trait_ids_left.remove(0);
        proof {
            assert(mutation == muts[k as int]);
            assert(fresh_entity_id == fresh_e[k as int]);
            assert(fresh_trait_id == fresh_t[k as int]);
            assert(remaining@ =~= muts.skip(k as int + 1));
            assert(entity_ids_left@ =~= fresh_e.skip(k as int + 1));
            assert(trait_ids_left@ =~= fresh_t.skip(k as int + 1));
        }
        if let Some(Mutation::Test(_)) = &mutation.mutation {
            proof {
                assert(is_test(muts[k as int]));
                assert(0 <= k < muts.len() && is_test(muts[k as int]) && forall|j: int| 0 <= j < k ==> !is_test(muts[j]));
                assert(exists|i: int| 0 <= i < muts.len() && is_test(#[trigger] muts[i])
                    && forall|j: int| 0 <= j < i ==> !is_test(muts[j]));
                let c = choose|i: int| 0 <= i < muts.len() && is_test(#[trigger] muts[i])
                    && forall|j: int| 0 <= j < i ==> !is_test(muts[j]);
                if c < k {
                    assert(!is_test(muts[c]));
                } else if c > k {
                    assert(!is_test(muts[k as int]));
                }
                assert(c == k);
                assert(first_test(muts) == Some(k as int));
                assert(prepared@.len() == k);
            }
            return PreparedMutations { mutations: prepared, error: Some(MutationRequestError::MutationExpected) };
        }
        let EntityMutation { entity_id, mutation: inner } = mutation;
        let entity_id: String = if entity_id.as_str().is_empty() {
            match &last_entity_id {
                Some(last) => {
                    if common_entity_id {
                        last.clone()
                    } else {
                        fresh_entity_id
                    }
                },
                None => fresh_entity_id,
            }
        } else {
            entity_id
        };
        last_entity_id = Some(entity_id.clone());
        let inner = match inner {
            Some(Mutation::PutTrait(PutTraitMutation { trt: Some(t) })) => {
                let mut t = t;
                if t.id.as_str().is_empty() {
                    t.id = fresh_trait_id;
                }
                Some(Mutation::PutTrait(PutTraitMutation { trt: Some(t) }))
            },
            other => other,
        };
        let ghost before = prepared@;
        prepared.push(EntityMutation { entity_id, mutation: inner });
        proof {
            assert forall|i: int| 0 <= i < k + 1 implies prepared_as(
                #[trigger] prepared@[i],
                muts[i],
                final_entity_id(muts, i, common_entity_id, fresh_e),
                fresh_t[i],
            ) by {
                if i < k {
                    assert(prepared@[i] == before[i]);
                }
            }
        }
        k = k + 1;
    }
    proof {
        assert forall|i: int| !(0 <= i < muts.len() && is_test(#[trigger] muts[i])) by {
            if 0 <= i < muts.len() {
                assert(!is_test(muts[i]));
            }
        }
    }
    PreparedMutations { mutations: prepared, error: None }
}

/// The store replies to a mutation request once its operations got indexed
/// when it asks to wait for it or for the mutated entities, and it has
/// mutations; right away otherwise.
pub fn should_track_mutation(wait_indexed: bool, return_entities: bool, mutations_count: usize) -> (res: bool)
    ensures
        res == ((wait_indexed || return_entities) && mutations_count > 0),
{
    (wait_indexed || return_entities) && mutations_count > 0
}

/// Events of the chain layer that reach the index: with deferred chain
/// indexing, new blocks don't, since blocks get indexed at intervals.
pub fn events_for_index(events: Vec<ChainEvent>, deferred_chain_indexing: bool) -> (res: Vec<ChainEvent>)
    ensures
        res@ == events@.filter(|e: ChainEvent| !deferred_chain_indexing || !(e is NewChainBlock)),
{
    let ghost pred = |e: ChainEvent| !deferred_chain_indexing || !(e is NewChainBlock);
    let mut res: Vec<ChainEvent> = Vec::new();
    let mut k: usize = 0;
    while k < events.len()
        invariant
            k <= events@.len(),
            pred == (|e: ChainEvent| !deferred_chain_indexing || !(e is NewChainBlock)),
            res@ == events@.take(k as int).filter(pred),
        decreases events@.len() - k,
    {
        proof {
            crate::sequences::lemma_filter_take_step(events@, k as int, pred);
        }
        let e = events[k];
        let keep = match e {
            ChainEvent::NewChainBlock(_) => !deferred_chain_indexing,
            _ => true,
        };
        if keep {
            res.push(e);
        }
        k = k + 1;
    }
    proof {
        assert(events@.take(k as int) =~= events@);
    }
    res
}

/// The deferred chain indexing skips a tick when a user query ran less than
/// `query_interval_ms` ago, unless the last indexing attempt was
/// `max_interval_ms` ago or more.
pub fn should_skip_deferred_indexing(
    since_last_user_query_ms: u64,
    since_last_index_attempt_ms: u64,
    query_interval_ms: u64,
    max_interval_ms: u64,
) -> (res: bool)
    ensures
        res == (since_last_user_query_ms < query_interval_ms && since_last_index_attempt_ms < max_interval_ms),
{
    since_last_user_query_ms < query_interval_ms && since_last_index_attempt_ms < max_interval_ms
}

/// Who gets the result of an executed query.
#[derive(Debug, Copy, Clone, PartialEq, Eq, Structural)]
pub enum QuerySender {
    /// A one-time query.
    Query,
    /// A watched query, by its token.
    WatchedQuery(u64),
}

/// What the store does with the result of an executed query.
#[derive(Debug, Copy, Clone, PartialEq, Eq, Structural)]
pub enum QueryResultAction {
    /// Reply with the result.
    Reply,
    /// Reply with the result if the watched query's results changed.
    ReplyIfChanged(u64),
    /// Stop watching the query, and reply with the error.
    UnwatchAndReply(u64),
}

/// Decides what the store does with the result of an executed query: a
/// one-time query gets its result; a watched query gets its result if it
/// changed, or stops being watched if it failed.
pub fn query_result_action(sender: QuerySender, succeeded: bool) -> (res: QueryResultAction)
    ensures
        res == match sender {
            QuerySender::Query => QueryResultAction::Reply,
            QuerySender::WatchedQuery(token) => if succeeded {
                QueryResultAction::ReplyIfChanged(token)
            } else {
                QueryResultAction::UnwatchAndReply(token)
            },
        },
{
    match sender {
        QuerySender::Query => QueryResultAction::Reply,
        QuerySender::WatchedQuery(token) => {
            if succeeded {
                QueryResultAction::ReplyIfChanged(token)
            } else {
                QueryResultAction::UnwatchAndReply(token)
            }
        },
    }
}

} // verus!
