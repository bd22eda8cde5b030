//! Mutations index: metadata of indexed mutations, index operations derived
//! from entity mutations, and results post-processing.
use vstd::prelude::*;
use crate::store::mutation::{EntityId, EntityMutation, Mutation, OperationId, Trait, TraitId};
use crate::store::ordering::{OrderingValueWrapper, Paging};

verus! {

/// Date as nanoseconds since the Unix epoch.
pub type DateTimeNanos = i64;

/// Metadata of an indexed trait put mutation.
#[derive(Debug, Clone)]
pub struct PutTraitMetadata {
    pub trait_id: TraitId,
    pub trait_type: Option<String>,
    pub creation_date: Option<DateTimeNanos>,
    pub modification_date: Option<DateTimeNanos>,
    pub has_reference: bool,
}

/// Type of an indexed mutation.
#[derive(Debug, Clone)]
pub enum MutationType {
    TraitPut(PutTraitMetadata),
    TraitTombstone(TraitId),
    EntityTombstone,
    PendingDeletion,
}

/// Metadata of a mutation returned by the index.
#[derive(Debug, Clone)]
pub struct MutationMetadata {
    pub operation_id: OperationId,
    pub block_offset: Option<u64>,
    pub entity_id: EntityId,
    pub mutation_type: MutationType,
    pub sort_value: OrderingValueWrapper,
}

/// A page of mutations matching a query.
#[derive(Debug, Clone)]
pub struct MutationResults {
    pub mutations: Vec<MutationMetadata>,
    pub total: usize,
    pub remaining: usize,
    pub next_page: Option<Paging>,
}

/// Storage of an index.
#[derive(Debug, Clone, Copy, PartialEq, Eq, Structural)]
pub enum Storage {
    Memory,
    Disk,
}

/// Mutation that puts a new version of a trait.
#[derive(Debug, Clone)]
pub struct PutTraitIndexMutation {
    pub block_offset: Option<u64>,
    pub operation_id: OperationId,
    pub entity_id: EntityId,
    pub trt: Trait,
}

/// Mutation that marks a trait as deleted without deleting it.
#[derive(Debug, Clone)]
pub struct PutTraitTombstoneMutation {
    pub block_offset: Option<u64>,
    pub operation_id: OperationId,
    pub entity_id: EntityId,
    pub trait_id: TraitId,
}

/// Mutation that marks an entity as deleted without deleting it.
#[derive(Debug, Clone)]
pub struct PutEntityTombstoneMutation {
    pub block_offset: Option<u64>,
    pub operation_id: OperationId,
    pub entity_id: EntityId,
}

/// Operation to be executed on the mutations index.
#[derive(Debug, Clone)]
pub enum IndexOperation {
    /// Puts a new version of a trait at a new position in chain or pending.
    PutTrait(PutTraitIndexMutation),
    /// Marks a trait as deleted without deleting it.
    PutTraitTombstone(PutTraitTombstoneMutation),
    /// Marks an entity as deleted without deleting it.
    PutEntityTombstone(PutEntityTombstoneMutation),
    /// Deletes an indexed mutation by its operation id.
    DeleteOperation(OperationId),
}

/// Index operations for an entity mutation stored in the pending store.
pub open spec fn pending_index_operations(operation_id: OperationId, mutation: EntityMutation) -> Seq<IndexOperation> {
    match mutation.mutation {
        Some(Mutation::PutTrait(put)) => match put.trt {
            Some(trt) => seq![IndexOperation::PutTrait(PutTraitIndexMutation {
                block_offset: None, operation_id, entity_id: mutation.entity_id, trt })],
            None => seq![],
        },
        Some(Mutation::CompactTrait(compact)) => match compact.trt {
            Some(trt) => seq![IndexOperation::PutTrait(PutTraitIndexMutation {
                block_offset: None, operation_id, entity_id: mutation.entity_id, trt })],
            None => seq![],
        },
        Some(Mutation::DeleteTrait(del)) => seq![IndexOperation::PutTraitTombstone(PutTraitTombstoneMutation {
            block_offset: None, operation_id, entity_id: mutation.entity_id, trait_id: del.trait_id })],
        Some(Mutation::DeleteEntity(_)) => seq![IndexOperation::PutEntityTombstone(PutEntityTombstoneMutation {
            block_offset: None, operation_id, entity_id: mutation.entity_id })],
        _ => seq![],
    }
}

/// Index operations for an entity mutation stored in a block of the chain: a
/// compaction also deletes the operations it compacted.
pub open spec fn chain_index_operations(operation_id: OperationId, block_offset: u64, mutation: EntityMutation) -> Seq<IndexOperation> {
    match mutation.mutation {
        Some(Mutation::PutTrait(put)) => match put.trt {
            Some(trt) => seq![IndexOperation::PutTrait(PutTraitIndexMutation {
                block_offset: Some(block_offset), operation_id, entity_id: mutation.entity_id, trt })],
            None => seq![],
        },
        Some(Mutation::CompactTrait(compact)) => match compact.trt {
            Some(trt) => compact.compacted_operations@.map_values(|op: crate::store::mutation::CompactedOperation|
                    IndexOperation::DeleteOperation(op.operation_id))
                .push(IndexOperation::PutTrait(PutTraitIndexMutation {
                    block_offset: Some(block_offset), operation_id, entity_id: mutation.entity_id, trt })),
            None => seq![],
        },
        Some(Mutation::DeleteTrait(del)) => seq![IndexOperation::PutTraitTombstone(PutTraitTombstoneMutation {
            block_offset: None, operation_id, entity_id: mutation.entity_id, trait_id: del.trait_id })],
        Some(Mutation::DeleteEntity(_)) => seq![IndexOperation::PutEntityTombstone(PutEntityTombstoneMutation {
            block_offset: None, operation_id, entity_id: mutation.entity_id })],
        _ => seq![],
    }
}

impl IndexOperation {
    /// Creates the index operations for an operation of the pending store,
    /// given the entity mutation it holds (`None` when it holds none or
    /// couldn't be decoded).
    pub fn from_pending_engine_operation(operation_id: OperationId, entity_mutation: Option<EntityMutation>) -> (res: Vec<IndexOperation>)
        ensures
            match entity_mutation {
                Some(m) => res@ == pending_index_operations(operation_id, m),
                None => res@.len() == 0,
            },
    {
        let mut res: Vec<IndexOperation> = Vec::new();
        let entity_mutation = match entity_mutation {
            Some(m) => m,
            None => return res,
        };
        let entity_id = entity_mutation.entity_id;
        match entity_mutation.mutation {
            Some(Mutation::PutTrait(put)) => {
                if let Some(trt) = put.trt {
                    res.push(IndexOperation::PutTrait(PutTraitIndexMutation { block_offset: None, operation_id, entity_id, trt }));
                }
            },
            Some(Mutation::CompactTrait(compact)) => {
                if let Some(trt) = compact.trt {
                    res.push(IndexOperation::PutTrait(PutTraitIndexMutation { block_offset: None, operation_id, entity_id, trt }));
                }
            },
            Some(Mutation::DeleteTrait(del)) => {
                res.push(IndexOperation::PutTraitTombstone(PutTraitTombstoneMutation {
                    block_offset: None, operation_id, entity_id, trait_id: del.trait_id }));
            },
            Some(Mutation::DeleteEntity(_)) => {
                res.push(IndexOperation::PutEntityTombstone(PutEntityTombstoneMutation { block_offset: None, operation_id, entity_id }));
            },
            _ => {},
        }
        proof {
            assert(res@ =~= pending_index_operations(operation_id, entity_mutation));
        }
        res
    }

    /// Creates the index operations for an operation stored in the block at
    /// `block_offset` of the chain, given the entity mutation it holds.
    pub fn from_chain_engine_operation(operation_id: OperationId, entity_mutation: Option<EntityMutation>, block_offset: u64) -> (res: Vec<IndexOperation>)
        ensures
            match entity_mutation {
                Some(m) => res@ == chain_index_operations(operation_id, block_offset, m),
                None => res@.len() == 0,
            },
    {
        let mut res: Vec<IndexOperation> = Vec::new();
        let entity_mutation = match entity_mutation {
            Some(m) => m,
            None => return res,
        };
        let ghost orig = entity_mutation;
        let entity_id = entity_mutation.entity_id;
        match entity_mutation.mutation {
            Some(Mutation::PutTrait(put)) => {
                if let Some(trt) = put.trt {
                    res.push(IndexOperation::PutTrait(PutTraitIndexMutation { block_offset: Some(block_offset), operation_id, entity_id, trt }));
                }
            },
            Some(Mutation::CompactTrait(compact)) => {
                if let Some(trt) = compact.trt {
                    let ops = &compact.compacted_operations;
                    let mut k: usize = 0;
                    while k < ops.len()
                        invariant
                            k <= ops@.len(),
                            res@ == ops@.take(k as int).map_values(|op: crate::store::mutation::CompactedOperation|
                                IndexOperation::DeleteOperation(op.operation_id)),
                        decreases ops@.len() - k,
                    {
                        res.push(IndexOperation::DeleteOperation(ops[k].operation_id));
                        proof {
                            assert(ops@.take(k as int + 1) =~= ops@.take(k as int).push(ops@[k as int]));
                        }
                        k = k + 1;
                        proof {
                            assert(res@ =~= ops@.take(k as int).map_values(|op: crate::store::mutation::CompactedOperation|
                                IndexOperation::DeleteOperation(op.operation_id)));
                        }
                    }
                    proof {
                        assert(ops@.take(k as int) =~= ops@);
                    }
                    res.push(IndexOperation::PutTrait(PutTraitIndexMutation { block_offset: Some(block_offset), operation_id, entity_id, trt }));
                }
            },
            Some(Mutation::DeleteTrait(del)) => {
                res.push(IndexOperation::PutTraitTombstone(PutTraitTombstoneMutation {
                    block_offset: None, operation_id, entity_id, trait_id: del.trait_id }));
            },
            Some(Mutation::DeleteEntity(_)) => {
                res.push(IndexOperation::PutEntityTombstone(PutEntityTombstoneMutation { block_offset: None, operation_id, entity_id }));
            },
            _ => {},
        }
        proof {
            assert(res@ =~= chain_index_operations(operation_id, block_offset, orig));
        }
        res
    }
}

/// Sequence after `Vec::swap_remove(i)`: the last item moves to position `i`.
pub open spec fn swap_removed<T>(s: Seq<T>, i: int) -> Seq<T> {
    s.update(i, s.last()).drop_last()
}

/// Result of scanning mutations from position `i`, where `prev` is the
/// operation id of the mutation kept just before `i`: a mutation with the
/// same operation id as the previous one gets swap-removed.
pub open spec fn dedup_from(s: Seq<MutationMetadata>, i: int, prev: Option<OperationId>) -> Seq<MutationMetadata>
    decreases s.len() - i, s.len(),
{
    if i < 0 || i >= s.len() {
        s
    } else if prev == Some(s[i].operation_id) {
        dedup_from(swap_removed(s, i), i, prev)
    } else {
        dedup_from(s, i + 1, Some(s[i].operation_id))
    }
}

/// Removes mutations that have the same operation id as the mutation kept
/// just before them, by swapping them with the last mutation.
pub fn dedup_results(storage: &Storage, results: &mut MutationResults)
    ensures
        final(results).mutations@ == dedup_from(old(results).mutations@, 0, None),
        final(results).total == old(results).total,
        final(results).remaining == old(results).remaining,
        final(results).next_page == old(results).next_page,
        forall|k: int| 0 <= k < final(results).mutations@.len() - 1
            ==> #[trigger] final(results).mutations@[k].operation_id != final(results).mutations@[k + 1].operation_id,
{
    let _ = storage;
    let mut i: usize = 0;
    let mut prev_operation: Option<OperationId> = None;
    let ghost target = dedup_from(old(results).mutations@, 0, None);
    while i < results.mutations.len()
        invariant
            i <= results.mutations@.len(),
            dedup_from(results.mutations@, i as int, prev_operation) == target,
            i > 0 ==> prev_operation == Some(results.mutations@[i - 1].operation_id),
            i == 0 ==> prev_operation is None,
            forall|k: int| 0 <= k < i as int - 1 ==> #[trigger] results.mutations@[k].operation_id != results.mutations@[k + 1].operation_id,
            results.total == old(results).total,
            results.remaining == old(results).remaining,
            results.next_page == old(results).next_page,
        decreases results.mutations@.len() - i, results.mutations@.len(),
    {
        let op_id = results.mutations[i].operation_id;
        if prev_operation == Some(op_id) {
            let ghost before = results.mutations@;
            results.mutations.swap_remove(i);
            proof {
                assert(results.mutations@ =~= swap_removed(before, i as int));
            }
        } else {
            prev_operation = Some(op_id);
            i = i + 1;
        }
    }
}

/// Next page and number of remaining results of a page of `len` results, out
/// of `total`, when `paging` was requested.
pub open spec fn next_page_of(paging: Paging, len: nat) -> Option<Paging> {
    if len >= paging.count {
        Some(Paging { after_ordering_value: None, before_ordering_value: None, count: paging.count, offset: (paging.offset + len) as u32 })
    } else {
        None
    }
}

/// Builds the page of results: a next page is given when the page is full,
/// and the remaining count excludes the skipped and returned results.
pub fn paged_results(mutations: Vec<MutationMetadata>, total: usize, paging: &Paging) -> (res: MutationResults)
    requires
        paging.offset + mutations@.len() <= total,
        paging.offset + mutations@.len() <= u32::MAX,
    ensures
        res.mutations@ == mutations@,
        res.total == total,
        res.remaining == total - paging.offset - mutations@.len(),
        res.next_page == next_page_of(*paging, mutations@.len()),
{
    let len = mutations.len();
    let next_page = if len >= paging.count as usize {
        Some(Paging { after_ordering_value: None, before_ordering_value: None, count: paging.count, offset: paging.offset + len as u32 })
    } else {
        None
    };
    let remaining = total - paging.offset as usize - len;
    MutationResults { mutations, total, remaining, next_page }
}

} // verus!
