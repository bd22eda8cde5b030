//! Decisions of the entities index, which keeps the mutations of the chain
//! layer indexed in two mutation indices: a persisted one for operations of
//! blocks that are deep enough in the chain to be considered definitive, and
//! an in-memory one for the pending store and the latest blocks.
use vstd::prelude::*;
use crate::store::gc::GarbageCollectorConfig;
use crate::store::mutation::{EntityMutation, Mutation, OperationId, Timestamp, Trait};
use crate::store::mutation_index::{chain_index_operations, pending_index_operations, IndexOperation, MutationMetadata};

verus! {

pub type BlockOffset = u64;
pub type BlockHeight = u64;

/// Status of an operation of the chain layer.
#[derive(Debug, Copy, Clone, PartialEq, Eq, Structural)]
pub enum EngineOperationStatus {
    Pending,
    Committed(BlockOffset, BlockHeight),
}

/// An operation of the chain layer, with the entity mutation it holds (none
/// if it holds no data or it couldn't be decoded).
#[derive(Debug)]
pub struct EngineOperation {
    pub operation_id: OperationId,
    pub status: EngineOperationStatus,
    pub entity_mutation: Option<EntityMutation>,
}

/// Configuration of the entities index.
#[derive(Debug, Clone, Copy, PartialEq, Eq, Structural)]
pub struct EntityIndexConfig {
    /// Minimum depth that a block needs to have in the chain to be indexed in
    /// the chain index, which lowers the odds of having to revert it if the
    /// local chain forked.
    pub chain_index_min_depth: BlockHeight,
    /// Depth that the chain needs to grow by, past the last indexed block,
    /// before new blocks get indexed, so that the chain index doesn't get
    /// modified on each new block.
    pub chain_index_depth_leeway: BlockHeight,
    /// For tests, keep the chain index in memory.
    pub chain_index_in_memory: bool,
    /// Configuration of the garbage collector.
    pub garbage_collector: GarbageCollectorConfig,
}

impl EntityIndexConfig {
    /// Blocks get indexed at depth 3 at least, once the chain grew by 10
    /// blocks, on disk.
    pub fn default() -> (res: EntityIndexConfig)
        ensures
            res.chain_index_min_depth == 3,
            res.chain_index_depth_leeway == 10,
            !res.chain_index_in_memory,
            res.garbage_collector.queue_size == 500,
    {
        EntityIndexConfig {
            chain_index_min_depth: 3,
            chain_index_depth_leeway: 10,
            chain_index_in_memory: false,
            garbage_collector: GarbageCollectorConfig::default(),
        }
    }
}

/// Errors of the entities index.
#[derive(Debug, Copy, Clone, PartialEq, Eq, Structural)]
pub enum EntityIndexError {
    /// The chain was to be indexed, but it had no block.
    EmptyChain,
    /// The chain diverged at an offset at or before the last block indexed in
    /// the chain index, which can't be reverted: a full re-index is needed.
    ChainDiverged { diverged_offset: BlockOffset, last_indexed_offset: BlockOffset },
}

/// The store can't go on after the error: a divergence at or before the
/// last block of the chain index can't be reverted, while a chain with no
/// block is an ordinary error.
pub open spec fn index_error_fatal(err: EntityIndexError) -> bool {
    err is ChainDiverged
}

impl EntityIndexError {
    /// Whether the store can't go on after the error: true of a chain
    /// divergence that the chain index can't revert, false of an empty chain.
    pub fn is_fatal(&self) -> (res: bool)
        ensures
            res == index_error_fatal(*self),
    {
        match self {
            EntityIndexError::ChainDiverged { .. } => true,
            EntityIndexError::EmptyChain => false,
        }
    }
}

/// Whether new blocks get indexed in the chain index.
#[derive(Debug, Copy, Clone, PartialEq, Eq, Structural)]
pub enum ChainIndexing {
    /// The chain didn't grow enough since the last indexed block.
    UpToDate,
    /// Operations of the chain get indexed from this offset (from the start
    /// of the chain if none).
    From(Option<BlockOffset>),
}

/// Decides whether new blocks of the chain get indexed, given the last block
/// of the chain and the last block indexed in the chain index.
pub fn chain_indexing_start(
    chain_last_block: Option<(BlockOffset, BlockHeight)>,
    last_indexed_block: Option<(BlockOffset, BlockHeight)>,
    config: &EntityIndexConfig,
) -> (res: Result<ChainIndexing, EntityIndexError>)
    requires
        chain_last_block matches Some((_, chain_height)) ==> (last_indexed_block matches Some((_, indexed_height))
            ==> indexed_height <= chain_height),
    ensures
        match chain_last_block {
            None => res == Err::<ChainIndexing, EntityIndexError>(EntityIndexError::EmptyChain),
            Some((_, chain_height)) => match last_indexed_block {
                None => res == Ok::<ChainIndexing, EntityIndexError>(ChainIndexing::From(None)),
                Some((indexed_offset, indexed_height)) => {
                    let depth = chain_height - indexed_height;
                    if depth < config.chain_index_min_depth || depth < config.chain_index_depth_leeway {
                        res == Ok::<ChainIndexing, EntityIndexError>(ChainIndexing::UpToDate)
                    } else {
                        res == Ok::<ChainIndexing, EntityIndexError>(ChainIndexing::From(Some(indexed_offset)))
                    }
                },
            },
        },
{
    let chain_height = match chain_last_block {
        Some((_, height)) => height,
        None => return Err(EntityIndexError::EmptyChain),
    };
    match last_indexed_block {
        Some((indexed_offset, indexed_height)) => {
            let depth = chain_height - indexed_height;
            if depth < config.chain_index_min_depth || depth < config.chain_index_depth_leeway {
                Ok(ChainIndexing::UpToDate)
            } else {
                Ok(ChainIndexing::From(Some(indexed_offset)))
            }
        },
        None => Ok(ChainIndexing::From(None)),
    }
}

/// The operation is in a block past the offset indexing starts from, and deep
/// enough in the chain to be indexed in the chain index.
pub open spec fn chain_indexable(status: EngineOperationStatus, offset_from: Option<BlockOffset>, chain_height: BlockHeight, min_depth: BlockHeight) -> bool {
    match status {
        EngineOperationStatus::Committed(offset, height) => {
            &&& offset > match offset_from {
                Some(o) => o,
                None => 0,
            }
            &&& (if chain_height >= height { chain_height - height } else { 0 }) >= min_depth
        },
        EngineOperationStatus::Pending => false,
    }
}

pub open spec fn status_offset(status: EngineOperationStatus) -> BlockOffset {
    match status {
        EngineOperationStatus::Committed(offset, _) => offset,
        EngineOperationStatus::Pending => 0,
    }
}

/// Operations to apply on the indices for a batch of chain operations.
pub struct ChainIndexBatch {
    /// All operations of the batch, in order.
    pub affected_operations: Vec<OperationId>,
    /// Operations to apply on the chain index.
    pub chain_operations: Vec<IndexOperation>,
    /// Operations to apply on the pending index: the removal of the
    /// operations now in the chain index.
    pub pending_operations: Vec<IndexOperation>,
    /// Highest offset of the blocks indexed in the chain index.
    pub highest_offset: Option<BlockOffset>,
}

/// Index operations for the chain index, for the first `n` operations.
pub open spec fn batch_chain_operations(ops: Seq<EngineOperation>, offset_from: Option<BlockOffset>, chain_height: BlockHeight, min_depth: BlockHeight, n: nat) -> Seq<IndexOperation>
    decreases n,
{
    if n == 0 {
        seq![]
    } else {
        let op = ops[n - 1];
        batch_chain_operations(ops, offset_from, chain_height, min_depth, (n - 1) as nat) + if chain_indexable(op.status, offset_from, chain_height, min_depth) {
            match op.entity_mutation {
                Some(m) => chain_index_operations(op.operation_id, status_offset(op.status), m),
                None => seq![],
            }
        } else {
            seq![]
        }
    }
}

/// Operations among the first `n` that get indexed in the chain index.
pub open spec fn indexed_in_chain(ops: Seq<EngineOperation>, offset_from: Option<BlockOffset>, chain_height: BlockHeight, min_depth: BlockHeight, n: nat) -> Seq<EngineOperation> {
    ops.take(n as int).filter(|op: EngineOperation| chain_indexable(op.status, offset_from, chain_height, min_depth))
}

/// Highest block offset of the operations, if any.
pub open spec fn highest_offset(ops: Seq<EngineOperation>) -> Option<BlockOffset>
    decreases ops.len(),
{
    if ops.len() == 0 {
        None
    } else {
        let prev = highest_offset(ops.drop_last());
        let o = status_offset(ops.last().status);
        match prev {
            Some(p) => if o > p { Some(o) } else { Some(p) },
            None => Some(o),
        }
    }
}

/// The highest offset of operations is the offset of one of them, and no
/// operation is in a block past it; operations give none only when there
/// are none.
pub proof fn lemma_highest_offset_is_max(ops: Seq<EngineOperation>)
    ensures
        highest_offset(ops) is None <==> ops.len() == 0,
        highest_offset(ops) matches Some(h) ==> {
            &&& forall|k: int| 0 <= k < ops.len() ==> status_offset(#[trigger] ops[k].status) <= h
            &&& exists|k: int| 0 <= k < ops.len() && status_offset(#[trigger] ops[k].status) == h
        },
    decreases ops.len(),
{
    if ops.len() > 0 {
        let init = ops.drop_last();
        lemma_highest_offset_is_max(init);
        let o = status_offset(ops.last().status);
        let n = ops.len() - 1;
        assert(ops[n] == ops.last());
        assert forall|k: int| 0 <= k < n implies ops[k] == #[trigger] init[k] by {}
        match highest_offset(init) {
            Some(p) => {
                let h = highest_offset(ops)->0;
                assert forall|k: int| 0 <= k < ops.len() implies status_offset(#[trigger] ops[k].status) <= h by {
                    if k < n {
                        assert(status_offset(init[k].status) <= p);
                    }
                }
                if o > p {
                    assert(status_offset(ops[n].status) == h);
                } else {
                    let j = choose|j: int| 0 <= j < init.len() && status_offset(#[trigger] init[j].status) == p;
                    assert(status_offset(ops[j].status) == h);
                }
            },
            None => {
                assert(status_offset(ops[n].status) == o);
            },
        }
    }
}

/// Computes what indexing a batch of chain operations does: the operations
/// of blocks past `offset_from` that are at least `min_depth` deep in a chain
/// of height `chain_height` get indexed in the chain index, and get removed
/// from the pending index unless it is empty.
pub fn chain_index_batch(
    operations: Vec<EngineOperation>,
    offset_from: Option<BlockOffset>,
    chain_height: BlockHeight,
    min_depth: BlockHeight,
    pending_index_empty: bool,
) -> (res: ChainIndexBatch)
    ensures
        res.affected_operations@ == operations@.map_values(|op: EngineOperation| op.operation_id),
        res.chain_operations@ == batch_chain_operations(operations@, offset_from, chain_height, min_depth, operations@.len()),
        res.pending_operations@ == if pending_index_empty {
            seq![]
        } else {
            indexed_in_chain(operations@, offset_from, chain_height, min_depth, operations@.len()).map_values(
                |op: EngineOperation| IndexOperation::DeleteOperation(op.operation_id),
            )
        },
        res.highest_offset == highest_offset(indexed_in_chain(operations@, offset_from, chain_height, min_depth, operations@.len())),
        res.highest_offset is None <==> indexed_in_chain(operations@, offset_from, chain_height, min_depth, operations@.len()).len() == 0,
        res.highest_offset matches Some(h) ==> {
            let indexed = indexed_in_chain(operations@, offset_from, chain_height, min_depth, operations@.len());
            &&& forall|k: int| 0 <= k < indexed.len() ==> status_offset(#[trigger] indexed[k].status) <= h
            &&& exists|k: int| 0 <= k < indexed.len() && status_offset(#[trigger] indexed[k].status) == h
        },
{
    let ghost ops0 = operations@;
    let ghost pred = |op: EngineOperation| chain_indexable(op.status, offset_from, chain_height, min_depth);
    let ghost id_of = |op: EngineOperation| op.operation_id;
    let ghost delete_of = |op: EngineOperation| IndexOperation::DeleteOperation(op.operation_id);
    let mut operations = operations;
    let total = operations.len();
    let mut affected_operations: Vec<OperationId> = Vec::new();
    let mut chain_operations: Vec<IndexOperation> = Vec::new();
    let mut pending_operations: Vec<IndexOperation> = Vec::new();
    let mut highest: Option<BlockOffset> = None;
    let mut k: usize = 0;
    while operations.len() > 0
        invariant
            k <= ops0.len(),
            ops0.len() == total,
            operations@ == ops0.skip(k as int),
            operations@.len() == total - k,
            pred == (|op: EngineOperation| chain_indexable(op.status, offset_from, chain_height, min_depth)),
            id_of == (|op: EngineOperation| op.operation_id),
            delete_of == (|op: EngineOperation| IndexOperation::DeleteOperation(op.operation_id)),
            affected_operations@ == ops0.take(k as int).map_values(id_of),
            chain_operations@ == batch_chain_operations(ops0, offset_from, chain_height, min_depth, k as nat),
            pending_operations@ == if pending_index_empty {
                seq![]
            } else {
                ops0.take(k as int).filter(pred).map_values(delete_of)
            },
            highest == highest_offset(ops0.take(k as int).filter(pred)),
        decreases operations@.len(),
    {
        let op = operations.remove(0);
        proof {
            assert(op == ops0[k as int]);
            assert(operations@ =~= ops0.skip(k as int + 1));
            assert(ops0.take(k as int + 1).map_values(id_of) =~= ops0.take(k as int).map_values(id_of).push(op.operation_id));
            crate::sequences::lemma_filter_take_step(ops0, k as int, pred);
        }
        let ghost filtered_before = ops0.take(k as int).filter(pred);
        affected_operations.push(op.operation_id);
        let indexable = match op.status {
            EngineOperationStatus::Committed(offset, height) => {
                let base: u64 = match offset_from {
                    Some(o) => o,
                    None => 0,
                };
                let depth: u64 = if chain_height >= height { chain_height - height } else { 0 };
                offset > base && depth >= min_depth
            },
            EngineOperationStatus::Pending => false,
        };
        if indexable {
            let offset = match op.status {
                EngineOperationStatus::Committed(offset, _) => offset,
                EngineOperationStatus::Pending => 0,
            };
            let operation_id = op.operation_id;
            if !pending_index_empty {
                pending_operations.push(IndexOperation::DeleteOperation(operation_id));
                proof {
                    assert(filtered_before.push(op).map_values(delete_of) =~= filtered_before.map_values(delete_of).push(
                        IndexOperation::DeleteOperation(operation_id),
                    ));
                }
            }
            highest = match highest {
                Some(h) => if offset > h { Some(offset) } else { Some(h) },
                None => Some(offset),
            };
            proof {
                assert(filtered_before.push(op).drop_last() =~= filtered_before);
            }
            let index_ops = IndexOperation::from_chain_engine_operation(operation_id, op.entity_mutation, offset);
            let ghost before = chain_operations@;
            let mut index_ops = index_ops;
            chain_operations.append(&mut index_ops);
            proof {
                assert(chain_operations@ =~= batch_chain_operations(ops0, offset_from, chain_height, min_depth, k as nat + 1));
            }
        } else {
            proof {
                assert(chain_operations@ =~= batch_chain_operations(ops0, offset_from, chain_height, min_depth, k as nat + 1));
            }
        }
        k = k + 1;
    }
    proof {
        assert(ops0.take(k as int) =~= ops0);
        lemma_highest_offset_is_max(indexed_in_chain(ops0, offset_from, chain_height, min_depth, ops0.len()));
    }
    ChainIndexBatch { affected_operations, chain_operations, pending_operations, highest_offset: highest }
}

impl ChainIndexBatch {
    /// Number of index operations the batch counts for: those applied on the
    /// pending index.
    pub fn operations_count(&self) -> (res: usize)
        ensures
            res == self.pending_operations@.len(),
    {
        self.pending_operations.len()
    }

    /// Last block of the chain index once the batch got applied: the highest
    /// indexed block when operations got removed from the pending index,
    /// unchanged otherwise.
    pub fn chain_index_last_block(&self, current: Option<BlockOffset>) -> (res: Option<BlockOffset>)
        ensures
            res == if self.pending_operations@.len() > 0 && self.highest_offset is Some {
                self.highest_offset
            } else {
                current
            },
    {
        if self.pending_operations.len() > 0 {
            match self.highest_offset {
                Some(h) => Some(h),
                None => current,
            }
        } else {
            current
        }
    }
}

/// The operation is in a block past the given offset of the chain.
pub open spec fn committed_after(op: EngineOperation, offset: BlockOffset) -> bool {
    match op.status {
        EngineOperationStatus::Committed(o, _) => o > offset,
        EngineOperationStatus::Pending => false,
    }
}

/// The operation isn't in any block of the chain yet.
pub open spec fn not_committed(op: EngineOperation) -> bool {
    op.status is Pending
}

/// Operations that the pending index gets filled with when it is re-indexed:
/// those of the chain in blocks past the last block of the chain index (past
/// offset 0 if it has none), then those of the pending store that aren't in
/// any block yet.
pub open spec fn reindex_pending_source(
    chain_ops: Seq<EngineOperation>,
    pending_ops: Seq<EngineOperation>,
    last_chain_indexed_block: Option<(BlockOffset, BlockHeight)>,
) -> Seq<EngineOperation> {
    let last_offset: BlockOffset = match last_chain_indexed_block {
        Some((offset, _)) => offset,
        None => 0,
    };
    chain_ops.filter(|op: EngineOperation| committed_after(op, last_offset)) + pending_ops.filter(
        |op: EngineOperation| not_committed(op),
    )
}

/// Index operations for the pending index, for the first `n` operations.
pub open spec fn pending_batch(ops: Seq<EngineOperation>, n: nat) -> Seq<IndexOperation>
    decreases n,
{
    if n == 0 {
        seq![]
    } else {
        let op = ops[n - 1];
        pending_batch(ops, (n - 1) as nat) + match op.entity_mutation {
            Some(m) => pending_index_operations(op.operation_id, m),
            None => seq![],
        }
    }
}

/// The operations in blocks past the offset, in order.
fn retain_committed_after(ops: Vec<EngineOperation>, offset: BlockOffset) -> (res: Vec<EngineOperation>)
    ensures
        res@ == ops@.filter(|op: EngineOperation| committed_after(op, offset)),
{
    let ghost ops0 = ops@;
    let ghost pred = |op: EngineOperation| committed_after(op, offset);
    let mut ops = ops;
    let total = ops.len();
    let mut res: Vec<EngineOperation> = Vec::new();
    let mut k: usize = 0;
    while ops.len() > 0
        invariant
            k <= ops0.len(),
            ops0.len() == total,
            ops@ == ops0.skip(k as int),
            ops@.len() == total - k,
            res@ == ops0.take(k as int).filter(pred),
            pred == (|op: EngineOperation| committed_after(op, offset)),
        decreases ops@.len(),
    {
        let op = ops.remove(0);
        proof {
            assert(op == ops0[k as int]);
            assert(ops@ =~= ops0.skip(k as int + 1));
            crate::sequences::lemma_filter_take_step(ops0, k as int, pred);
        }
        let keep = match op.status {
            EngineOperationStatus::Committed(o, _) => o > offset,
            EngineOperationStatus::Pending => false,
        };
        if keep {
            res.push(op);
        }
        k = k + 1;
    }
    proof {
        assert(ops0.take(k as int) =~= ops0);
    }
    res
}

/// The operations that aren't in any block yet, in order.
fn retain_not_committed(ops: Vec<EngineOperation>) -> (res: Vec<EngineOperation>)
    ensures
        res@ == ops@.filter(|op: EngineOperation| not_committed(op)),
{
    let ghost ops0 = ops@;
    let ghost pred = |op: EngineOperation| not_committed(op);
    let mut ops = ops;
    let total = ops.len();
    let mut res: Vec<EngineOperation> = Vec::new();
    let mut k: usize = 0;
    while ops.len() > 0
        invariant
            k <= ops0.len(),
            ops0.len() == total,
            ops@ == ops0.skip(k as int),
            ops@.len() == total - k,
            res@ == ops0.take(k as int).filter(pred),
            pred == (|op: EngineOperation| not_committed(op)),
        decreases ops@.len(),
    {
        let op = ops.remove(0);
        proof {
            assert(op == ops0[k as int]);
            assert(ops@ =~= ops0.skip(k as int + 1));
            crate::sequences::lemma_filter_take_step(ops0, k as int, pred);
        }
        let keep = match op.status {
            EngineOperationStatus::Pending => true,
            EngineOperationStatus::Committed(_, _) => false,
        };
        if keep {
            res.push(op);
        }
        k = k + 1;
    }
    proof {
        assert(ops0.take(k as int) =~= ops0);
    }
    res
}

/// Index operations of the pending index for operations of the chain layer,
/// in order: those of each operation's entity mutation, none for an
/// operation that holds none.
pub fn pending_index_batch(operations: Vec<EngineOperation>) -> (res: Vec<IndexOperation>)
    ensures
        res@ == pending_batch(operations@, operations@.len()),
{
    let ghost ops0 = operations@;
    let mut operations = operations;
    let total = operations.len();
    let mut res: Vec<IndexOperation> = Vec::new();
    let mut k: usize = 0;
    while operations.len() > 0
        invariant
            k <= ops0.len(),
            ops0.len() == total,
            operations@ == ops0.skip(k as int),
            operations@.len() == total - k,
            res@ == pending_batch(ops0, k as nat),
        decreases operations@.len(),
    {
        let op = operations.remove(0);
        proof {
            assert(op == ops0[k as int]);
            assert(operations@ =~= ops0.skip(k as int + 1));
        }
        let mut index_ops = IndexOperation::from_pending_engine_operation(op.operation_id, op.entity_mutation);
        res.append(&mut index_ops);
        proof {
            assert(res@ =~= pending_batch(ops0, k as nat + 1));
        }
        k = k + 1;
    }
    res
}

/// Index operations that the pending index gets re-filled with after it got
/// cleared: those of the chain operations in blocks past the last block of
/// the chain index, then those of the pending store operations that aren't
/// in any block yet.
pub fn reindex_pending_operations(
    chain_ops: Vec<EngineOperation>,
    pending_ops: Vec<EngineOperation>,
    last_chain_indexed_block: Option<(BlockOffset, BlockHeight)>,
) -> (res: Vec<IndexOperation>)
    ensures
        res@ == pending_batch(
            reindex_pending_source(chain_ops@, pending_ops@, last_chain_indexed_block),
            reindex_pending_source(chain_ops@, pending_ops@, last_chain_indexed_block).len(),
        ),
{
    let last_offset: BlockOffset = match last_chain_indexed_block {
        Some((offset, _)) => offset,
        None => 0,
    };
    let mut selected = retain_committed_after(chain_ops, last_offset);
    let mut pending = retain_not_committed(pending_ops);
    selected.append(&mut pending);
    pending_index_batch(selected)
}

/// Re-indexing the pending index never brings back an operation of a block
/// that the chain index already holds: each operation it is re-filled from
/// is either in no block yet, or in a block past the last one of the chain
/// index.
pub proof fn lemma_reindex_skips_chain_indexed(
    chain_ops: Seq<EngineOperation>,
    pending_ops: Seq<EngineOperation>,
    last_chain_indexed_block: Option<(BlockOffset, BlockHeight)>,
)
    ensures
        ({
            let last_offset: BlockOffset = match last_chain_indexed_block {
                Some((offset, _)) => offset,
                None => 0,
            };
            let source = reindex_pending_source(chain_ops, pending_ops, last_chain_indexed_block);
            forall|i: int| 0 <= i < source.len() ==> match #[trigger] source[i].status {
                EngineOperationStatus::Committed(o, _) => o > last_offset,
                EngineOperationStatus::Pending => true,
            }
        }),
{
    let last_offset: BlockOffset = match last_chain_indexed_block {
        Some((offset, _)) => offset,
        None => 0,
    };
    let after = |op: EngineOperation| committed_after(op, last_offset);
    let pending = |op: EngineOperation| not_committed(op);
    let a = chain_ops.filter(after);
    let b = pending_ops.filter(pending);
    let source = reindex_pending_source(chain_ops, pending_ops, last_chain_indexed_block);
    assert(source == a + b);
    assert forall|i: int| 0 <= i < source.len() implies match #[trigger] source[i].status {
        EngineOperationStatus::Committed(o, _) => o > last_offset,
        EngineOperationStatus::Pending => true,
    } by {
        if i < a.len() {
            chain_ops.lemma_filter_pred(after, i);
            assert(source[i] == a[i]);
        } else {
            pending_ops.lemma_filter_pred(pending, i - a.len());
            assert(source[i] == b[i - a.len()]);
        }
    }
}

/// What the entities index knows of a trait of an entity, from the metadata
/// of the entity's indexed mutations.
#[derive(Debug, Clone)]
pub struct TraitAggregate {
    pub trait_id: String,
    /// Whether a projection of the query applies to the trait and, if one
    /// does, whether it asks to skip the trait.
    pub projection_skip: Option<bool>,
    pub creation_date: Option<Timestamp>,
    pub modification_date: Option<Timestamp>,
    pub deletion_date: Option<Timestamp>,
    pub last_operation_id: Option<OperationId>,
    /// Operation id of the trait's last put, and offset of its block (none
    /// while it is in no block yet).
    pub last_put: Option<(OperationId, Option<BlockOffset>)>,
}

/// Where the last put of a trait gets fetched from to return the trait.
#[derive(Debug, Copy, Clone, PartialEq, Eq, Structural)]
pub enum TraitFetch {
    /// The trait isn't returned.
    Skip,
    /// From the block at the offset, by operation id.
    Chain(BlockOffset, OperationId),
    /// From the chain layer by operation id alone, wherever it stands.
    Operation(OperationId),
}

/// Decides how a trait of an entity is fetched for a result: a trait that a
/// projection skips isn't, nor one that got deleted unless deleted traits are
/// included, nor one that was never put.
pub fn trait_fetch(agg: &TraitAggregate, include_deleted: bool) -> (res: TraitFetch)
    ensures
        res == if agg.projection_skip == Some(true) {
            TraitFetch::Skip
        } else if agg.deletion_date is Some && !include_deleted {
            TraitFetch::Skip
        } else {
            match agg.last_put {
                None => TraitFetch::Skip,
                Some((op, Some(offset))) => TraitFetch::Chain(offset, op),
                Some((op, None)) => TraitFetch::Operation(op),
            }
        },
{
    if let Some(skip) = agg.projection_skip {
        if skip {
            return TraitFetch::Skip;
        }
    }
    if agg.deletion_date.is_some() && !include_deleted {
        return TraitFetch::Skip;
    }
    match agg.last_put {
        None => TraitFetch::Skip,
        Some((op, Some(offset))) => TraitFetch::Chain(offset, op),
        Some((op, None)) => TraitFetch::Operation(op),
    }
}

/// The trait returned, given the mutation fetched for its last put.
pub open spec fn fetched_trait_spec(entity_id: Seq<char>, agg: TraitAggregate, fetched: Option<EntityMutation>) -> Option<Trait> {
    match fetched {
        Some(m) => if m.entity_id@ == entity_id {
            match m.mutation {
                Some(Mutation::PutTrait(put)) => match put.trt {
                    Some(t) => Some(
                        Trait {
                            creation_date: agg.creation_date,
                            modification_date: agg.modification_date,
                            deletion_date: agg.deletion_date,
                            last_operation_id: match agg.last_operation_id {
                                Some(id) => id,
                                None => 0,
                            },
                            ..t
                        },
                    ),
                    None => None,
                },
                _ => None,
            }
        } else {
            None
        },
        None => None,
    }
}

/// The trait to return from the mutation fetched for its last put: it must
/// be a trait put of the entity, else the trait is left out. Its dates and
/// last operation are those merged in the aggregate.
pub fn fetched_trait(entity_id: &String, agg: &TraitAggregate, fetched: Option<EntityMutation>) -> (res: Option<Trait>)
    ensures
        res == fetched_trait_spec(entity_id@, *agg, fetched),
{
    let m = match fetched {
        Some(m) => m,
        None => return None,
    };
    if m.entity_id != *entity_id {
        return None;
    }
    let t = match m.mutation {
        Some(Mutation::PutTrait(put)) => match put.trt {
            Some(t) => t,
            None => return None,
        },
        _ => return None,
    };
    let last_operation_id: OperationId = match agg.last_operation_id {
        Some(id) => id,
        None => 0,
    };
    Some(Trait {
        id: t.id,
        message: t.message,
        creation_date: agg.creation_date,
        modification_date: agg.modification_date,
        deletion_date: agg.deletion_date,
        last_operation_id,
    })
}

/// What to do when the chain diverged at an offset.
#[derive(Debug, Copy, Clone, PartialEq, Eq, Structural)]
pub enum DivergenceAction {
    /// Only blocks that aren't in the chain index diverged: re-index the
    /// pending index, which still holds their operations.
    ReindexPending,
    /// The chain index is empty: re-index the chain.
    ReindexChain,
}

/// Decides what to do when the chain diverged at `diverged_offset`, given the
/// highest block indexed in the chain index.
pub fn chain_divergence_action(highest_indexed_block: Option<BlockOffset>, diverged_offset: BlockOffset) -> (res: Result<DivergenceAction, EntityIndexError>)
    ensures
        res == match highest_indexed_block {
            Some(last) => if last < diverged_offset {
                Ok::<DivergenceAction, EntityIndexError>(DivergenceAction::ReindexPending)
            } else {
                Err(EntityIndexError::ChainDiverged { diverged_offset, last_indexed_offset: last })
            },
            None => Ok(DivergenceAction::ReindexChain),
        },
        res is Err <==> (highest_indexed_block matches Some(last) && diverged_offset <= last),
        res matches Err(e) ==> index_error_fatal(e),
{
    match highest_indexed_block {
        Some(last) => {
            if last < diverged_offset {
                Ok(DivergenceAction::ReindexPending)
            } else {
                Err(EntityIndexError::ChainDiverged { diverged_offset, last_indexed_offset: last })
            }
        },
        None => Ok(DivergenceAction::ReindexChain),
    }
}

/// Event of the chain layer.
#[derive(Debug, Copy, Clone, PartialEq, Eq, Structural)]
pub enum ChainEvent {
    /// The chain layer is ready.
    Started,
    /// Events may have been lost.
    StreamDiscontinuity,
    /// A block got added to the chain at the offset.
    NewChainBlock(BlockOffset),
    /// The chain diverged at the offset.
    ChainDiverged(BlockOffset),
    /// An operation got added to the pending store.
    NewPendingOperation(OperationId),
}

/// What the index does for chain events.
#[derive(Debug)]
pub enum ChainEventAction {
    /// Index these new operations of the pending store, in one batch.
    IndexPendingOperations(Vec<OperationId>),
    /// Index new blocks of the chain, then re-index the pending store.
    IndexChainAndReindexPending,
    /// Re-index the pending store, since events may have been lost.
    ReindexPending,
    /// Index new blocks of the chain, if deep enough.
    IndexChain,
    /// Handle a divergence of the chain at the offset.
    HandleDivergence(BlockOffset),
}

/// An action, with the operations of a pending batch by their ids.
pub enum ChainEventActionView {
    IndexPendingOperations(Seq<OperationId>),
    IndexChainAndReindexPending,
    ReindexPending,
    IndexChain,
    HandleDivergence(BlockOffset),
}

pub open spec fn action_view(a: ChainEventAction) -> ChainEventActionView {
    match a {
        ChainEventAction::IndexPendingOperations(ids) => ChainEventActionView::IndexPendingOperations(ids@),
        ChainEventAction::IndexChainAndReindexPending => ChainEventActionView::IndexChainAndReindexPending,
        ChainEventAction::ReindexPending => ChainEventActionView::ReindexPending,
        ChainEventAction::IndexChain => ChainEventActionView::IndexChain,
        ChainEventAction::HandleDivergence(o) => ChainEventActionView::HandleDivergence(o),
    }
}

/// Action for an event other than a new pending operation.
pub open spec fn event_action(e: ChainEvent) -> ChainEventActionView {
    match e {
        ChainEvent::Started => ChainEventActionView::IndexChainAndReindexPending,
        ChainEvent::StreamDiscontinuity => ChainEventActionView::ReindexPending,
        ChainEvent::NewChainBlock(_) => ChainEventActionView::IndexChain,
        ChainEvent::ChainDiverged(o) => ChainEventActionView::HandleDivergence(o),
        ChainEvent::NewPendingOperation(_) => ChainEventActionView::ReindexPending,
    }
}

/// Indexing of the batch of new pending operations, if any.
pub open spec fn flush_batch(batch: Seq<OperationId>) -> Seq<ChainEventActionView> {
    if batch.len() > 0 {
        seq![ChainEventActionView::IndexPendingOperations(batch)]
    } else {
        seq![]
    }
}

/// Actions for the first `n` events, and the batch of new pending operations
/// that follows them: consecutive new pending operations get indexed in one
/// batch, before the action for the next other event.
pub open spec fn actions_upto(events: Seq<ChainEvent>, n: nat) -> (Seq<ChainEventActionView>, Seq<OperationId>)
    decreases n,
{
    if n == 0 {
        (seq![], seq![])
    } else {
        let (acts, batch) = actions_upto(events, (n - 1) as nat);
        match events[n - 1] {
            ChainEvent::NewPendingOperation(id) => (acts, batch.push(id)),
            e => (acts + flush_batch(batch) + seq![event_action(e)], seq![]),
        }
    }
}

/// Actions for the events, in order.
pub open spec fn chain_events_actions_spec(events: Seq<ChainEvent>) -> Seq<ChainEventActionView> {
    let (acts, batch) = actions_upto(events, events.len());
    acts + flush_batch(batch)
}

/// Decides what the index does for events of the chain layer: consecutive
/// new pending operations get indexed in one batch, the start of the chain
/// layer triggers the indexing of the chain then of the pending store, a
/// discontinuity a re-indexing of the pending store, a new block an indexing
/// of the chain, a divergence its handling.
pub fn chain_events_actions(events: &Vec<ChainEvent>) -> (res: Vec<ChainEventAction>)
    ensures
        res@.map_values(|a: ChainEventAction| action_view(a)) == chain_events_actions_spec(events@),
{
    let ghost view_of = |a: ChainEventAction| action_view(a);
    let mut res: Vec<ChainEventAction> = Vec::new();
    let mut batch: Vec<OperationId> = Vec::new();
    let mut k: usize = 0;
    while k < events.len()
        invariant
            k <= events@.len(),
            view_of == (|a: ChainEventAction| action_view(a)),
            res@.map_values(view_of) == actions_upto(events@, k as nat).0,
            batch@ == actions_upto(events@, k as nat).1,
        decreases events@.len() - k,
    {
        let e = events[k];
        let ghost before = res@;
        match e {
            ChainEvent::NewPendingOperation(id) => {
                batch.push(id);
            },
            _ => {
                if batch.len() > 0 {
                    let mut current: Vec<OperationId> = Vec::new();
                    std::mem::swap(&mut current, &mut batch);
                    res.push(ChainEventAction::IndexPendingOperations(current));
                }
                let ghost flushed = res@;
                let action = match e {
                    ChainEvent::Started => ChainEventAction::IndexChainAndReindexPending,
                    ChainEvent::StreamDiscontinuity => ChainEventAction::ReindexPending,
                    ChainEvent::NewChainBlock(_) => ChainEventAction::IndexChain,
                    ChainEvent::ChainDiverged(o) => ChainEventAction::HandleDivergence(o),
                    ChainEvent::NewPendingOperation(_) => ChainEventAction::ReindexPending,
                };
                res.push(action);
                proof {
                    assert(flushed.map_values(view_of) =~= before.map_values(view_of) + flush_batch(actions_upto(events@, k as nat).1));
                    assert(res@.map_values(view_of) =~= flushed.map_values(view_of).push(event_action(e)));
                }
            },
        }
        k = k + 1;
    }
    if batch.len() > 0 {
        let ghost before = res@;
        res.push(ChainEventAction::IndexPendingOperations(batch));
        proof {
            assert(res@.map_values(view_of) =~= before.map_values(view_of) + flush_batch(actions_upto(events@, k as nat).1));
        }
    } else {
        proof {
            assert(res@.map_values(view_of) =~= res@.map_values(view_of) + flush_batch(actions_upto(events@, k as nat).1));
        }
    }
    res
}

/// Key by which mutations are ordered as they got committed: by block
/// offset, pending ones last, then by operation id.
pub open spec fn commit_key(m: MutationMetadata) -> (u64, u64) {
    (
        match m.block_offset {
            Some(o) => o,
            None => u64::MAX,
        },
        m.operation_id,
    )
}

pub open spec fn key_le(a: (u64, u64), b: (u64, u64)) -> bool {
    a.0 < b.0 || (a.0 == b.0 && a.1 <= b.1)
}

/// Sequence with the mutation inserted after all those whose key isn't
/// greater than its own.
pub open spec fn insert_by_key(s: Seq<MutationMetadata>, x: MutationMetadata) -> Seq<MutationMetadata>
    decreases s.len(),
{
    if s.len() == 0 {
        seq![x]
    } else if key_le(commit_key(s.last()), commit_key(x)) {
        s.push(x)
    } else {
        insert_by_key(s.drop_last(), x).push(s.last())
    }
}

/// Mutations sorted by commit key, those with equal keys in the order given.
pub open spec fn sort_by_commit(s: Seq<MutationMetadata>) -> Seq<MutationMetadata>
    decreases s.len(),
{
    if s.len() == 0 {
        s
    } else {
        insert_by_key(sort_by_commit(s.drop_last()), s.last())
    }
}

/// Mutations without those that follow one of the same operation.
pub open spec fn dedup_by_operation(s: Seq<MutationMetadata>) -> Seq<MutationMetadata>
    decreases s.len(),
{
    if s.len() == 0 {
        s
    } else {
        let d = dedup_by_operation(s.drop_last());
        if d.len() > 0 && d.last().operation_id == s.last().operation_id {
            d
        } else {
            d.push(s.last())
        }
    }
}

/// Inserting after the last mutation whose key isn't greater inserts at that
/// position.
proof fn lemma_insert_by_key_at(s: Seq<MutationMetadata>, x: MutationMetadata, p: int)
    requires
        0 <= p <= s.len(),
        forall|i: int| p <= i < s.len() ==> !key_le(commit_key(#[trigger] s[i]), commit_key(x)),
        p > 0 ==> key_le(commit_key(s[p - 1]), commit_key(x)),
    ensures
        insert_by_key(s, x) == s.take(p) + seq![x] + s.skip(p),
    decreases s.len(),
{
    if s.len() == 0 {
        assert(s.take(p) + seq![x] + s.skip(p) =~= seq![x]);
    } else if key_le(commit_key(s.last()), commit_key(x)) {
        assert(p == s.len()) by {
            if p < s.len() {
                assert(!key_le(commit_key(s[s.len() - 1]), commit_key(x)));
            }
        }
        assert(s.take(p) + seq![x] + s.skip(p) =~= s.push(x));
    } else {
        let d = s.drop_last();
        assert(p < s.len()) by {
            if p == s.len() {
                assert(key_le(commit_key(s[p - 1]), commit_key(x)));
            }
        }
        assert forall|i: int| p <= i < d.len() implies !key_le(commit_key(#[trigger] d[i]), commit_key(x)) by {
            assert(d[i] == s[i]);
        }
        lemma_insert_by_key_at(d, x, p);
        assert(d.take(p) + seq![x] + d.skip(p) + seq![s.last()] =~= s.take(p) + seq![x] + s.skip(p));
    }
}

/// Inserts the mutation into the sorted mutations, after those whose key
/// isn't greater.
fn insert_sorted(sorted: &mut Vec<MutationMetadata>, x: MutationMetadata)
    ensures
        final(sorted)@ == insert_by_key(old(sorted)@, x),
{
    let ghost s = sorted@;
    let x_offset: u64 = match x.block_offset {
        Some(o) => o,
        None => u64::MAX,
    };
    let mut p: usize = sorted.len();
    while p > 0
        invariant
            p <= s.len(),
            sorted@ == s,
            x_offset == commit_key(x).0,
            forall|i: int| p <= i < s.len() ==> !key_le(commit_key(#[trigger] s[i]), commit_key(x)),
        ensures
            p <= s.len(),
            sorted@ == s,
            forall|i: int| p <= i < s.len() ==> !key_le(commit_key(#[trigger] s[i]), commit_key(x)),
            p > 0 ==> key_le(commit_key(s[p - 1]), commit_key(x)),
        decreases p,
    {
        let prev = &sorted[p - 1];
        let prev_offset: u64 = match prev.block_offset {
            Some(o) => o,
            None => u64::MAX,
        };
        if prev_offset < x_offset || (prev_offset == x_offset && prev.operation_id <= x.operation_id) {
            break;
        }
        p = p - 1;
    }
    proof {
        lemma_insert_by_key_at(s, x, p as int);
    }
    sorted.insert(p, x);
    proof {
        assert(sorted@ =~= s.take(p as int) + seq![x] + s.skip(p as int));
    }
}

/// Merges the mutations of an entity from the pending and the chain indices:
/// sorted in the order they got committed (by block offset, pending ones
/// last, then by operation id), without a mutation that follows one of the
/// same operation, as happens while an operation is in both indices.
pub fn merge_entity_mutations(pending: Vec<MutationMetadata>, chain: Vec<MutationMetadata>) -> (res: Vec<MutationMetadata>)
    ensures
        res@ == dedup_by_operation(sort_by_commit(pending@ + chain@)),
{
    let ghost all = pending@ + chain@;
    let mut items = pending;
    let mut chain = chain;
    items.append(&mut chain);
    let total = items.len();
    let mut sorted: Vec<MutationMetadata> = Vec::new();
    let mut k: usize = 0;
    while items.len() > 0
        invariant
            k <= all.len(),
            all.len() == total,
            items@ == all.skip(k as int),
            items@.len() == total - k,
            sorted@ == sort_by_commit(all.take(k as int)),
        decreases items@.len(),
    {
        let x = items.remove(0);
        proof {
            assert(x == all[k as int]);
            assert(items@ =~= all.skip(k as int + 1));
            assert(all.take(k as int + 1).drop_last() =~= all.take(k as int));
        }
        insert_sorted(&mut sorted, x);
        k = k + 1;
    }
    proof {
        assert(all.take(k as int) =~= all);
    }
    let ghost sorted_all = sorted@;
    let mut res: Vec<MutationMetadata> = Vec::new();
    let mut j: usize = 0;
    let count = sorted.len();
    while sorted.len() > 0
        invariant
            j <= sorted_all.len(),
            sorted_all.len() == count,
            sorted@ == sorted_all.skip(j as int),
            sorted@.len() == count - j,
            res@ == dedup_by_operation(sorted_all.take(j as int)),
        decreases sorted@.len(),
    {
        let x = sorted.remove(0);
        proof {
            assert(x == sorted_all[j as int]);
            assert(sorted@ =~= sorted_all.skip(j as int + 1));
            assert(sorted_all.take(j as int + 1).drop_last() =~= sorted_all.take(j as int));
        }
        let duplicate = res.len() > 0 && res[res.len() - 1].operation_id == x.operation_id;
        if !duplicate {
            res.push(x);
        }
        j = j + 1;
    }
    proof {
        assert(sorted_all.take(j as int) =~= sorted_all);
    }
    res
}

pub open spec fn sorted_by_commit(s: Seq<MutationMetadata>) -> bool {
    forall|i: int, j: int| 0 <= i < j < s.len() ==> key_le(commit_key(#[trigger] s[i]), commit_key(#[trigger] s[j]))
}

proof fn lemma_insert_by_key_sorted(s: Seq<MutationMetadata>, x: MutationMetadata)
    requires
        sorted_by_commit(s),
    ensures
        sorted_by_commit(insert_by_key(s, x)),
        insert_by_key(s, x).len() == s.len() + 1,
        forall|y: MutationMetadata| #[trigger] insert_by_key(s, x).contains(y) ==> s.contains(y) || y == x,
        insert_by_key(s, x).contains(x),
        forall|y: MutationMetadata| s.contains(y) ==> #[trigger] insert_by_key(s, x).contains(y),
    decreases s.len(),
{
    let r = insert_by_key(s, x);
    if s.len() == 0 {
        assert(r[0] == x);
    } else if key_le(commit_key(s.last()), commit_key(x)) {
        assert(r =~= s.push(x));
        assert(r[s.len() as int] == x);
        assert forall|y: MutationMetadata| #[trigger] r.contains(y) implies s.contains(y) || y == x by {
            let i = choose|i: int| 0 <= i < r.len() && r[i] == y;
            if i < s.len() {
                assert(s[i] == y);
            }
        }
        assert forall|y: MutationMetadata| s.contains(y) implies #[trigger] r.contains(y) by {
            let i = choose|i: int| 0 <= i < s.len() && s[i] == y;
            assert(r[i] == y);
        }
    } else {
        let d = s.drop_last();
        let l = s.last();
        assert(sorted_by_commit(d)) by {
            assert forall|i: int, j: int| 0 <= i < j < d.len() implies key_le(commit_key(#[trigger] d[i]), commit_key(#[trigger] d[j])) by {
                assert(d[i] == s[i] && d[j] == s[j]);
            }
        }
        lemma_insert_by_key_sorted(d, x);
        let q = insert_by_key(d, x);
        assert(r == q.push(l));
        assert forall|i: int| 0 <= i < q.len() implies key_le(commit_key(#[trigger] q[i]), commit_key(l)) by {
            assert(q.contains(q[i]));
            if q[i] != x {
                assert(d.contains(q[i]));
                let j = choose|j: int| 0 <= j < d.len() && d[j] == q[i];
                assert(s[j] == q[i]);
                assert(key_le(commit_key(s[j]), commit_key(s[s.len() - 1])));
            }
        }
        assert forall|i: int, j: int| 0 <= i < j < r.len() implies key_le(commit_key(#[trigger] r[i]), commit_key(#[trigger] r[j])) by {
            if j == q.len() {
                assert(r[i] == q[i]);
            } else {
                assert(r[i] == q[i] && r[j] == q[j]);
            }
        }
        assert(q.contains(x));
        let ix = choose|i: int| 0 <= i < q.len() && q[i] == x;
        assert(r[ix] == x);
        assert forall|y: MutationMetadata| #[trigger] r.contains(y) implies s.contains(y) || y == x by {
            let i = choose|i: int| 0 <= i < r.len() && r[i] == y;
            if i < q.len() {
                assert(q[i] == y);
                assert(q.contains(y));
                if y != x {
                    let j = choose|j: int| 0 <= j < d.len() && d[j] == y;
                    assert(s[j] == y);
                }
            } else {
                assert(s[s.len() - 1] == y);
            }
        }
        assert forall|y: MutationMetadata| s.contains(y) implies #[trigger] r.contains(y) by {
            let i = choose|i: int| 0 <= i < s.len() && s[i] == y;
            if i < d.len() {
                assert(d[i] == y);
                assert(d.contains(y));
                assert(q.contains(y));
                let j = choose|j: int| 0 <= j < q.len() && q[j] == y;
                assert(r[j] == y);
            } else {
                assert(r[q.len() as int] == y);
            }
        }
    }
}

proof fn lemma_sort_by_commit_sorted(s: Seq<MutationMetadata>)
    ensures
        sorted_by_commit(sort_by_commit(s)),
        forall|y: MutationMetadata| s.contains(y) ==> #[trigger] sort_by_commit(s).contains(y),
        forall|y: MutationMetadata| #[trigger] sort_by_commit(s).contains(y) ==> s.contains(y),
    decreases s.len(),
{
    if s.len() > 0 {
        let d = s.drop_last();
        lemma_sort_by_commit_sorted(d);
        lemma_insert_by_key_sorted(sort_by_commit(d), s.last());
        assert forall|y: MutationMetadata| #[trigger] sort_by_commit(s).contains(y) implies s.contains(y) by {
            if y != s.last() {
                assert(d.contains(y));
                let i = choose|i: int| 0 <= i < d.len() && d[i] == y;
                assert(s[i] == y);
            } else {
                assert(s[s.len() - 1] == y);
            }
        }
        assert forall|y: MutationMetadata| s.contains(y) implies #[trigger] sort_by_commit(s).contains(y) by {
            let i = choose|i: int| 0 <= i < s.len() && s[i] == y;
            if i < d.len() {
                assert(d[i] == y);
                assert(d.contains(y));
            }
        }
    }
}

proof fn lemma_dedup_by_operation(s: Seq<MutationMetadata>)
    requires
        sorted_by_commit(s),
    ensures
        sorted_by_commit(dedup_by_operation(s)),
        forall|i: int| 0 <= i < dedup_by_operation(s).len() - 1
            ==> (#[trigger] dedup_by_operation(s)[i]).operation_id != dedup_by_operation(s)[i + 1].operation_id,
        forall|y: MutationMetadata| #[trigger] dedup_by_operation(s).contains(y) ==> s.contains(y),
        forall|i: int| 0 <= i < s.len() ==> exists|j: int| 0 <= j < dedup_by_operation(s).len()
            && (#[trigger] dedup_by_operation(s)[j]).operation_id == (#[trigger] s[i]).operation_id,
        s.len() > 0 ==> dedup_by_operation(s).len() > 0 && dedup_by_operation(s).last().operation_id == s.last().operation_id,
    decreases s.len(),
{
    if s.len() > 0 {
        let d0 = s.drop_last();
        assert(sorted_by_commit(d0)) by {
            assert forall|i: int, j: int| 0 <= i < j < d0.len() implies key_le(commit_key(#[trigger] d0[i]), commit_key(#[trigger] d0[j])) by {
                assert(d0[i] == s[i] && d0[j] == s[j]);
            }
        }
        lemma_dedup_by_operation(d0);
        let d = dedup_by_operation(d0);
        let r = dedup_by_operation(s);
        let l = s.last();
        if d.len() > 0 && d.last().operation_id == l.operation_id {
            assert(r == d);
            assert forall|y: MutationMetadata| #[trigger] r.contains(y) implies s.contains(y) by {
                assert(d0.contains(y));
                let i = choose|i: int| 0 <= i < d0.len() && d0[i] == y;
                assert(s[i] == y);
            }
            assert forall|i: int| 0 <= i < s.len() implies exists|j: int| 0 <= j < r.len()
                && (#[trigger] r[j]).operation_id == (#[trigger] s[i]).operation_id by {
                if i < d0.len() {
                    assert(d0[i] == s[i]);
                } else {
                    assert(r[r.len() - 1].operation_id == s[i].operation_id);
                }
            }
        } else {
            assert(r == d.push(l));
            assert forall|i: int| 0 <= i < d.len() implies key_le(commit_key(#[trigger] d[i]), commit_key(l)) by {
                assert(d.contains(d[i]));
                assert(d0.contains(d[i]));
                let j = choose|j: int| 0 <= j < d0.len() && d0[j] == d[i];
                assert(s[j] == d[i]);
                assert(key_le(commit_key(s[j]), commit_key(s[s.len() - 1])));
            }
            assert forall|i: int, j: int| 0 <= i < j < r.len() implies key_le(commit_key(#[trigger] r[i]), commit_key(#[trigger] r[j])) by {
                if j == d.len() {
                    assert(r[i] == d[i]);
                } else {
                    assert(r[i] == d[i] && r[j] == d[j]);
                }
            }
            assert forall|i: int| 0 <= i < r.len() - 1
                implies (#[trigger] r[i]).operation_id != r[i + 1].operation_id by {
                if i + 1 < d.len() {
                    assert(r[i] == d[i] && r[i + 1] == d[i + 1]);
                } else {
                    assert(r[i] == d.last());
                }
            }
            assert forall|y: MutationMetadata| #[trigger] r.contains(y) implies s.contains(y) by {
                let i = choose|i: int| 0 <= i < r.len() && r[i] == y;
                if i < d.len() {
                    assert(d[i] == y);
                    assert(d.contains(y));
                    assert(d0.contains(y));
                    let j = choose|j: int| 0 <= j < d0.len() && d0[j] == y;
                    assert(s[j] == y);
                } else {
                    assert(s[s.len() - 1] == y);
                }
            }
            assert forall|i: int| 0 <= i < s.len() implies exists|j: int| 0 <= j < r.len()
                && (#[trigger] r[j]).operation_id == (#[trigger] s[i]).operation_id by {
                if i < d0.len() {
                    assert(d0[i] == s[i]);
                    let j = choose|j: int| 0 <= j < d.len() && (#[trigger] d[j]).operation_id == d0[i].operation_id;
                    assert(r[j] == d[j]);
                } else {
                    assert(r[r.len() - 1] == s[i]);
                }
            }
        }
    }
}

/// The merged mutations of an entity are in the order they got committed, no
/// two consecutive ones are of the same operation, and every operation of
/// the pending or the chain index is among them.
pub proof fn lemma_merged_mutations(pending: Seq<MutationMetadata>, chain: Seq<MutationMetadata>)
    ensures
        ({
            let r = dedup_by_operation(sort_by_commit(pending + chain));
            &&& sorted_by_commit(r)
            &&& forall|i: int| 0 <= i < r.len() - 1 ==> (#[trigger] r[i]).operation_id != r[i + 1].operation_id
            &&& forall|y: MutationMetadata| #[trigger] r.contains(y) ==> (pending + chain).contains(y)
            &&& forall|y: MutationMetadata| #[trigger] (pending + chain).contains(y)
                ==> exists|j: int| 0 <= j < r.len() && (#[trigger] r[j]).operation_id == y.operation_id
        }),
{
    let all = pending + chain;
    let sorted = sort_by_commit(all);
    lemma_sort_by_commit_sorted(all);
    lemma_dedup_by_operation(sorted);
    let r = dedup_by_operation(sorted);
    assert forall|y: MutationMetadata| #[trigger] r.contains(y) implies all.contains(y) by {
        assert(sorted.contains(y));
    }
    assert forall|y: MutationMetadata| #[trigger] all.contains(y)
        implies exists|j: int| 0 <= j < r.len() && (#[trigger] r[j]).operation_id == y.operation_id by {
        assert(sorted.contains(y));
        let i = choose|i: int| 0 <= i < sorted.len() && sorted[i] == y;
        assert(sorted[i] == y);
    }
}

} // verus!
