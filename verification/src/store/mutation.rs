//! Entity mutations and the builder of mutation requests.
use vstd::prelude::*;

verus! {

pub type EntityId = String;
pub type TraitId = String;
pub type OperationId = u64;

/// Point in time, as seconds and nanoseconds since the Unix epoch.
#[derive(Debug, Clone, Copy, PartialEq, Eq, Structural)]
pub struct Timestamp {
    pub seconds: i64,
    pub nanos: i32,
}

/// Serialized message of a trait, with the URL of its type.
#[derive(Debug, Clone)]
pub struct AnyMessage {
    pub type_url: String,
    pub value: Vec<u8>,
}

/// A trait of an entity.
#[derive(Debug, Clone)]
pub struct Trait {
    pub id: TraitId,
    pub message: Option<AnyMessage>,
    pub creation_date: Option<Timestamp>,
    pub modification_date: Option<Timestamp>,
    pub deletion_date: Option<Timestamp>,
    pub last_operation_id: u64,
}

#[derive(Debug, Clone)]
pub struct PutTraitMutation {
    pub trt: Option<Trait>,
}

#[derive(Debug, Clone)]
pub struct DeleteTraitMutation {
    pub trait_id: TraitId,
}

#[derive(Debug, Clone, Copy)]
pub struct DeleteEntityMutation {}

#[derive(Debug, Clone)]
pub struct UpdateTraitMutation {
    pub trait_id: TraitId,
    pub trt: Option<Trait>,
    pub if_last_operation_id: u64,
}

#[derive(Debug, Clone, Copy)]
pub struct CompactedOperation {
    pub operation_id: OperationId,
}

#[derive(Debug, Clone)]
pub struct CompactTraitMutation {
    pub trt: Option<Trait>,
    pub compacted_operations: Vec<CompactedOperation>,
}

#[derive(Debug, Clone)]
pub struct DeleteOperationsMutation {
    pub operation_ids: Vec<OperationId>,
}

#[derive(Debug, Clone, Copy)]
pub struct TestMutation {
    pub success: bool,
}

/// Mutation applied to an entity.
#[derive(Debug, Clone)]
pub enum Mutation {
    PutTrait(PutTraitMutation),
    DeleteTrait(DeleteTraitMutation),
    DeleteEntity(DeleteEntityMutation),
    UpdateTrait(UpdateTraitMutation),
    CompactTrait(CompactTraitMutation),
    DeleteOperations(DeleteOperationsMutation),
    Test(TestMutation),
}

/// Mutation of an entity.
#[derive(Debug, Clone)]
pub struct EntityMutation {
    pub entity_id: EntityId,
    pub mutation: Option<Mutation>,
}

/// Request of mutations to be applied to the store.
#[derive(Debug, Clone)]
pub struct MutationRequest {
    pub mutations: Vec<EntityMutation>,
    /// Reply once the mutations got indexed.
    pub wait_indexed: bool,
    /// Reply with the mutated entities, once indexed.
    pub return_entities: bool,
    /// Mutations without an entity id use the entity id of the previous one.
    pub common_entity_id: bool,
}

/// Builds a mutation request.
pub struct MutationBuilder {
    request: MutationRequest,
}

impl MutationBuilder {
    /// Request built so far.
    pub closed spec fn spec_request(&self) -> MutationRequest {
        self.request
    }

    /// Mutations built so far.
    pub closed spec fn spec_mutations(&self) -> Seq<EntityMutation> {
        self.request.mutations@
    }

    /// Starts a request with no mutation and every flag unset.
    pub fn new() -> (res: MutationBuilder)
        ensures
            res.spec_mutations() == Seq::<EntityMutation>::empty(),
            !res.spec_request().wait_indexed,
            !res.spec_request().return_entities,
            !res.spec_request().common_entity_id,
    {
        MutationBuilder {
            request: MutationRequest {
                mutations: Vec::new(),
                wait_indexed: false,
                return_entities: false,
                common_entity_id: false,
            },
        }
    }

    /// Adds a mutation that puts the given trait on the entity.
    pub fn put_trait(self, entity_id: EntityId, trt: Trait) -> (res: MutationBuilder)
        ensures
            res.spec_mutations() == self.spec_mutations().push(
                EntityMutation { entity_id, mutation: Some(Mutation::PutTrait(PutTraitMutation { trt: Some(trt) })) },
            ),
            res.spec_request().wait_indexed == self.spec_request().wait_indexed,
            res.spec_request().return_entities == self.spec_request().return_entities,
            res.spec_request().common_entity_id == self.spec_request().common_entity_id,
    {
        let mut res = self;
        res.request.mutations.push(
            EntityMutation { entity_id, mutation: Some(Mutation::PutTrait(PutTraitMutation { trt: Some(trt) })) },
        );
        res
    }

    /// Adds a mutation that deletes a trait of the entity.
    pub fn delete_trait(self, entity_id: EntityId, trait_id: TraitId) -> (res: MutationBuilder)
        ensures
            res.spec_mutations() == self.spec_mutations().push(
                EntityMutation { entity_id, mutation: Some(Mutation::DeleteTrait(DeleteTraitMutation { trait_id })) },
            ),
            res.spec_request().wait_indexed == self.spec_request().wait_indexed,
            res.spec_request().return_entities == self.spec_request().return_entities,
            res.spec_request().common_entity_id == self.spec_request().common_entity_id,
    {
        let mut res = self;
        res.request.mutations.push(
            EntityMutation { entity_id, mutation: Some(Mutation::DeleteTrait(DeleteTraitMutation { trait_id })) },
        );
        res
    }

    /// Adds a mutation that deletes the entity.
    pub fn delete_entity(self, entity_id: EntityId) -> (res: MutationBuilder)
        ensures
            res.spec_mutations() == self.spec_mutations().push(
                EntityMutation { entity_id, mutation: Some(Mutation::DeleteEntity(DeleteEntityMutation {})) },
            ),
            res.spec_request().wait_indexed == self.spec_request().wait_indexed,
            res.spec_request().return_entities == self.spec_request().return_entities,
            res.spec_request().common_entity_id == self.spec_request().common_entity_id,
    {
        let mut res = self;
        res.request.mutations.push(
            EntityMutation { entity_id, mutation: Some(Mutation::DeleteEntity(DeleteEntityMutation {})) },
        );
        res
    }

    /// Adds a mutation that deletes the given operations of the entity.
    pub fn delete_operations(self, entity_id: EntityId, operation_ids: Vec<OperationId>) -> (res: MutationBuilder)
        ensures
            res.spec_mutations() == self.spec_mutations().push(
                EntityMutation {
                    entity_id,
                    mutation: Some(Mutation::DeleteOperations(DeleteOperationsMutation { operation_ids })),
                },
            ),
            res.spec_request().wait_indexed == self.spec_request().wait_indexed,
            res.spec_request().return_entities == self.spec_request().return_entities,
            res.spec_request().common_entity_id == self.spec_request().common_entity_id,
    {
        let mut res = self;
        res.request.mutations.push(
            EntityMutation {
                entity_id,
                mutation: Some(Mutation::DeleteOperations(DeleteOperationsMutation { operation_ids })),
            },
        );
        res
    }

    /// Adds a mutation that replaces the given operations of a trait by a
    /// single new version of the trait.
    pub fn compact_traits(self, entity_id: EntityId, trt: Trait, compacted_operations: Vec<OperationId>) -> (res: MutationBuilder)
        ensures
            res.spec_mutations().len() == self.spec_mutations().len() + 1,
            res.spec_mutations().drop_last() == self.spec_mutations(),
            res.spec_mutations().last().entity_id == entity_id,
            res.spec_mutations().last().mutation matches Some(Mutation::CompactTrait(compact))
                && compact.trt == Some(trt)
                && compact.compacted_operations@.len() == compacted_operations@.len()
                && forall|k: int| 0 <= k < compacted_operations@.len()
                    ==> #[trigger] compact.compacted_operations@[k].operation_id == compacted_operations@[k],
            res.spec_request().wait_indexed == self.spec_request().wait_indexed,
            res.spec_request().return_entities == self.spec_request().return_entities,
            res.spec_request().common_entity_id == self.spec_request().common_entity_id,
    {
        let mut operations: Vec<CompactedOperation> = Vec::new();
        let mut k: usize = 0;
        while k < compacted_operations.len()
            invariant
                k <= compacted_operations@.len(),
                operations@.len() == k,
                forall|k2: int| 0 <= k2 < k ==> #[trigger] operations@[k2].operation_id == compacted_operations@[k2],
            decreases compacted_operations@.len() - k,
        {
            operations.push(CompactedOperation { operation_id: compacted_operations[k] });
            k = k + 1;
        }
        let mut res = self;
        res.request.mutations.push(
            EntityMutation {
                entity_id,
                mutation: Some(Mutation::CompactTrait(CompactTraitMutation { trt: Some(trt), compacted_operations: operations })),
            },
        );
        proof {
            assert(res.request.mutations@.drop_last() =~= self.request.mutations@);
        }
        res
    }

    /// Adds a test mutation that fails when applied.
    pub fn fail_mutation(self, entity_id: EntityId) -> (res: MutationBuilder)
        ensures
            res.spec_mutations() == self.spec_mutations().push(
                EntityMutation { entity_id, mutation: Some(Mutation::Test(TestMutation { success: false })) },
            ),
            res.spec_request().wait_indexed == self.spec_request().wait_indexed,
            res.spec_request().return_entities == self.spec_request().return_entities,
            res.spec_request().common_entity_id == self.spec_request().common_entity_id,
    {
        let mut res = self;
        res.request.mutations.push(
            EntityMutation { entity_id, mutation: Some(Mutation::Test(TestMutation { success: false })) },
        );
        res
    }

    /// Makes mutations without an entity id use the previous mutation's one.
    pub fn use_common_entity_id(self) -> (res: MutationBuilder)
        ensures
            res.spec_mutations() == self.spec_mutations(),
            res.spec_request().common_entity_id,
            res.spec_request().wait_indexed == self.spec_request().wait_indexed,
            res.spec_request().return_entities == self.spec_request().return_entities,
    {
        let mut res = self;
        res.request.common_entity_id = true;
        res
    }

    /// Asks for the mutated entities to be returned.
    pub fn return_entities(self) -> (res: MutationBuilder)
        ensures
            res.spec_mutations() == self.spec_mutations(),
            res.spec_request().return_entities,
            res.spec_request().wait_indexed == self.spec_request().wait_indexed,
            res.spec_request().common_entity_id == self.spec_request().common_entity_id,
    {
        let mut res = self;
        res.request.return_entities = true;
        res
    }

    /// Returns the built request.
    pub fn build(self) -> (res: MutationRequest)
        ensures
            res == self.spec_request(),
            res.mutations@ == self.spec_mutations(),
    {
        self.request
    }
}

/// A mutation request, built from a request, a single mutation or a builder.
pub struct MutationRequestLike(pub MutationRequest);

impl MutationRequestLike {
    pub fn from_request(request: MutationRequest) -> (res: MutationRequestLike)
        ensures
            res.0 == request,
    {
        MutationRequestLike(request)
    }

    /// A request holding the single mutation, with every flag unset.
    pub fn from_mutation(mutation: EntityMutation) -> (res: MutationRequestLike)
        ensures
            res.0.mutations@ == seq![mutation],
            !res.0.wait_indexed,
            !res.0.return_entities,
            !res.0.common_entity_id,
    {
        let mut mutations = Vec::new();
        mutations.push(mutation);
        MutationRequestLike(
            MutationRequest { mutations, wait_indexed: false, return_entities: false, common_entity_id: false },
        )
    }

    pub fn from_builder(builder: MutationBuilder) -> (res: MutationRequestLike)
        ensures
            res.0 == builder.spec_request(),
    {
        MutationRequestLike(builder.build())
    }
}

} // verus!
