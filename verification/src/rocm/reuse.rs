//! Reusable storage of repeated executions: scratch for what stays inside a plan, and banks for
//! what it hands out.
use vstd::prelude::*;
use vstd::slice::slice_to_vec;

use super::error::RocmTensorExecutionError;
use super::prepare::{is_scheduled, RocmPreparedTensorGraph};
use super::sizes::{
    allocatable, byte_len, largest_mse, mse_accepted, mse_refused, mse_scratch_element_count,
    output_position, scratch_stores_node, stored_in_scratch,
};
use super::sources::{RocmResource, RocmSession, RocmTensorInput};
use crate::tensor::descriptor::{node_models, NodeDescriptor, OpDescriptor};
use crate::tensor::error::ValueId;
use crate::tensor::lowering_laws::law_rewriting_keeps_requested_outputs;
use crate::tensor::value::{extent, law_smaller_unit_fits, Tensor, TensorModel};

verus! {

/// What an execution runs on: the session, the prepared plan and the memory pool, by their
/// identities, and whether the library handle still completes its work.
#[derive(Debug, Clone, Copy, PartialEq, Eq, Structural)]
pub struct RocmContext {
    pub session: RocmSession,
    pub plan: u64,
    pub pool: u64,
    pub library_usable: bool,
}

/// Reusable device allocations for one prepared plan, session and pool.
#[derive(Debug)]
pub struct RocmTensorScratch {
    pub plan: u64,
    pub session: u64,
    pub pool: u64,
    /// The storage of each node's value, where it has some.
    pub resources: Vec<Option<RocmResource>>,
    /// The storage of squared differences, where the plan needs some.
    pub mse_squared: Option<RocmResource>,
    /// An execution failed, so that the contents cannot be relied on.
    pub poisoned: bool,
}

/// Reusable output allocations for one prepared plan, session and pool.
#[derive(Debug)]
pub struct RocmTensorOutputBank {
    pub plan: u64,
    pub session: u64,
    pub pool: u64,
    /// The outputs in the order in which they were requested.
    pub outputs: Vec<RocmTensorInput>,
    /// An execution failed, so that the contents cannot be relied on.
    pub poisoned: bool,
}

impl<'graph> RocmPreparedTensorGraph<'graph> {
    /// Reusable storage keeps the value of the node at `at`.
    pub open spec fn stores(&self, at: int) -> bool {
        let node = self.nodes()[at];
        is_scheduled(self.lowering_plan, node.value) && stored_in_scratch(
            node.op,
            node.value,
            self.outputs@,
        )
    }

    /// Whether the value has an operation of its own.
    pub fn schedules(&self, value: ValueId) -> (answer: bool)
        requires
            self.lowering_plan.wf(),
        ensures
            answer == is_scheduled(self.lowering_plan, value),
    {
        match self.lowering_plan.operation_index_of(value) {
            Some(p) => {
                assert(self.lowering_plan.operation_steps()[p as int].value == value);
                true
            },
            None => false,
        }
    }
}

/// What is to be put into newly allocated storage.
#[derive(Debug)]
pub enum RocmStorageContents {
    /// Nothing: room for this many bytes.
    Room(usize),
    /// The tensor of the constant node.
    Constant,
    /// This tensor.
    Filled(Tensor),
}

/// Scratch storage in the making.
#[derive(Debug)]
pub struct RocmScratchBuilder {
    pub resources: Vec<Option<RocmResource>>,
    /// The most squared differences that a node of the plan has.
    pub mse_count: usize,
}

impl RocmScratchBuilder {
    /// The nodes so far have storage exactly where the plan keeps them.
    pub open spec fn wf(&self, prepared: RocmPreparedTensorGraph<'_>, context: RocmContext) -> bool {
        &&& self.resources@.len() <= prepared.nodes().len()
        &&& self.mse_count == largest_mse(*prepared.graph, prepared.nodes())
        &&& forall|i: int|
            0 <= i < self.resources@.len() ==> ((#[trigger] self.resources@[i]) is Some
                <==> prepared.stores(i))
        &&& forall|i: int|
            0 <= i < self.resources@.len() && (#[trigger] self.resources@[i]) is Some ==> fits(
                self.resources@[i]->Some_0,
                context,
            )
    }

    /// Starts to build scratch for a plan.
    ///
    /// # Errors
    ///
    /// Those of the first node whose squared differences cannot be sized.
    pub fn begin(prepared: &RocmPreparedTensorGraph<'_>) -> (builder: Result<
        RocmScratchBuilder,
        RocmTensorExecutionError,
    >)
        ensures
            match builder {
                Ok(builder) => builder.resources@.len() == 0 && builder.mse_count == largest_mse(
                    *prepared.graph,
                    prepared.nodes(),
                ),
                Err(error) => exists|i: int|
                    0 <= i < prepared.nodes().len() && mse_refused(
                        *prepared.graph,
                        #[trigger] prepared.nodes()[i],
                        error,
                    ) && forall|j: int|
                        0 <= j < i ==> mse_accepted(
                            *prepared.graph,
                            #[trigger] prepared.nodes()[j],
                        ),
            },
    {
        match mse_scratch_element_count(prepared.graph, prepared.lowering_plan.nodes()) {
            Ok(mse_count) => Ok(RocmScratchBuilder { resources: Vec::new(), mse_count }),
            Err(error) => {
                proof {
                    let nodes = prepared.lowering_plan.nodes@;
                    let i = choose|i: int|
                        0 <= i < nodes.len() && mse_refused(
                            *prepared.graph,
                            #[trigger] nodes[i],
                            error,
                        ) && forall|j: int|
                            0 <= j < i ==> mse_accepted(*prepared.graph, #[trigger] nodes[j]);
                    assert(prepared.nodes()[i] == nodes[i]);
                }
                Err(error)
            },
        }
    }

    /// Passes over nodes without storage, up to one whose storage has to be allocated. There is
    /// none left when nothing comes back.
    pub fn next(&mut self, prepared: &RocmPreparedTensorGraph<'_>, context: &RocmContext) -> (answer:
        Option<RocmStorageContents>)
        requires
            prepared.wf(),
            old(self).wf(*prepared, *context),
        ensures
            final(self).wf(*prepared, *context),
            final(self).resources@.len() >= old(self).resources@.len(),
            final(self).resources@.take(old(self).resources@.len() as int)
                == old(self).resources@,
            forall|i: int|
                old(self).resources@.len() <= i < final(self).resources@.len() ==> (
                #[trigger] final(self).resources@[i]) is None,
            match answer {
                None => final(self).resources@.len() == prepared.nodes().len(),
                Some(contents) => {
                    let at = final(self).resources@.len() as int;
                    &&& at < prepared.nodes().len()
                    &&& prepared.stores(at)
                    &&& prepared.contents(at, contents)
                },
            },
    {
        let nodes: &[NodeDescriptor<'_>] = prepared.lowering_plan.nodes();
        while self.resources.len() < nodes.len()
            invariant
                prepared.wf(),
                nodes@ == prepared.nodes(),
                self.wf(*prepared, *context),
                self.resources@.len() >= old(self).resources@.len(),
                self.resources@.take(old(self).resources@.len() as int) == old(self).resources@,
                forall|i: int|
                    old(self).resources@.len() <= i < self.resources@.len() ==> (
                    #[trigger] self.resources@[i]) is None,
            decreases nodes@.len() - self.resources@.len(),
        {
            let at: usize = self.resources.len();
            let node: NodeDescriptor<'_> = nodes[at];
            if prepared.schedules(node.value) && scratch_stores_node(
                node.op,
                node.value,
                prepared.outputs.as_slice(),
            ) {
                proof {
                    assert(allocatable(prepared.nodes()[at as int].shape@));
                    law_smaller_unit_fits(1, 4, node.shape@);
                }
                let contents: RocmStorageContents = match node.op {
                    OpDescriptor::Constant(_) => RocmStorageContents::Constant,
                    OpDescriptor::Uniform { value } => match prepared.layouts[at].uniform_tensor(
                        node.shape,
                        value,
                    ) {
                        Ok(tensor) => RocmStorageContents::Filled(tensor),
                        Err(_) => {
                            assert(false);
                            RocmStorageContents::Constant
                        },
                    },
                    _ => match byte_len(node.shape) {
                        Ok(bytes) => RocmStorageContents::Room(bytes),
                        Err(_) => {
                            assert(false);
                            RocmStorageContents::Constant
                        },
                    },
                };
                return Some(contents);
            }
            let ghost before = self.resources@;
            self.resources.push(None);
            assert(self.resources@.take(old(self).resources@.len() as int) =~= before.take(
                old(self).resources@.len() as int,
            ));
        }
        None
    }

    /// Takes the storage of the next node.
    ///
    /// # Errors
    ///
    /// `ScratchMismatch` if it is of another pool or device.
    pub fn supply(
        &mut self,
        prepared: &RocmPreparedTensorGraph<'_>,
        context: &RocmContext,
        resource: RocmResource,
    ) -> (verdict: Result<(), RocmTensorExecutionError>)
        requires
            old(self).wf(*prepared, *context),
            old(self).resources@.len() < prepared.nodes().len(),
            prepared.stores(old(self).resources@.len() as int),
        ensures
            match verdict {
                Ok(()) => {
                    &&& fits(resource, *context)
                    &&& final(self).wf(*prepared, *context)
                    &&& final(self).resources@ == old(self).resources@.push(Some(resource))
                },
                Err(error) => {
                    &&& !fits(resource, *context)
                    &&& *final(self) == *old(self)
                    &&& error == RocmTensorExecutionError::ScratchMismatch
                },
            },
    {
        if resource.pool != context.pool || resource.runtime != context.session.runtime {
            return Err(RocmTensorExecutionError::ScratchMismatch);
        }
        self.resources.push(Some(resource));
        Ok(())
    }

    /// The scratch, once every node has been passed and the squared differences, if there are
    /// any, have their storage.
    pub fn finish(self, context: &RocmContext, mse_squared: Option<RocmResource>) -> (scratch:
        RocmTensorScratch)
        ensures
            scratch.plan == context.plan,
            scratch.session == context.session.id,
            scratch.pool == context.pool,
            scratch.resources == self.resources,
            scratch.mse_squared == mse_squared,
            !scratch.poisoned,
    {
        RocmTensorScratch {
            plan: context.plan,
            session: context.session.id,
            pool: context.pool,
            resources: self.resources,
            mse_squared,
            poisoned: false,
        }
    }
}

impl<'graph> RocmPreparedTensorGraph<'graph> {
    /// This is what the storage of the node at `at` starts with.
    pub open spec fn contents(&self, at: int, contents: RocmStorageContents) -> bool {
        let node = self.nodes()[at];
        match node.op {
            OpDescriptor::Constant(_) => contents is Constant,
            OpDescriptor::Uniform { value } => contents matches RocmStorageContents::Filled(tensor)
                && tensor@ == if self.is_compact(at) {
                TensorModel::scalar(value)
            } else {
                TensorModel::splat(node.shape@, value)
            },
            _ => contents == RocmStorageContents::Room(extent(4, node.shape@) as usize),
        }
    }
}

/// The allocation is of the context's pool and device.
pub open spec fn fits(resource: RocmResource, context: RocmContext) -> bool {
    resource.pool == context.pool && resource.runtime == context.session.runtime
}

impl RocmTensorScratch {
    /// The scratch is for this plan, session and pool, and can be relied on.
    pub open spec fn serves(&self, context: RocmContext) -> bool {
        &&& self.plan == context.plan
        &&& self.session == context.session.id
        &&& !self.poisoned
        &&& self.pool == context.pool
    }

    /// Whether the scratch can be used.
    pub fn is_usable(&self, context: &RocmContext) -> (answer: bool)
        ensures
            answer == self.serves(*context),
    {
        self.plan == context.plan && self.session == context.session.id && !self.poisoned
            && self.pool == context.pool
    }

    /// A share of the storage of the node at `index`.
    ///
    /// # Errors
    ///
    /// `MissingResource` if it has none.
    pub fn lease(&self, prepared: &RocmPreparedTensorGraph<'_>, index: usize) -> (answer: Result<
        RocmResource,
        RocmTensorExecutionError,
    >)
        requires
            prepared.outputs@.len() > 0,
        ensures
            match answer {
                Ok(resource) => index < self.resources@.len() && self.resources@[index as int]
                    == Some(resource),
                Err(error) => {
                    &&& index >= self.resources@.len() || self.resources@[index as int] is None
                    &&& error == RocmTensorExecutionError::MissingResource(
                        if index < prepared.nodes().len() {
                            prepared.nodes()[index as int].value
                        } else {
                            prepared.outputs@[0]
                        },
                    )
                },
            },
    {
        if index < self.resources.len() {
            if let Some(resource) = self.resources[index] {
                return Ok(resource);
            }
        }
        let nodes: &[NodeDescriptor<'_>] = prepared.lowering_plan.nodes();
        let value: ValueId = if index < nodes.len() {
            nodes[index].value
        } else {
            prepared.outputs[0]
        };
        Err(RocmTensorExecutionError::MissingResource(value))
    }
}

/// The allocation can hold a requested output.
pub open spec fn holds_output(resource: RocmResource, context: RocmContext, shape: Seq<usize>) -> bool {
    &&& fits(resource, context)
    &&& resource.bytes >= extent(4, shape)
    &&& resource.access.writes()
}

/// Whether the allocation can hold a requested output.
fn can_hold_output(resource: &RocmResource, context: &RocmContext, shape: &[usize]) -> (answer: Result<
    bool,
    RocmTensorExecutionError,
>)
    ensures
        match answer {
            Ok(answer) => answer == holds_output(*resource, *context, shape@),
            Err(error) => !allocatable(shape@) && error == RocmTensorExecutionError::SizeOverflow,
        },
{
    if !(resource.pool == context.pool && resource.runtime == context.session.runtime) {
        return Ok(false);
    }
    match byte_len(shape) {
        Ok(bytes) => Ok(resource.bytes >= bytes && resource.access.writable()),
        Err(error) => Err(error),
    }
}

impl RocmTensorOutputBank {
    /// An output of the bank as a requested output.
    pub open spec fn output_fits(
        &self,
        prepared: RocmPreparedTensorGraph<'_>,
        context: RocmContext,
        at: int,
    ) -> bool {
        let shape = prepared.graph.shape_of(prepared.outputs@[at]);
        &&& self.outputs@[at].session == context.session.id
        &&& self.outputs@[at].shape@ == shape
        &&& holds_output(self.outputs@[at].resource, context, shape)
    }

    /// The bank is for this plan, session and pool, can be relied on, and each of its outputs can
    /// hold the requested one.
    pub open spec fn serves(
        &self,
        prepared: RocmPreparedTensorGraph<'_>,
        context: RocmContext,
    ) -> bool {
        &&& !self.poisoned
        &&& self.plan == context.plan
        &&& self.session == context.session.id
        &&& self.pool == context.pool
        &&& self.outputs@.len() == prepared.outputs@.len()
        &&& forall|i: int|
            0 <= i < self.outputs@.len() ==> #[trigger] self.output_fits(prepared, context, i)
    }

    /// Builds a bank from storage that was allocated for each requested output.
    /// `members_valid` says whether the shared validator of reusable banks took them.
    ///
    /// # Errors
    ///
    /// `OutputResourceMismatch` if some storage is of another pool or device, too small or not
    /// writable, or the bank is not valid.
    pub fn build(
        prepared: &RocmPreparedTensorGraph<'_>,
        context: &RocmContext,
        resources: &[RocmResource],
        members_valid: bool,
    ) -> (answer: Result<RocmTensorOutputBank, RocmTensorExecutionError>)
        requires
            prepared.wf(),
            resources@.len() == prepared.outputs@.len(),
        ensures
            match answer {
                Ok(bank) => {
                    &&& members_valid
                    &&& bank.serves(*prepared, *context)
                    &&& forall|i: int|
                        0 <= i < resources@.len() ==> (#[trigger] bank.outputs@[i]).resource
                            == resources@[i]
                },
                Err(error) => {
                    &&& error == RocmTensorExecutionError::OutputResourceMismatch
                    &&& !members_valid || exists|i: int|
                        0 <= i < resources@.len() && !holds_output(
                            #[trigger] resources@[i],
                            *context,
                            prepared.graph.shape_of(prepared.outputs@[i]),
                        )
                },
            },
    {
        let mut outputs: Vec<RocmTensorInput> = Vec::with_capacity(resources.len());
        while outputs.len() < resources.len()
            invariant
                prepared.wf(),
                resources@.len() == prepared.outputs@.len(),
                outputs@.len() <= resources@.len(),
                forall|i: int|
                    0 <= i < outputs@.len() ==> {
                        let shape = prepared.graph.shape_of(prepared.outputs@[i]);
                        &&& (#[trigger] outputs@[i]).session == context.session.id
                        &&& outputs@[i].shape@ == shape
                        &&& outputs@[i].resource == resources@[i]
                        &&& holds_output(resources@[i], *context, shape)
                    },
            decreases resources@.len() - outputs@.len(),
        {
            let at: usize = outputs.len();
            let resource: RocmResource = resources[at];
            let value: ValueId = prepared.outputs[at];
            proof {
                prepared.lemma_output_allocatable(at as int);
            }
            let shape: &[usize] = match prepared.graph.shape(value) {
                Ok(shape) => shape,
                Err(error) => {
                    assert(false);
                    return Err(RocmTensorExecutionError::Graph(error));
                },
            };
            match can_hold_output(&resource, context, shape) {
                Ok(true) => {},
                Ok(false) => {
                    assert(!holds_output(
                        resources@[at as int],
                        *context,
                        prepared.graph.shape_of(prepared.outputs@[at as int]),
                    ));
                    return Err(RocmTensorExecutionError::OutputResourceMismatch);
                },
                Err(error) => {
                    assert(false);
                    return Err(error);
                },
            }
            outputs.push(
                RocmTensorInput {
                    session: context.session.id,
                    shape: slice_to_vec(shape),
                    resource,
                },
            );
        }
        if !members_valid {
            return Err(RocmTensorExecutionError::OutputResourceMismatch);
        }
        let bank: RocmTensorOutputBank = RocmTensorOutputBank {
            plan: context.plan,
            session: context.session.id,
            pool: context.pool,
            outputs,
            poisoned: false,
        };
        assert forall|i: int| 0 <= i < bank.outputs@.len() implies #[trigger] bank.output_fits(
            *prepared,
            *context,
            i,
        ) by {
            assert(bank.outputs@[i] == outputs@[i]);
        }
        Ok(bank)
    }

    /// The outputs in the order in which they were requested.
    pub fn outputs(&self) -> (outputs: &[RocmTensorInput])
        ensures
            outputs@ == self.outputs@,
    {
        self.outputs.as_slice()
    }

    /// The bank's storage of a requested value.
    pub fn output(&self, outputs: &[ValueId], value: ValueId) -> (found: Option<&RocmTensorInput>)
        requires
            self.outputs@.len() == outputs@.len(),
        ensures
            match found {
                Some(input) => exists|i: int|
                    0 <= i < outputs@.len() && #[trigger] outputs@[i] == value && *input
                        == self.outputs@[i],
                None => !outputs@.contains(value),
            },
    {
        match output_position(outputs, value) {
            Some(at) => {
                assert(outputs@[at as int] == value);
                Some(&self.outputs[at])
            },
            None => None,
        }
    }
}

impl<'graph> RocmPreparedTensorGraph<'graph> {
    /// Requested outputs are known and can be allocated.
    pub proof fn lemma_output_allocatable(&self, at: int)
        requires
            self.wf(),
            0 <= at < self.outputs@.len(),
        ensures
            self.graph.knows(self.outputs@[at]),
            allocatable(self.graph.shape_of(self.outputs@[at])),
    {
        assert(self.graph.output_fault(self.outputs@, at) is None);
        law_rewriting_keeps_requested_outputs(self.plan, self.rewriting, self.arithmetic, at);
        self.lemma_nodes_sound();
        let selected = self.plan.selected_nodes(self.rewriting, self.arithmetic);
        let p = choose|p: int|
            0 <= p < selected.len() && (#[trigger] selected[p]).value == self.outputs@[at];
        assert(node_models(self.nodes())[p] == self.nodes()[p]@);
        assert(selected[p].shape == self.graph.shape_of(selected[p].value));
        assert(allocatable(self.nodes()[p].shape@));
    }
}

} // verus!
