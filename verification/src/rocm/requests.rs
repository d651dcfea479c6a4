//! The kernels that a prepared graph needs.
use vstd::prelude::*;

use super::error::RocmTensorExecutionError;
use super::kernels::{masked, KernelModel, RocmKernel, TensorDispatchKind};
use super::layout::{find_node, node_position, RocmPhysicalRepresentation};
use super::prepare::RocmPreparedTensorGraph;
use super::programs::{
    add_sub_steps, bounded_mul_kernel, bounded_mul_topology, bounded_pointwise_kernel,
    bounded_pointwise_topology, buildable, countable_operand, countable_steps,
    law_bounded_groups_are_buildable, law_mul_groups_are_buildable, mask_limit, mul_group_kernel,
    mul_steps, mul_topology, pointwise_kernel, pointwise_topology,
};
use super::sizes::{flattened_invocation_count, launchable};
use super::small::TopologyBytes;
use crate::tensor::descriptor::{NodeModel, OpDescriptor};
use crate::tensor::error::{TensorError, ValueId};
use crate::tensor::groups::{
    bounded_wf, mul_wf, refers_back, BoundedModel, GroupsModel, MulModel,
    TensorBoundedMulFusionGroup, TensorBoundedPointwiseFusionGroup,
};
use crate::tensor::lowering::{
    groups_known, lemma_found_groups, operation_for, operation_models, scheduled, OperationModel,
    TensorSelectedOperation,
};
use crate::tensor::value::extent;

verus! {

/// What tells prepared dispatches apart.
#[verifier::ext_equal]
#[allow(inconsistent_fields)]
pub enum KeyModel {
    Fixed(TensorDispatchKind, u32, u8),
    Pointwise { invocation_count: u32, scalar_mask: u8, topology: Seq<u8> },
}

/// What tells prepared dispatches apart. A group is known by all bytes of its expression, so no
/// two expressions share a key.
#[derive(Debug)]
#[allow(inconsistent_fields)]
pub enum TensorDispatchCacheKey {
    Fixed(TensorDispatchKind, u32, u8),
    Pointwise { invocation_count: u32, scalar_mask: u8, topology: TopologyBytes },
}

impl View for TensorDispatchCacheKey {
    type V = KeyModel;

    open spec fn view(&self) -> KeyModel {
        match self {
            TensorDispatchCacheKey::Fixed(kind, count, mask) => KeyModel::Fixed(
                *kind,
                *count,
                *mask,
            ),
            TensorDispatchCacheKey::Pointwise { invocation_count, scalar_mask, topology } => {
                KeyModel::Pointwise {
                    invocation_count: *invocation_count,
                    scalar_mask: *scalar_mask,
                    topology: topology@,
                }
            },
        }
    }
}

impl TensorDispatchCacheKey {
    /// Whether two keys are the same.
    pub fn same(&self, other: &TensorDispatchCacheKey) -> (answer: bool)
        ensures
            answer == (self@ == other@),
    {
        match (self, other) {
            (
                TensorDispatchCacheKey::Fixed(kind, count, mask),
                TensorDispatchCacheKey::Fixed(other_kind, other_count, other_mask),
            ) => *kind == *other_kind && *count == *other_count && *mask == *other_mask,
            (
                TensorDispatchCacheKey::Pointwise { invocation_count, scalar_mask, topology },
                TensorDispatchCacheKey::Pointwise {
                    invocation_count: other_count,
                    scalar_mask: other_mask,
                    topology: other_topology,
                },
            ) => *invocation_count == *other_count && *scalar_mask == *other_mask
                && topology.same(other_topology),
            _ => false,
        }
    }

    /// Another key that is the same.
    pub fn copied(&self) -> (copy: TensorDispatchCacheKey)
        ensures
            copy@ == self@,
    {
        match self {
            TensorDispatchCacheKey::Fixed(kind, count, mask) => TensorDispatchCacheKey::Fixed(
                *kind,
                *count,
                *mask,
            ),
            TensorDispatchCacheKey::Pointwise { invocation_count, scalar_mask, topology } => {
                TensorDispatchCacheKey::Pointwise {
                    invocation_count: *invocation_count,
                    scalar_mask: *scalar_mask,
                    topology: topology.copied(),
                }
            },
        }
    }
}

/// A kernel that a graph needs.
#[verifier::ext_equal]
#[allow(inconsistent_fields)]
pub enum RequestModel {
    Fixed { kind: TensorDispatchKind, logical_count: u32, scalar_mask: u8 },
    BoundedPointwise { group: BoundedModel, logical_count: u32, scalar_mask: u8 },
    BoundedMul { group: MulModel, logical_count: u32, scalar_mask: u8 },
}

impl RequestModel {
    /// What tells the kernel apart.
    pub open spec fn key(self) -> KeyModel {
        match self {
            RequestModel::Fixed { kind, logical_count, scalar_mask } => KeyModel::Fixed(
                kind,
                logical_count,
                scalar_mask,
            ),
            RequestModel::BoundedPointwise { group, logical_count, scalar_mask } => {
                KeyModel::Pointwise {
                    invocation_count: logical_count,
                    scalar_mask,
                    topology: pointwise_topology(group),
                }
            },
            RequestModel::BoundedMul { group, logical_count, scalar_mask } => {
                KeyModel::Pointwise {
                    invocation_count: logical_count,
                    scalar_mask,
                    topology: mul_topology(group),
                }
            },
        }
    }

    /// The kernel, if it can be built.
    pub open spec fn kernel(self) -> Option<KernelModel> {
        match self {
            RequestModel::Fixed { kind, logical_count, scalar_mask } => if logical_count == 0 {
                None
            } else {
                Some(kind.model(logical_count, scalar_mask))
            },
            RequestModel::BoundedPointwise { group, logical_count, scalar_mask } => if logical_count
                == 0 || !buildable(group.leaves.len(), add_sub_steps(group.steps), scalar_mask) {
                None
            } else {
                Some(pointwise_kernel(group, logical_count, scalar_mask))
            },
            RequestModel::BoundedMul { group, logical_count, scalar_mask } => if logical_count == 0
                || !buildable(group.leaves.len(), mul_steps(group.steps), scalar_mask) {
                None
            } else {
                Some(mul_group_kernel(group, logical_count, scalar_mask))
            },
        }
    }

    /// The kernel is made for one expression, not one of the fixed ones.
    pub open spec fn is_dynamic(self) -> bool {
        !(self is Fixed)
    }

    /// Masks are within their bits, and the values of a group can be counted.
    pub open spec fn wf(self) -> bool {
        match self {
            RequestModel::Fixed { kind, scalar_mask, .. } => kind.takes_scalars() ==> scalar_mask
                < 4,
            RequestModel::BoundedPointwise { group, .. } => countable_steps(
                group.leaves.len(),
                add_sub_steps(group.steps),
            ),
            RequestModel::BoundedMul { group, .. } => countable_steps(
                group.leaves.len(),
                mul_steps(group.steps),
            ),
        }
    }
}

/// A kernel that a graph needs.
#[derive(Debug)]
#[allow(inconsistent_fields)]
pub enum TensorDispatchRequest<'graph> {
    Fixed { kind: TensorDispatchKind, logical_count: u32, scalar_mask: u8 },
    BoundedPointwise {
        group: &'graph TensorBoundedPointwiseFusionGroup,
        logical_count: u32,
        scalar_mask: u8,
        topology: TopologyBytes,
    },
    BoundedMul {
        group: &'graph TensorBoundedMulFusionGroup,
        logical_count: u32,
        scalar_mask: u8,
        topology: TopologyBytes,
    },
}

impl<'graph> View for TensorDispatchRequest<'graph> {
    type V = RequestModel;

    open spec fn view(&self) -> RequestModel {
        match self {
            TensorDispatchRequest::Fixed { kind, logical_count, scalar_mask } => {
                RequestModel::Fixed {
                    kind: *kind,
                    logical_count: *logical_count,
                    scalar_mask: *scalar_mask,
                }
            },
            TensorDispatchRequest::BoundedPointwise { group, logical_count, scalar_mask, .. } => {
                RequestModel::BoundedPointwise {
                    group: group@,
                    logical_count: *logical_count,
                    scalar_mask: *scalar_mask,
                }
            },
            TensorDispatchRequest::BoundedMul { group, logical_count, scalar_mask, .. } => {
                RequestModel::BoundedMul {
                    group: group@,
                    logical_count: *logical_count,
                    scalar_mask: *scalar_mask,
                }
            },
        }
    }
}

impl<'graph> TensorDispatchRequest<'graph> {
    /// The bytes are those of the group.
    pub open spec fn wf(&self) -> bool {
        &&& self@.wf()
        &&& match self {
            TensorDispatchRequest::Fixed { .. } => true,
            TensorDispatchRequest::BoundedPointwise { group, topology, .. } => topology@
                == pointwise_topology(group@),
            TensorDispatchRequest::BoundedMul { group, topology, .. } => topology@ == mul_topology(
                group@,
            ),
        }
    }

    /// What tells the kernel apart.
    pub fn key(&self) -> (key: TensorDispatchCacheKey)
        requires
            self.wf(),
        ensures
            key@ == self@.key(),
    {
        match self {
            TensorDispatchRequest::Fixed { kind, logical_count, scalar_mask } => {
                TensorDispatchCacheKey::Fixed(*kind, *logical_count, *scalar_mask)
            },
            TensorDispatchRequest::BoundedPointwise {
                logical_count,
                scalar_mask,
                topology,
                ..
            } => TensorDispatchCacheKey::Pointwise {
                invocation_count: *logical_count,
                scalar_mask: *scalar_mask,
                topology: topology.copied(),
            },
            TensorDispatchRequest::BoundedMul { logical_count, scalar_mask, topology, .. } => {
                TensorDispatchCacheKey::Pointwise {
                    invocation_count: *logical_count,
                    scalar_mask: *scalar_mask,
                    topology: topology.copied(),
                }
            },
        }
    }

    /// Builds the kernel.
    ///
    /// # Errors
    ///
    /// `SizeOverflow` if it covers no element, or its expression does not fit the bounds.
    pub fn kernel(&self) -> (answer: Result<RocmKernel, RocmTensorExecutionError>)
        requires
            self.wf(),
        ensures
            match answer {
                Ok(kernel) => self@.kernel() == Some(kernel@),
                Err(error) => self@.kernel() is None && error
                    == RocmTensorExecutionError::SizeOverflow,
            },
    {
        match self {
            TensorDispatchRequest::Fixed { kind, logical_count, scalar_mask } => {
                if *logical_count == 0 {
                    return Err(RocmTensorExecutionError::SizeOverflow);
                }
                Ok(kind.kernel(*logical_count, *scalar_mask))
            },
            TensorDispatchRequest::BoundedPointwise {
                group,
                logical_count,
                scalar_mask,
                topology,
            } => {
                if *logical_count == 0 {
                    return Err(RocmTensorExecutionError::SizeOverflow);
                }
                bounded_pointwise_kernel(group, *logical_count, *scalar_mask, topology)
            },
            TensorDispatchRequest::BoundedMul { group, logical_count, scalar_mask, topology } => {
                if *logical_count == 0 {
                    return Err(RocmTensorExecutionError::SizeOverflow);
                }
                bounded_mul_kernel(group, *logical_count, *scalar_mask, topology)
            },
        }
    }

    /// Whether the kernel is made for one expression.
    pub fn is_dynamic(&self) -> (answer: bool)
        ensures
            answer == self@.is_dynamic(),
    {
        match self {
            TensorDispatchRequest::Fixed { .. } => false,
            _ => true,
        }
    }
}

/// Why the kernel of an operation cannot be named.
#[allow(inconsistent_fields)]
pub enum RequestFault {
    SizeOverflow,
    UnknownValue(ValueId),
    InvalidPlan(ValueId),
}

impl RequestFault {
    /// The fault as it is reported.
    pub open spec fn error(self) -> RocmTensorExecutionError {
        match self {
            RequestFault::SizeOverflow => RocmTensorExecutionError::SizeOverflow,
            RequestFault::UnknownValue(value) => RocmTensorExecutionError::Graph(
                TensorError::UnknownValue(value),
            ),
            RequestFault::InvalidPlan(value) => RocmTensorExecutionError::InvalidPlan(value),
        }
    }
}

/// The mask that marks the operands for which a flag is set.
pub open spec fn mask_of(flags: Seq<bool>) -> u8
    decreases flags.len(),
{
    if flags.len() == 0 {
        0
    } else {
        mask_of(flags.drop_last()) | if flags.last() {
            1u8 << ((flags.len() - 1) as u8)
        } else {
            0u8
        }
    }
}

impl<'graph> RocmPreparedTensorGraph<'graph> {
    /// The value is kept as one scalar.
    pub open spec fn scalar(&self, value: ValueId) -> bool {
        node_position(self.nodes(), value) matches Some(at) && self.is_compact(at)
    }

    /// The mask of the scalars among some values.
    pub open spec fn scalars(&self, values: Seq<ValueId>) -> u8 {
        mask_of(values.map_values(|value: ValueId| self.scalar(value)))
    }

    /// The first of some values that no node produces.
    pub open spec fn missing_node(&self, values: Seq<ValueId>) -> Option<ValueId>
        decreases values.len(),
    {
        if values.len() == 0 {
            None
        } else if self.missing_node(values.drop_last()) is Some {
            self.missing_node(values.drop_last())
        } else if node_position(self.nodes(), values.last()) is None {
            Some(values.last())
        } else {
            None
        }
    }

    /// The request for one of the fixed kernels over `shape`.
    pub open spec fn fixed_request(
        &self,
        kind: TensorDispatchKind,
        shape: Seq<usize>,
        scalar_mask: u8,
    ) -> Result<Option<RequestModel>, RequestFault> {
        if launchable(shape) {
            Ok(
                Some(
                    RequestModel::Fixed {
                        kind,
                        logical_count: extent(1, shape) as u32,
                        scalar_mask,
                    },
                ),
            )
        } else {
            Err(RequestFault::SizeOverflow)
        }
    }

    /// The kernel that an operation needs, if it needs one.
    pub open spec fn request_for(&self, operation: OperationModel<'_>) -> Result<
        Option<RequestModel>,
        RequestFault,
    > {
        match operation {
            OperationModel::FusedMul { group } => if self.missing_node(group.leaves) is Some {
                Err(RequestFault::InvalidPlan(self.missing_node(group.leaves)->Some_0))
            } else if !launchable(group.shape) {
                Err(RequestFault::SizeOverflow)
            } else {
                Ok(
                    Some(
                        RequestModel::BoundedMul {
                            group,
                            logical_count: extent(1, group.shape) as u32,
                            scalar_mask: self.scalars(group.leaves),
                        },
                    ),
                )
            },
            OperationModel::FusedAddSub { group } => if !launchable(group.shape) {
                Err(RequestFault::SizeOverflow)
            } else if self.missing_node(group.leaves) is Some {
                Err(RequestFault::InvalidPlan(self.missing_node(group.leaves)->Some_0))
            } else {
                Ok(
                    Some(
                        RequestModel::BoundedPointwise {
                            group,
                            logical_count: extent(1, group.shape) as u32,
                            scalar_mask: self.scalars(group.leaves),
                        },
                    ),
                )
            },
            OperationModel::FusedAddRelu { group } => self.fixed_request(
                TensorDispatchKind::AddRelu,
                group.shape,
                self.scalars(seq![group.left, group.right]),
            ),
            OperationModel::Node(node) => match node.op {
                OpDescriptor::Add { left, right } => self.fixed_request(
                    TensorDispatchKind::Add,
                    node.shape,
                    self.scalars(seq![left, right]),
                ),
                OpDescriptor::Sub { left, right } => self.fixed_request(
                    TensorDispatchKind::Sub,
                    node.shape,
                    self.scalars(seq![left, right]),
                ),
                OpDescriptor::Mul { left, right } => self.fixed_request(
                    TensorDispatchKind::Mul,
                    node.shape,
                    self.scalars(seq![left, right]),
                ),
                OpDescriptor::Relu { .. } => self.fixed_request(
                    TensorDispatchKind::Relu,
                    node.shape,
                    0,
                ),
                OpDescriptor::MeanSquaredError { prediction, .. } => if !self.graph.knows(
                    prediction,
                ) {
                    Err(RequestFault::UnknownValue(prediction))
                } else {
                    self.fixed_request(
                        TensorDispatchKind::SquaredDifference,
                        self.graph.shape_of(prediction),
                        0,
                    )
                },
                _ => Ok(None),
            },
        }
    }

    /// The different kernels that some operations need, in the order in which they are first
    /// needed.
    pub open spec fn requests(&self, operations: Seq<OperationModel<'_>>) -> Result<
        Seq<RequestModel>,
        RequestFault,
    >
        decreases operations.len(),
    {
        if operations.len() == 0 {
            Ok(Seq::empty())
        } else {
            match self.requests(operations.drop_last()) {
                Err(fault) => Err(fault),
                Ok(before) => match self.request_for(operations.last()) {
                    Err(fault) => Err(fault),
                    Ok(None) => Ok(before),
                    Ok(Some(request)) => if requested(before, request.key()) {
                        Ok(before)
                    } else {
                        Ok(before.push(request))
                    },
                },
            }
        }
    }

    /// Whether a value is kept as one scalar.
    pub fn is_compact_uniform(&self, value: ValueId) -> (answer: bool)
        requires
            self.layouts@.len() == self.nodes().len(),
        ensures
            answer == self.scalar(value),
    {
        match find_node(self.lowering_plan.nodes(), value) {
            Some(at) => self.layouts[at].representation
                == RocmPhysicalRepresentation::UniformScalar,
            None => false,
        }
    }

    /// The mask of the scalars among two operands.
    pub fn scalar_mask_for_operands(&self, left: ValueId, right: ValueId) -> (mask: u8)
        requires
            self.layouts@.len() == self.nodes().len(),
        ensures
            mask == self.scalars(seq![left, right]),
            mask < 4,
    {
        let left_scalar: bool = self.is_compact_uniform(left);
        let right_scalar: bool = self.is_compact_uniform(right);
        let low: u8 = if left_scalar {
            1
        } else {
            0
        };
        let high: u8 = if right_scalar {
            2
        } else {
            0
        };
        proof {
            let values = seq![left, right];
            let flags = values.map_values(|value: ValueId| self.scalar(value));
            assert(flags =~= seq![left_scalar, right_scalar]);
            let first = flags.drop_last();
            assert(first =~= seq![left_scalar]);
            assert(first.drop_last() =~= Seq::empty());
            assert(mask_of(first.drop_last()) == 0);
            assert(1u8 << 0u8 == 1u8) by (bit_vector);
            assert(1u8 << 1u8 == 2u8) by (bit_vector);
            assert(0u8 | low == low) by (bit_vector);
            assert(mask_of(first) == low);
            assert((low | high) < 4u8) by (bit_vector)
                requires
                    low <= 1,
                    high == 0 || high == 2,
            ;
        }
        low | high
    }

    /// The mask of the scalars among the leaves of a group.
    ///
    /// # Errors
    ///
    /// `InvalidPlan` for the first leaf that no node produces.
    pub fn group_leaf_scalar_mask(&self, leaves: &[ValueId]) -> (mask: Result<
        u8,
        RocmTensorExecutionError,
    >)
        requires
            self.layouts@.len() == self.nodes().len(),
            leaves@.len() <= 8,
        ensures
            match mask {
                Ok(mask) => self.missing_node(leaves@) is None && mask == self.scalars(leaves@),
                Err(error) => self.missing_node(leaves@) matches Some(leaf) && error
                    == RocmTensorExecutionError::InvalidPlan(leaf),
            },
    {
        let ghost flags = leaves@.map_values(|value: ValueId| self.scalar(value));
        let mut mask: u8 = 0;
        let mut at: usize = 0;
        assert(flags.take(0).len() == 0);
        assert(leaves@.take(0).len() == 0);
        while at < leaves.len()
            invariant
                at <= leaves@.len() <= 8,
                self.layouts@.len() == self.nodes().len(),
                flags == leaves@.map_values(|value: ValueId| self.scalar(value)),
                mask == mask_of(flags.take(at as int)),
                self.missing_node(leaves@.take(at as int)) is None,
            decreases leaves@.len() - at,
        {
            let leaf: ValueId = leaves[at];
            proof {
                assert(flags.take(at + 1).drop_last() =~= flags.take(at as int));
                assert(flags.take(at + 1).last() == self.scalar(leaf));
                assert(leaves@.take(at + 1).drop_last() =~= leaves@.take(at as int));
                assert(leaves@.take(at + 1).last() == leaf);
            }
            match find_node(self.lowering_plan.nodes(), leaf) {
                None => {
                    proof {
                        self.lemma_missing(leaves@, at + 1);
                    }
                    return Err(RocmTensorExecutionError::InvalidPlan(leaf));
                },
                Some(position) => {
                    if self.layouts[position].representation
                        == RocmPhysicalRepresentation::UniformScalar {
                        mask = mask | (1u8 << (at as u8));
                    } else {
                        assert(mask | 0u8 == mask) by (bit_vector);
                    }
                },
            }
            at += 1;
        }
        assert(flags.take(at as int) =~= flags);
        assert(leaves@.take(at as int) =~= leaves@);
        Ok(mask)
    }

    /// What is missing among the first values is missing among all.
    proof fn lemma_missing(&self, values: Seq<ValueId>, count: int)
        requires
            0 <= count <= values.len(),
            self.missing_node(values.take(count)) is Some,
        ensures
            self.missing_node(values) == self.missing_node(values.take(count)),
        decreases values.len() - count,
    {
        if count < values.len() {
            assert(values.take(count + 1).drop_last() =~= values.take(count));
            self.lemma_missing(values, count + 1);
        } else {
            assert(values.take(count) =~= values);
        }
    }
}

/// Some request has this key.
pub open spec fn requested(requests: Seq<RequestModel>, key: KeyModel) -> bool {
    exists|i: int| 0 <= i < requests.len() && (#[trigger] requests[i]).key() == key
}

/// The models of a list of requests.
pub open spec fn request_models<'graph>(requests: Seq<TensorDispatchRequest<'graph>>) -> Seq<
    RequestModel,
> {
    requests.map_values(|request: TensorDispatchRequest<'graph>| request@)
}

/// A list of nodes is scheduled as operations whose groups are among the known ones.
pub proof fn lemma_operation_groups<'a>(
    graph_id: u64,
    groups: GroupsModel,
    nodes: Seq<NodeModel<'a>>,
    operation: OperationModel<'a>,
)
    requires
        groups_known(graph_id, groups),
        scheduled(groups, nodes).contains(operation),
    ensures
        operation matches OperationModel::FusedAddSub { group } ==> bounded_wf(group),
        operation matches OperationModel::FusedMul { group } ==> mul_wf(group),
{
    let choice = |node: NodeModel<'a>| operation_for(groups, node);
    nodes.lemma_filter_map_contains(choice, operation);
    let node = choose|node: NodeModel<'a>| #[trigger]
        nodes.contains(node) && choice(node) == Some(operation);
    lemma_found_groups(groups, node.value);
    if let OperationModel::FusedAddSub { group } = operation {
        let g = groups.bounded.index_of(group);
        assert(groups.bounded[g] == group);
    }
    if let OperationModel::FusedMul { group } = operation {
        let g = groups.muls.index_of(group);
        assert(groups.muls[g] == group);
    }
}

proof fn lemma_countable_groups(operation: OperationModel<'_>)
    requires
        operation matches OperationModel::FusedAddSub { group } ==> bounded_wf(group),
        operation matches OperationModel::FusedMul { group } ==> mul_wf(group),
    ensures
        operation matches OperationModel::FusedAddSub { group } ==> countable_steps(
            group.leaves.len(),
            add_sub_steps(group.steps),
        ),
        operation matches OperationModel::FusedMul { group } ==> countable_steps(
            group.leaves.len(),
            mul_steps(group.steps),
        ),
{
    if let OperationModel::FusedAddSub { group } = operation {
        let steps = add_sub_steps(group.steps);
        assert forall|i: int| 0 <= i < steps.len() implies countable_operand(
            group.leaves.len(),
            (#[trigger] steps[i]).left,
        ) && countable_operand(group.leaves.len(), steps[i].right) by {
            assert(refers_back(group.steps[i].left, group.leaves.len(), i as nat));
            assert(refers_back(group.steps[i].right, group.leaves.len(), i as nat));
        }
    }
    if let OperationModel::FusedMul { group } = operation {
        let steps = mul_steps(group.steps);
        assert forall|i: int| 0 <= i < steps.len() implies countable_operand(
            group.leaves.len(),
            (#[trigger] steps[i]).left,
        ) && countable_operand(group.leaves.len(), steps[i].right) by {
            assert(refers_back(group.steps[i].left, group.leaves.len(), i as nat));
            assert(refers_back(group.steps[i].right, group.leaves.len(), i as nat));
        }
    }
}

/// A fixed kernel over a shape.
fn fixed_request<'p>(kind: TensorDispatchKind, shape: &[usize], scalar_mask: u8) -> (answer: Result<
    Option<TensorDispatchRequest<'p>>,
    RocmTensorExecutionError,
>)
    requires
        kind.takes_scalars() ==> scalar_mask < 4,
    ensures
        match answer {
            Ok(Some(request)) => launchable(shape@) && request.wf() && request@ == (
            RequestModel::Fixed {
                kind,
                logical_count: extent(1, shape@) as u32,
                scalar_mask,
            }),
            Ok(None) => false,
            Err(error) => !launchable(shape@) && error == RocmTensorExecutionError::SizeOverflow,
        },
{
    match flattened_invocation_count(shape) {
        Ok(logical_count) => Ok(
            Some(TensorDispatchRequest::Fixed { kind, logical_count, scalar_mask }),
        ),
        Err(error) => Err(error),
    }
}

impl<'graph> RocmPreparedTensorGraph<'graph> {
    /// A bounded group's kernel.
    fn bounded_pointwise_request<'p>(&self, group: &'p TensorBoundedPointwiseFusionGroup) -> (answer:
        Result<Option<TensorDispatchRequest<'p>>, RocmTensorExecutionError>)
        requires
            self.layouts@.len() == self.nodes().len(),
            bounded_wf(group@),
            countable_steps(group.leaves@.len(), add_sub_steps(group.steps@)),
        ensures
            match answer {
                Ok(Some(request)) => request.wf() && self.request_for(
                    OperationModel::FusedAddSub { group: group@ },
                ) == Ok::<_, RequestFault>(Some(request@)),
                Ok(None) => false,
                Err(error) => self.request_for(
                    OperationModel::FusedAddSub { group: group@ },
                ) matches Err(fault) && error == fault.error(),
            },
    {
        let logical_count: u32 = match flattened_invocation_count(group.shape.as_slice()) {
            Ok(count) => count,
            Err(error) => {
                return Err(error);
            },
        };
        let scalar_mask: u8 = match self.group_leaf_scalar_mask(group.leaves.as_slice()) {
            Ok(mask) => mask,
            Err(error) => {
                return Err(error);
            },
        };
        Ok(
            Some(
                TensorDispatchRequest::BoundedPointwise {
                    group,
                    logical_count,
                    scalar_mask,
                    topology: bounded_pointwise_topology(group),
                },
            ),
        )
    }

    /// A bounded Mul group's kernel.
    fn bounded_mul_request<'p>(&self, group: &'p TensorBoundedMulFusionGroup) -> (answer: Result<
        Option<TensorDispatchRequest<'p>>,
        RocmTensorExecutionError,
    >)
        requires
            self.layouts@.len() == self.nodes().len(),
            mul_wf(group@),
            countable_steps(group.leaves@.len(), mul_steps(group.steps@)),
        ensures
            match answer {
                Ok(Some(request)) => request.wf() && self.request_for(
                    OperationModel::FusedMul { group: group@ },
                ) == Ok::<_, RequestFault>(Some(request@)),
                Ok(None) => false,
                Err(error) => self.request_for(
                    OperationModel::FusedMul { group: group@ },
                ) matches Err(fault) && error == fault.error(),
            },
    {
        let scalar_mask: u8 = match self.group_leaf_scalar_mask(group.leaves.as_slice()) {
            Ok(mask) => mask,
            Err(error) => {
                return Err(error);
            },
        };
        let logical_count: u32 = match flattened_invocation_count(group.shape.as_slice()) {
            Ok(count) => count,
            Err(error) => {
                return Err(error);
            },
        };
        Ok(
            Some(
                TensorDispatchRequest::BoundedMul {
                    group,
                    logical_count,
                    scalar_mask,
                    topology: bounded_mul_topology(group),
                },
            ),
        )
    }

    /// The kernel that an operation needs, if it needs one.
    ///
    /// # Errors
    ///
    /// `SizeOverflow` if no launch covers the operation, `InvalidPlan` for a leaf that no node
    /// produces, and a graph error for a prediction that the graph does not know.
    pub fn dispatch_request<'p>(&self, operation: &'p TensorSelectedOperation<'graph>) -> (answer:
        Result<Option<TensorDispatchRequest<'p>>, RocmTensorExecutionError>)
        requires
            self.layouts@.len() == self.nodes().len(),
            operation@ matches OperationModel::FusedAddSub { group } ==> bounded_wf(group),
            operation@ matches OperationModel::FusedMul { group } ==> mul_wf(group),
        ensures
            match answer {
                Ok(Some(request)) => request.wf() && self.request_for(operation@) == Ok::<
                    _,
                    RequestFault,
                >(Some(request@)),
                Ok(None) => self.request_for(operation@) == Ok::<_, RequestFault>(None::<RequestModel>),
                Err(error) => self.request_for(operation@) matches Err(fault) && error
                    == fault.error(),
            },
    {
        proof {
            lemma_countable_groups(operation@);
        }
        match operation {
            TensorSelectedOperation::FusedMul { group } => self.bounded_mul_request(group),
            TensorSelectedOperation::FusedAddSub { group } => self.bounded_pointwise_request(group),
            TensorSelectedOperation::FusedAddRelu { left, right, shape, .. } => fixed_request(
                TensorDispatchKind::AddRelu,
                shape,
                self.scalar_mask_for_operands(*left, *right),
            ),
            TensorSelectedOperation::Node(node) => match node.op {
                OpDescriptor::Add { left, right } => fixed_request(
                    TensorDispatchKind::Add,
                    node.shape,
                    self.scalar_mask_for_operands(left, right),
                ),
                OpDescriptor::Sub { left, right } => fixed_request(
                    TensorDispatchKind::Sub,
                    node.shape,
                    self.scalar_mask_for_operands(left, right),
                ),
                OpDescriptor::Mul { left, right } => fixed_request(
                    TensorDispatchKind::Mul,
                    node.shape,
                    self.scalar_mask_for_operands(left, right),
                ),
                OpDescriptor::Relu { .. } => fixed_request(
                    TensorDispatchKind::Relu,
                    node.shape,
                    0,
                ),
                OpDescriptor::MeanSquaredError { prediction, .. } => match self.graph.shape(
                    prediction,
                ) {
                    Ok(shape) => fixed_request(TensorDispatchKind::SquaredDifference, shape, 0),
                    Err(error) => Err(RocmTensorExecutionError::Graph(error)),
                },
                _ => Ok(None),
            },
        }
    }

    /// The different kernels that the prepared graph needs, in the order in which they are first
    /// needed.
    ///
    /// # Errors
    ///
    /// Those of the first operation whose kernel cannot be named.
    pub fn collect_dispatch_requests<'p>(&'p self) -> (answer: Result<
        Vec<TensorDispatchRequest<'p>>,
        RocmTensorExecutionError,
    >)
        requires
            self.wf(),
        ensures
            match answer {
                Ok(requests) => {
                    &&& self.requests(operation_models(self.lowering_plan.operations@)) == Ok::<
                        _,
                        RequestFault,
                    >(request_models(requests@))
                    &&& forall|i: int| 0 <= i < requests@.len() ==> (#[trigger] requests@[i]).wf()
                },
                Err(error) => self.requests(
                    operation_models(self.lowering_plan.operations@),
                ) matches Err(fault) && error == fault.error(),
            },
    {
        let ghost models = operation_models(self.lowering_plan.operations@);
        let mut requests: Vec<TensorDispatchRequest<'p>> = Vec::new();
        let mut at: usize = 0;
        proof {
            assert(models.take(0).len() == 0);
            assert(request_models(requests@) =~= Seq::empty());
        }
        while at < self.lowering_plan.operations.len()
            invariant
                at <= self.lowering_plan.operations@.len(),
                self.wf(),
                models == operation_models(self.lowering_plan.operations@),
                self.requests(models.take(at as int)) == Ok::<_, RequestFault>(
                    request_models(requests@),
                ),
                forall|i: int| 0 <= i < requests@.len() ==> (#[trigger] requests@[i]).wf(),
            decreases self.lowering_plan.operations@.len() - at,
        {
            let operation: &'p TensorSelectedOperation<'graph> = &self.lowering_plan.operations[at];
            proof {
                assert(models.take(at + 1).drop_last() =~= models.take(at as int));
                assert(models.take(at + 1).last() == operation@);
                assert(models[at as int] == operation@);
                assert(models.contains(operation@));
                lemma_operation_groups(
                    self.lowering_plan.graph_id,
                    self.lowering_plan.groups(),
                    self.plan.selected_nodes(self.rewriting, self.arithmetic),
                    operation@,
                );
            }
            match self.dispatch_request(operation) {
                Err(error) => {
                    proof {
                        self.lemma_requests_fail(models, at + 1);
                    }
                    return Err(error);
                },
                Ok(None) => {},
                Ok(Some(request)) => {
                    let key: TensorDispatchCacheKey = request.key();
                    if !is_requested(requests.as_slice(), &key) {
                        let ghost before = requests@;
                        requests.push(request);
                        assert(request_models(requests@) =~= request_models(before).push(request@));
                    }
                },
            }
            at += 1;
        }
        assert(models.take(at as int) =~= models);
        Ok(requests)
    }

    /// A fault among the first operations is a fault of all.
    proof fn lemma_requests_fail(&self, operations: Seq<OperationModel<'_>>, count: int)
        requires
            0 <= count <= operations.len(),
            self.requests(operations.take(count)) is Err,
        ensures
            self.requests(operations) == self.requests(operations.take(count)),
        decreases operations.len() - count,
    {
        if count < operations.len() {
            assert(operations.take(count + 1).drop_last() =~= operations.take(count));
            self.lemma_requests_fail(operations, count + 1);
        } else {
            assert(operations.take(count) =~= operations);
        }
    }
}

/// Whether some request has this key.
fn is_requested(requests: &[TensorDispatchRequest<'_>], key: &TensorDispatchCacheKey) -> (found: bool)
    requires
        forall|i: int| 0 <= i < requests@.len() ==> (#[trigger] requests@[i]).wf(),
    ensures
        found == requested(request_models(requests@), key@),
{
    let ghost models = request_models(requests@);
    let mut at: usize = 0;
    while at < requests.len()
        invariant
            at <= requests@.len(),
            models == request_models(requests@),
            forall|i: int| 0 <= i < requests@.len() ==> (#[trigger] requests@[i]).wf(),
            forall|i: int| 0 <= i < at ==> (#[trigger] models[i]).key() != key@,
        decreases requests@.len() - at,
    {
        let own: TensorDispatchCacheKey = requests[at].key();
        assert(models[at as int] == requests@[at as int]@);
        if own.same(key) {
            return true;
        }
        at += 1;
    }
    false
}

/// No kernel is asked for twice.
pub proof fn law_requests_are_distinct(
    prepared: RocmPreparedTensorGraph<'_>,
    operations: Seq<OperationModel<'_>>,
    i: int,
    j: int,
)
    requires
        prepared.requests(operations) matches Ok(requests) && 0 <= i < j < requests.len(),
    ensures
        prepared.requests(operations)->Ok_0[i].key() != prepared.requests(
            operations,
        )->Ok_0[j].key(),
    decreases operations.len(),
{
    let before = prepared.requests(operations.drop_last())->Ok_0;
    let all = prepared.requests(operations)->Ok_0;
    if j < before.len() {
        law_requests_are_distinct(prepared, operations.drop_last(), i, j);
    } else {
        assert(all == before.push(all[j]));
        assert(before[i] == all[i]);
    }
}

/// The kernel of every operation is asked for.
pub proof fn law_every_kernel_is_requested(
    prepared: RocmPreparedTensorGraph<'_>,
    operations: Seq<OperationModel<'_>>,
    at: int,
)
    requires
        prepared.requests(operations) is Ok,
        0 <= at < operations.len(),
    ensures
        prepared.request_for(operations[at]) is Ok,
        prepared.request_for(operations[at])->Ok_0 matches Some(request) ==> requested(
            prepared.requests(operations)->Ok_0,
            request.key(),
        ),
    decreases operations.len(),
{
    let rest = operations.drop_last();
    let before = prepared.requests(rest)->Ok_0;
    let all = prepared.requests(operations)->Ok_0;
    if at < operations.len() - 1 {
        law_every_kernel_is_requested(prepared, rest, at);
        assert(rest[at] == operations[at]);
        if let Some(request) = prepared.request_for(operations[at])->Ok_0 {
            let i = choose|i: int|
                0 <= i < before.len() && (#[trigger] before[i]).key() == request.key();
            assert(all[i] == before[i]);
        }
    } else if let Some(request) = prepared.request_for(operations[at])->Ok_0 {
        if !requested(before, request.key()) {
            assert(all[before.len() as int].key() == request.key());
        }
    }
}

/// A mask marks exactly the operands for which a flag is set.
pub proof fn law_masks_mark_their_operands(flags: Seq<bool>, at: u8)
    requires
        flags.len() <= 8,
        at < 8,
    ensures
        masked(mask_of(flags), at) == (at < flags.len() && flags[at as int]),
    decreases flags.len(),
{
    if flags.len() == 0 {
        assert(0u8 & (1u8 << at) == 0u8) by (bit_vector);
    } else {
        let rest = mask_of(flags.drop_last());
        let top = (flags.len() - 1) as u8;
        law_masks_mark_their_operands(flags.drop_last(), at);
        if flags.last() {
            assert((rest | (1u8 << top)) & (1u8 << at) != 0u8 <==> (at == top || rest & (1u8 << at)
                != 0u8)) by (bit_vector)
                requires
                    at < 8,
                    top < 8,
            ;
        } else {
            assert(rest | 0u8 == rest) by (bit_vector);
        }
    }
}

/// A mask of few operands is one of the masks of that many operands.
proof fn lemma_mask_limit(flags: Seq<bool>)
    requires
        1 <= flags.len() <= 4,
    ensures
        mask_of(flags) < mask_limit(flags.len()),
{
    let mask = mask_of(flags);
    law_masks_mark_their_operands(flags, 1);
    law_masks_mark_their_operands(flags, 2);
    law_masks_mark_their_operands(flags, 3);
    law_masks_mark_their_operands(flags, 4);
    law_masks_mark_their_operands(flags, 5);
    law_masks_mark_their_operands(flags, 6);
    law_masks_mark_their_operands(flags, 7);
    assert((mask & (1u8 << 4u8) == 0 && mask & (1u8 << 5u8) == 0 && mask & (1u8 << 6u8) == 0 && mask
        & (1u8 << 7u8) == 0) ==> mask < 16) by (bit_vector);
    assert((mask < 16 && mask & (1u8 << 3u8) == 0) ==> mask < 8) by (bit_vector);
    assert((mask < 8 && mask & (1u8 << 2u8) == 0) ==> mask < 4) by (bit_vector);
    assert((mask < 4 && mask & (1u8 << 1u8) == 0) ==> mask < 2) by (bit_vector);
}

/// The kernel of an operation of a prepared graph can be built whenever it can be named.
pub proof fn law_named_kernels_are_buildable(
    prepared: RocmPreparedTensorGraph<'_>,
    operation: OperationModel<'_>,
)
    requires
        operation matches OperationModel::FusedAddSub { group } ==> bounded_wf(group),
        operation matches OperationModel::FusedMul { group } ==> mul_wf(group),
        prepared.request_for(operation) matches Ok(Some(_)),
    ensures
        prepared.request_for(operation)->Ok_0->Some_0.kernel() is Some,
{
    if let OperationModel::FusedAddSub { group } = operation {
        let flags = group.leaves.map_values(|value: ValueId| prepared.scalar(value));
        assert(refers_back(group.steps[0].left, group.leaves.len(), 0));
        lemma_mask_limit(flags);
        law_bounded_groups_are_buildable(group, prepared.scalars(group.leaves));
    }
    if let OperationModel::FusedMul { group } = operation {
        let flags = group.leaves.map_values(|value: ValueId| prepared.scalar(value));
        assert(refers_back(group.steps[0].left, group.leaves.len(), 0));
        lemma_mask_limit(flags);
        law_mul_groups_are_buildable(group, prepared.scalars(group.leaves));
    }
}

} // verus!
