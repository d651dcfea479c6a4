//! Device tensors as their owners describe them, and what an execution may read from.
use vstd::prelude::*;
use vstd::slice::slice_to_vec;

use super::error::RocmTensorExecutionError;
use super::layout::{find_node, node_position};
use super::matmul::PcuMemoryAccess;
use crate::tensor::descriptor::{NodeDescriptor, OpDescriptor};
use crate::tensor::error::{TensorError, ValueId};
use crate::tensor::value::{same_shape, Tensor};

verus! {

/// An opened session and the device runtime behind it, by their identities.
#[derive(Debug, Clone, Copy, PartialEq, Eq, Structural)]
pub struct RocmSession {
    pub id: u64,
    pub runtime: u64,
}

/// A device allocation, as its owner describes it. Shares of one allocation have one handle.
#[derive(Debug, Clone, Copy, PartialEq, Eq, Structural)]
pub struct RocmResource {
    pub handle: usize,
    pub runtime: u64,
    pub pool: u64,
    pub access: PcuMemoryAccess,
    pub bytes: usize,
}

/// A device tensor that its owner can hand to executions again and again.
#[derive(Debug)]
pub struct RocmTensorInput {
    pub session: u64,
    pub shape: Vec<usize>,
    pub resource: RocmResource,
}

impl RocmTensorInput {
    /// The tensor was made on this session, and its memory lies on its device.
    pub open spec fn belongs_to(&self, session: RocmSession) -> bool {
        self.session == session.id && self.resource.runtime == session.runtime
    }

    /// Whether the tensor belongs to a session.
    ///
    /// # Errors
    ///
    /// `InputResourceMismatch` if it does not.
    pub fn validate_session(&self, session: &RocmSession) -> (verdict: Result<
        (),
        RocmTensorExecutionError,
    >)
        ensures
            match verdict {
                Ok(()) => self.belongs_to(*session),
                Err(error) => !self.belongs_to(*session) && error
                    == RocmTensorExecutionError::InputResourceMismatch,
            },
    {
        if self.session != session.id {
            return Err(RocmTensorExecutionError::InputResourceMismatch);
        }
        if self.resource.runtime != session.runtime {
            return Err(RocmTensorExecutionError::InputResourceMismatch);
        }
        Ok(())
    }

    /// A share of the tensor's memory.
    pub fn resource_ref(&self) -> (resource: RocmResource)
        ensures
            resource == self.resource,
    {
        self.resource
    }

    /// A freshly uploaded tensor, if its memory lies on the session's device.
    ///
    /// # Errors
    ///
    /// `InputResourceMismatch` if it does not.
    pub fn uploaded(session: &RocmSession, tensor: &Tensor, resource: RocmResource) -> (input: Result<
        RocmTensorInput,
        RocmTensorExecutionError,
    >)
        ensures
            match input {
                Ok(input) => input.belongs_to(*session) && input.shape@ == tensor@.shape
                    && input.resource == resource,
                Err(error) => resource.runtime != session.runtime && error
                    == RocmTensorExecutionError::InputResourceMismatch,
            },
    {
        if resource.runtime != session.runtime {
            return Err(RocmTensorExecutionError::InputResourceMismatch);
        }
        Ok(RocmTensorInput { session: session.id, shape: slice_to_vec(tensor.shape()), resource })
    }

    /// Whether the contents can be replaced by those of a host tensor.
    ///
    /// # Errors
    ///
    /// `InputResourceMismatch` for a tensor of another session, and a shape mismatch for a host
    /// tensor of another shape.
    pub fn accepts_update(&self, session: &RocmSession, tensor: &Tensor) -> (verdict: Result<
        (),
        RocmTensorExecutionError,
    >)
        ensures
            match verdict {
                Ok(()) => self.belongs_to(*session) && self.shape@ == tensor@.shape,
                Err(error) => if !self.belongs_to(*session) {
                    error == RocmTensorExecutionError::InputResourceMismatch
                } else {
                    self.shape@ != tensor@.shape && (error matches RocmTensorExecutionError::Graph(
                        inner,
                    ) && inner.reports_mismatch(self.shape@, tensor@.shape))
                },
            },
    {
        if let Err(error) = self.validate_session(session) {
            return Err(error);
        }
        if !same_shape(tensor.shape(), self.shape.as_slice()) {
            return Err(
                RocmTensorExecutionError::Graph(
                    TensorError::ShapeMismatch {
                        left: slice_to_vec(self.shape.as_slice()),
                        right: slice_to_vec(tensor.shape()),
                    },
                ),
            );
        }
        Ok(())
    }

    /// Whether the contents can be copied to the host from this pool.
    ///
    /// # Errors
    ///
    /// `InputResourceMismatch` for a tensor of another session, `InputPoolMismatch` for one of
    /// another pool.
    pub fn accepts_download(&self, session: &RocmSession, pool: u64) -> (verdict: Result<
        (),
        RocmTensorExecutionError,
    >)
        ensures
            match verdict {
                Ok(()) => self.belongs_to(*session) && self.resource.pool == pool,
                Err(error) => if !self.belongs_to(*session) {
                    error == RocmTensorExecutionError::InputResourceMismatch
                } else {
                    self.resource.pool != pool && error
                        == RocmTensorExecutionError::InputPoolMismatch
                },
            },
    {
        if let Err(error) = self.validate_session(session) {
            return Err(error);
        }
        if self.resource.pool != pool {
            return Err(RocmTensorExecutionError::InputPoolMismatch);
        }
        Ok(())
    }
}

/// The value is supplied from the host.
pub open spec fn supplied(inputs: Seq<(ValueId, Tensor)>, value: ValueId) -> bool {
    exists|i: int| 0 <= i < inputs.len() && (#[trigger] inputs[i]).0 == value
}

/// The value is supplied by a device tensor.
pub open spec fn resident(inputs: Seq<(ValueId, &RocmTensorInput)>, value: ValueId) -> bool {
    exists|i: int| 0 <= i < inputs.len() && (#[trigger] inputs[i]).0 == value
}

/// A node reads this value as a graph input.
pub open spec fn takes_input(nodes: Seq<NodeDescriptor<'_>>, value: ValueId) -> bool {
    node_position(nodes, value) matches Some(at) && nodes[at].op is Input
}

/// The host tensor at `k` is one that the graph takes.
pub open spec fn host_accepted(
    nodes: Seq<NodeDescriptor<'_>>,
    inputs: Seq<(ValueId, Tensor)>,
    k: int,
) -> bool {
    &&& !supplied(inputs.take(k), inputs[k].0)
    &&& takes_input(nodes, inputs[k].0)
    &&& inputs[k].1@.shape == nodes[node_position(nodes, inputs[k].0)->Some_0].shape@
}

/// Why the host tensor at `k` is refused.
pub open spec fn host_refused(
    nodes: Seq<NodeDescriptor<'_>>,
    inputs: Seq<(ValueId, Tensor)>,
    k: int,
    error: TensorError,
) -> bool {
    let (id, tensor) = inputs[k];
    if supplied(inputs.take(k), id) {
        error == TensorError::DuplicateInput(id)
    } else if !takes_input(nodes, id) {
        error == TensorError::ExtraInput(id)
    } else {
        let shape = nodes[node_position(nodes, id)->Some_0].shape@;
        tensor@.shape != shape && error.reports_mismatch(tensor@.shape, shape)
    }
}

/// The node at `p` is an input that nothing supplies.
pub open spec fn unsupplied(
    nodes: Seq<NodeDescriptor<'_>>,
    inputs: Seq<(ValueId, Tensor)>,
    p: int,
) -> bool {
    nodes[p].op is Input && !supplied(inputs, nodes[p].value)
}

fn is_supplied(inputs: &[(ValueId, Tensor)], count: usize, value: ValueId) -> (found: bool)
    requires
        count <= inputs@.len(),
    ensures
        found == supplied(inputs@.take(count as int), value),
{
    let ghost first = inputs@.take(count as int);
    let mut at: usize = 0;
    while at < count
        invariant
            at <= count <= inputs@.len(),
            first == inputs@.take(count as int),
            forall|i: int| 0 <= i < at ==> (#[trigger] first[i]).0 != value,
        decreases count - at,
    {
        if inputs[at].0 == value {
            assert(first[at as int].0 == value);
            return true;
        }
        at += 1;
    }
    false
}

fn is_resident(inputs: &[(ValueId, &RocmTensorInput)], count: usize, value: ValueId) -> (found: bool)
    requires
        count <= inputs@.len(),
    ensures
        found == resident(inputs@.take(count as int), value),
{
    let ghost first = inputs@.take(count as int);
    let mut at: usize = 0;
    while at < count
        invariant
            at <= count <= inputs@.len(),
            first == inputs@.take(count as int),
            forall|i: int| 0 <= i < at ==> (#[trigger] first[i]).0 != value,
        decreases count - at,
    {
        if inputs[at].0 == value {
            assert(first[at as int].0 == value);
            return true;
        }
        at += 1;
    }
    false
}

/// Where the graph input stands, if a node reads this value as one.
fn input_node(nodes: &[NodeDescriptor<'_>], value: ValueId) -> (position: Option<usize>)
    ensures
        match position {
            Some(p) => takes_input(nodes@, value) && node_position(nodes@, value) == Some(p as int)
                && p < nodes@.len(),
            None => !takes_input(nodes@, value),
        },
{
    match find_node(nodes, value) {
        None => None,
        Some(at) => match nodes[at].op {
            OpDescriptor::Input => Some(at),
            _ => None,
        },
    }
}

/// Checks host tensors against the inputs of a graph.
///
/// # Errors
///
/// The first tensor that repeats a value, is for no input, or has another shape; and, where all
/// are required, the first input without a tensor.
pub fn validate_graph_inputs_inner(
    nodes: &[NodeDescriptor<'_>],
    inputs: &[(ValueId, Tensor)],
    require_all: bool,
) -> (verdict: Result<(), TensorError>)
    ensures
        match verdict {
            Ok(()) => {
                &&& forall|k: int|
                    0 <= k < inputs@.len() ==> #[trigger] host_accepted(nodes@, inputs@, k)
                &&& require_all ==> forall|p: int|
                    0 <= p < nodes@.len() ==> !#[trigger] unsupplied(nodes@, inputs@, p)
            },
            Err(error) => {
                ||| exists|k: int|
                    0 <= k < inputs@.len() && #[trigger] host_refused(nodes@, inputs@, k, error)
                        && forall|j: int|
                        0 <= j < k ==> #[trigger] host_accepted(nodes@, inputs@, j)
                ||| require_all && (forall|k: int|
                    0 <= k < inputs@.len() ==> #[trigger] host_accepted(nodes@, inputs@, k))
                    && exists|p: int|
                    {
                        &&& 0 <= p < nodes@.len()
                        &&& #[trigger] unsupplied(nodes@, inputs@, p)
                        &&& error == TensorError::MissingInput(nodes@[p].value)
                        &&& forall|q: int|
                            0 <= q < p ==> !#[trigger] unsupplied(nodes@, inputs@, q)
                    }
            },
        },
{
    let mut at: usize = 0;
    while at < inputs.len()
        invariant
            at <= inputs@.len(),
            forall|k: int| 0 <= k < at ==> #[trigger] host_accepted(nodes@, inputs@, k),
        decreases inputs@.len() - at,
    {
        let id: ValueId = inputs[at].0;
        if is_supplied(inputs, at, id) {
            assert(host_refused(nodes@, inputs@, at as int, TensorError::DuplicateInput(id)));
            return Err(TensorError::DuplicateInput(id));
        }
        let position: usize = match input_node(nodes, id) {
            Some(position) => position,
            None => {
                assert(host_refused(nodes@, inputs@, at as int, TensorError::ExtraInput(id)));
                return Err(TensorError::ExtraInput(id));
            },
        };
        let shape: &[usize] = nodes[position].shape;
        if !same_shape(inputs[at].1.shape(), shape) {
            let error: TensorError = TensorError::ShapeMismatch {
                left: slice_to_vec(inputs[at].1.shape()),
                right: slice_to_vec(shape),
            };
            assert(host_refused(nodes@, inputs@, at as int, error));
            return Err(error);
        }
        assert(host_accepted(nodes@, inputs@, at as int));
        at += 1;
    }
    if require_all {
        let mut p: usize = 0;
        while p < nodes.len()
            invariant
                p <= nodes@.len(),
                require_all,
                forall|k: int|
                    0 <= k < inputs@.len() ==> #[trigger] host_accepted(nodes@, inputs@, k),
                forall|q: int| 0 <= q < p ==> !#[trigger] unsupplied(nodes@, inputs@, q),
            decreases nodes@.len() - p,
        {
            assert(inputs@.take(inputs@.len() as int) =~= inputs@);
            if let OpDescriptor::Input = nodes[p].op {
                if !is_supplied(inputs, inputs.len(), nodes[p].value) {
                    assert(unsupplied(nodes@, inputs@, p as int));
                    return Err(TensorError::MissingInput(nodes[p].value));
                }
            }
            p += 1;
        }
    }
    Ok(())
}

/// Checks that host tensors are exactly those that the inputs of a graph need.
///
/// # Errors
///
/// As above, with all inputs required.
pub fn validate_graph_inputs(nodes: &[NodeDescriptor<'_>], inputs: &[(ValueId, Tensor)]) -> (verdict:
    Result<(), TensorError>)
    ensures
        verdict is Ok ==> {
            &&& forall|k: int|
                0 <= k < inputs@.len() ==> #[trigger] host_accepted(nodes@, inputs@, k)
            &&& forall|p: int|
                0 <= p < nodes@.len() ==> !#[trigger] unsupplied(nodes@, inputs@, p)
        },
        verdict matches Err(error) ==> {
            ||| exists|k: int|
                0 <= k < inputs@.len() && #[trigger] host_refused(nodes@, inputs@, k, error)
                    && forall|j: int| 0 <= j < k ==> #[trigger] host_accepted(nodes@, inputs@, j)
            ||| (forall|k: int|
                0 <= k < inputs@.len() ==> #[trigger] host_accepted(nodes@, inputs@, k)) && exists|
                p: int,
            |
                {
                    &&& 0 <= p < nodes@.len()
                    &&& #[trigger] unsupplied(nodes@, inputs@, p)
                    &&& error == TensorError::MissingInput(nodes@[p].value)
                    &&& forall|q: int| 0 <= q < p ==> !#[trigger] unsupplied(nodes@, inputs@, q)
                }
        },
{
    validate_graph_inputs_inner(nodes, inputs, true)
}

/// The device tensor at `k` is one that the graph takes from this session and pool.
pub open spec fn resident_accepted(
    nodes: Seq<NodeDescriptor<'_>>,
    host: Seq<(ValueId, Tensor)>,
    inputs: Seq<(ValueId, &RocmTensorInput)>,
    session: RocmSession,
    pool: u64,
    k: int,
) -> bool {
    let (id, input) = inputs[k];
    &&& !resident(inputs.take(k), id)
    &&& !supplied(host, id)
    &&& takes_input(nodes, id)
    &&& input.shape@ == nodes[node_position(nodes, id)->Some_0].shape@
    &&& input.belongs_to(session)
    &&& input.resource.pool == pool
    &&& input.resource.access.reads()
}

/// Why the device tensor at `k` is refused.
pub open spec fn resident_refused(
    nodes: Seq<NodeDescriptor<'_>>,
    host: Seq<(ValueId, Tensor)>,
    inputs: Seq<(ValueId, &RocmTensorInput)>,
    session: RocmSession,
    pool: u64,
    k: int,
    error: RocmTensorExecutionError,
) -> bool {
    let (id, input) = inputs[k];
    if resident(inputs.take(k), id) || supplied(host, id) {
        error == RocmTensorExecutionError::Graph(TensorError::DuplicateInput(id))
    } else if !takes_input(nodes, id) {
        error == RocmTensorExecutionError::Graph(TensorError::ExtraInput(id))
    } else {
        let shape = nodes[node_position(nodes, id)->Some_0].shape@;
        if shape != input.shape@ {
            error matches RocmTensorExecutionError::Graph(inner) && inner.reports_mismatch(
                shape,
                input.shape@,
            )
        } else if !input.belongs_to(session) {
            error == RocmTensorExecutionError::InputResourceMismatch
        } else if input.resource.pool != pool {
            error == RocmTensorExecutionError::InputPoolMismatch
        } else {
            !input.resource.access.reads() && error
                == RocmTensorExecutionError::InputResourceMismatch
        }
    }
}

/// The node at `p` is an input that neither the host nor a device tensor supplies.
pub open spec fn sourceless(
    nodes: Seq<NodeDescriptor<'_>>,
    host: Seq<(ValueId, Tensor)>,
    inputs: Seq<(ValueId, &RocmTensorInput)>,
    p: int,
) -> bool {
    nodes[p].op is Input && !supplied(host, nodes[p].value) && !resident(inputs, nodes[p].value)
}

/// Every input of the graph has exactly one source, and no source is for anything else.
pub open spec fn sources_accepted(
    nodes: Seq<NodeDescriptor<'_>>,
    host: Seq<(ValueId, Tensor)>,
    inputs: Seq<(ValueId, &RocmTensorInput)>,
    session: RocmSession,
    pool: u64,
) -> bool {
    &&& forall|k: int| 0 <= k < host.len() ==> #[trigger] host_accepted(nodes, host, k)
    &&& forall|k: int|
        0 <= k < inputs.len() ==> #[trigger] resident_accepted(
            nodes,
            host,
            inputs,
            session,
            pool,
            k,
        )
    &&& forall|p: int| 0 <= p < nodes.len() ==> !#[trigger] sourceless(nodes, host, inputs, p)
}

/// The first host tensor, device tensor or input that keeps the sources from fitting the graph.
pub open spec fn sources_refused(
    nodes: Seq<NodeDescriptor<'_>>,
    host: Seq<(ValueId, Tensor)>,
    inputs: Seq<(ValueId, &RocmTensorInput)>,
    session: RocmSession,
    pool: u64,
    error: RocmTensorExecutionError,
) -> bool {
    let hosts_fit = forall|k: int|
        0 <= k < host.len() ==> #[trigger] host_accepted(nodes, host, k);
    let residents_fit = forall|k: int|
        0 <= k < inputs.len() ==> #[trigger] resident_accepted(
            nodes,
            host,
            inputs,
            session,
            pool,
            k,
        );
    ||| exists|k: int, inner: TensorError|
        0 <= k < host.len() && #[trigger] host_refused(nodes, host, k, inner) && error
            == RocmTensorExecutionError::Graph(inner) && forall|j: int|
            0 <= j < k ==> #[trigger] host_accepted(nodes, host, j)
    ||| hosts_fit && exists|k: int|
        0 <= k < inputs.len() && #[trigger] resident_refused(
            nodes,
            host,
            inputs,
            session,
            pool,
            k,
            error,
        ) && forall|j: int|
            0 <= j < k ==> #[trigger] resident_accepted(nodes, host, inputs, session, pool, j)
    ||| hosts_fit && residents_fit && exists|p: int|
        {
            &&& 0 <= p < nodes.len()
            &&& #[trigger] sourceless(nodes, host, inputs, p)
            &&& error == RocmTensorExecutionError::Graph(
                TensorError::MissingInput(nodes[p].value),
            )
            &&& forall|q: int| 0 <= q < p ==> !#[trigger] sourceless(nodes, host, inputs, q)
        }
}

/// Checks one device tensor.
fn validate_resident_input(
    nodes: &[NodeDescriptor<'_>],
    host_inputs: &[(ValueId, Tensor)],
    resource_inputs: &[(ValueId, &RocmTensorInput)],
    session: &RocmSession,
    pool: u64,
    at: usize,
) -> (verdict: Result<(), RocmTensorExecutionError>)
    requires
        at < resource_inputs@.len(),
    ensures
        match verdict {
            Ok(()) => resident_accepted(
                nodes@,
                host_inputs@,
                resource_inputs@,
                *session,
                pool,
                at as int,
            ),
            Err(error) => resident_refused(
                nodes@,
                host_inputs@,
                resource_inputs@,
                *session,
                pool,
                at as int,
                error,
            ),
        },
{
    let id: ValueId = resource_inputs[at].0;
    let input: &RocmTensorInput = resource_inputs[at].1;
    assert(host_inputs@.take(host_inputs@.len() as int) =~= host_inputs@);
    if is_resident(resource_inputs, at, id) || is_supplied(host_inputs, host_inputs.len(), id) {
        return Err(RocmTensorExecutionError::Graph(TensorError::DuplicateInput(id)));
    }
    let position: usize = match input_node(nodes, id) {
        Some(position) => position,
        None => {
            return Err(RocmTensorExecutionError::Graph(TensorError::ExtraInput(id)));
        },
    };
    let shape: &[usize] = nodes[position].shape;
    if !same_shape(shape, input.shape.as_slice()) {
        return Err(
            RocmTensorExecutionError::Graph(
                TensorError::ShapeMismatch {
                    left: slice_to_vec(shape),
                    right: slice_to_vec(input.shape.as_slice()),
                },
            ),
        );
    }
    if let Err(error) = input.validate_session(session) {
        return Err(error);
    }
    if input.resource.pool != pool {
        return Err(RocmTensorExecutionError::InputPoolMismatch);
    }
    if !input.resource.access.readable() {
        return Err(RocmTensorExecutionError::InputResourceMismatch);
    }
    Ok(())
}

/// Checks the host and device tensors of an execution against the inputs of a graph.
///
/// # Errors
///
/// The first host tensor, then the first device tensor, then the first input that does not fit.
pub fn validate_graph_input_sources(
    nodes: &[NodeDescriptor<'_>],
    host_inputs: &[(ValueId, Tensor)],
    resource_inputs: &[(ValueId, &RocmTensorInput)],
    session: &RocmSession,
    pool: u64,
) -> (verdict: Result<(), RocmTensorExecutionError>)
    ensures
        match verdict {
            Ok(()) => sources_accepted(nodes@, host_inputs@, resource_inputs@, *session, pool),
            Err(error) => sources_refused(
                nodes@,
                host_inputs@,
                resource_inputs@,
                *session,
                pool,
                error,
            ),
        },
{
    if let Err(inner) = validate_graph_inputs_inner(nodes, host_inputs, false) {
        proof {
            let k = choose|k: int|
                0 <= k < host_inputs@.len() && #[trigger] host_refused(
                    nodes@,
                    host_inputs@,
                    k,
                    inner,
                ) && forall|j: int|
                    0 <= j < k ==> #[trigger] host_accepted(nodes@, host_inputs@, j);
            assert(host_refused(nodes@, host_inputs@, k, inner));
        }
        return Err(RocmTensorExecutionError::Graph(inner));
    }
    let mut at: usize = 0;
    while at < resource_inputs.len()
        invariant
            at <= resource_inputs@.len(),
            forall|k: int|
                0 <= k < host_inputs@.len() ==> #[trigger] host_accepted(nodes@, host_inputs@, k),
            forall|k: int|
                0 <= k < at ==> #[trigger] resident_accepted(
                    nodes@,
                    host_inputs@,
                    resource_inputs@,
                    *session,
                    pool,
                    k,
                ),
        decreases resource_inputs@.len() - at,
    {
        if let Err(error) = validate_resident_input(
            nodes,
            host_inputs,
            resource_inputs,
            session,
            pool,
            at,
        ) {
            assert(resident_refused(
                nodes@,
                host_inputs@,
                resource_inputs@,
                *session,
                pool,
                at as int,
                error,
            ));
            return Err(error);
        }
        at += 1;
    }
    let mut p: usize = 0;
    while p < nodes.len()
        invariant
            p <= nodes@.len(),
            forall|k: int|
                0 <= k < host_inputs@.len() ==> #[trigger] host_accepted(nodes@, host_inputs@, k),
            forall|k: int|
                0 <= k < resource_inputs@.len() ==> #[trigger] resident_accepted(
                    nodes@,
                    host_inputs@,
                    resource_inputs@,
                    *session,
                    pool,
                    k,
                ),
            forall|q: int|
                0 <= q < p ==> !#[trigger] sourceless(nodes@, host_inputs@, resource_inputs@, q),
        decreases nodes@.len() - p,
    {
        assert(host_inputs@.take(host_inputs@.len() as int) =~= host_inputs@);
        assert(resource_inputs@.take(resource_inputs@.len() as int) =~= resource_inputs@);
        if let OpDescriptor::Input = nodes[p].op {
            let value: ValueId = nodes[p].value;
            if !is_supplied(host_inputs, host_inputs.len(), value) && !is_resident(
                resource_inputs,
                resource_inputs.len(),
                value,
            ) {
                assert(sourceless(nodes@, host_inputs@, resource_inputs@, p as int));
                return Err(RocmTensorExecutionError::Graph(TensorError::MissingInput(value)));
            }
        }
        p += 1;
    }
    Ok(())
}

/// Where accepted sources exist, each graph input has exactly one: not both a host and a device
/// tensor, and not two of either.
pub proof fn law_sources_are_unambiguous(
    nodes: Seq<NodeDescriptor<'_>>,
    host: Seq<(ValueId, Tensor)>,
    inputs: Seq<(ValueId, &RocmTensorInput)>,
    session: RocmSession,
    pool: u64,
    i: int,
    j: int,
)
    requires
        sources_accepted(nodes, host, inputs, session, pool),
    ensures
        0 <= i < host.len() && 0 <= j < inputs.len() ==> host[i].0 != inputs[j].0,
        0 <= i < j < host.len() ==> host[i].0 != host[j].0,
        0 <= i < j < inputs.len() ==> inputs[i].0 != inputs[j].0,
{
    if 0 <= i < host.len() && 0 <= j < inputs.len() {
        assert(resident_accepted(nodes, host, inputs, session, pool, j));
        assert(host[i] == host[i]);
        if host[i].0 == inputs[j].0 {
            assert(supplied(host, inputs[j].0));
        }
    }
    if 0 <= i < j < host.len() {
        assert(host_accepted(nodes, host, j));
        assert(host.take(j)[i] == host[i]);
    }
    if 0 <= i < j < inputs.len() {
        assert(resident_accepted(nodes, host, inputs, session, pool, j));
        assert(inputs.take(j)[i] == inputs[i]);
    }
}

} // verus!
