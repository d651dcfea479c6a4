//! An execution is refused for one reason only, and never both refused and accepted.
use vstd::prelude::*;

use super::error::RocmTensorExecutionError;
use super::prepare::RocmPreparedTensorGraph;
use super::reuse::{RocmContext, RocmTensorScratch};
use super::sources::{
    host_accepted, host_refused, resident_accepted, resident_refused, sourceless,
    sources_accepted, sources_refused, RocmSession, RocmTensorInput,
};
use super::validate::{
    constraint_broken, constraint_kept, execution_accepted, execution_refused, storage_broken, storage_kept,
    RocmBankFacts,
};
use crate::tensor::descriptor::NodeDescriptor;
use crate::tensor::error::{TensorError, ValueId};
use crate::tensor::storage::PcuMemoryOverlap;
use crate::tensor::value::Tensor;

verus! {

/// What keeps sources from fitting a graph.
enum Fault {
    /// The first host tensor that is refused.
    Host(int),
    /// The first device tensor that is refused.
    Resident(int),
    /// The first input without a source.
    Missing(int),
}

/// The fault is the one that is reported as `error`.
spec fn reported(
    nodes: Seq<NodeDescriptor<'_>>,
    host: Seq<(ValueId, Tensor)>,
    inputs: Seq<(ValueId, &RocmTensorInput)>,
    session: RocmSession,
    pool: u64,
    error: RocmTensorExecutionError,
    fault: Fault,
) -> bool {
    let hosts_fit = forall|k: int|
        0 <= k < host.len() ==> #[trigger] host_accepted(nodes, host, k);
    let residents_fit = forall|k: int|
        0 <= k < inputs.len() ==> #[trigger] resident_accepted(
            nodes,
            host,
            inputs,
            session,
            pool,
            k,
        );
    match fault {
        Fault::Host(k) => {
            &&& 0 <= k < host.len()
            &&& error matches RocmTensorExecutionError::Graph(inner) && host_refused(
                nodes,
                host,
                k,
                inner,
            )
            &&& forall|j: int| 0 <= j < k ==> #[trigger] host_accepted(nodes, host, j)
        },
        Fault::Resident(k) => {
            &&& hosts_fit
            &&& 0 <= k < inputs.len()
            &&& resident_refused(nodes, host, inputs, session, pool, k, error)
            &&& forall|j: int|
                0 <= j < k ==> #[trigger] resident_accepted(nodes, host, inputs, session, pool, j)
        },
        Fault::Missing(p) => {
            &&& hosts_fit
            &&& residents_fit
            &&& 0 <= p < nodes.len()
            &&& sourceless(nodes, host, inputs, p)
            &&& error == RocmTensorExecutionError::Graph(TensorError::MissingInput(nodes[p].value))
            &&& forall|q: int| 0 <= q < p ==> !#[trigger] sourceless(nodes, host, inputs, q)
        },
    }
}

/// The fault behind an error.
proof fn lemma_fault(
    nodes: Seq<NodeDescriptor<'_>>,
    host: Seq<(ValueId, Tensor)>,
    inputs: Seq<(ValueId, &RocmTensorInput)>,
    session: RocmSession,
    pool: u64,
    error: RocmTensorExecutionError,
) -> (fault: Fault)
    requires
        sources_refused(nodes, host, inputs, session, pool, error),
    ensures
        reported(nodes, host, inputs, session, pool, error, fault),
{
    if exists|k: int, inner: TensorError|
        0 <= k < host.len() && #[trigger] host_refused(nodes, host, k, inner) && error
            == RocmTensorExecutionError::Graph(inner) && forall|j: int|
            0 <= j < k ==> #[trigger] host_accepted(nodes, host, j) {
        let (k, inner) = choose|k: int, inner: TensorError|
            0 <= k < host.len() && #[trigger] host_refused(nodes, host, k, inner) && error
                == RocmTensorExecutionError::Graph(inner) && forall|j: int|
                0 <= j < k ==> #[trigger] host_accepted(nodes, host, j);
        Fault::Host(k)
    } else if exists|k: int|
        0 <= k < inputs.len() && #[trigger] resident_refused(
            nodes,
            host,
            inputs,
            session,
            pool,
            k,
            error,
        ) && reported(nodes, host, inputs, session, pool, error, Fault::Resident(k)) {
        let k = choose|k: int|
            0 <= k < inputs.len() && #[trigger] resident_refused(
                nodes,
                host,
                inputs,
                session,
                pool,
                k,
                error,
            ) && reported(nodes, host, inputs, session, pool, error, Fault::Resident(k));
        Fault::Resident(k)
    } else {
        let p = choose|p: int|
            #[trigger] sourceless(nodes, host, inputs, p) && reported(
                nodes,
                host,
                inputs,
                session,
                pool,
                error,
                Fault::Missing(p),
            );
        Fault::Missing(p)
    }
}

/// Two faults of the same sources are the same one.
proof fn lemma_faults_agree(
    nodes: Seq<NodeDescriptor<'_>>,
    host: Seq<(ValueId, Tensor)>,
    inputs: Seq<(ValueId, &RocmTensorInput)>,
    session: RocmSession,
    pool: u64,
    first: RocmTensorExecutionError,
    second: RocmTensorExecutionError,
    left: Fault,
    right: Fault,
)
    requires
        reported(nodes, host, inputs, session, pool, first, left),
        reported(nodes, host, inputs, session, pool, second, right),
    ensures
        left == right,
        first.reports_like(second),
{
    if let Fault::Host(k) = left {
        assert(!host_accepted(nodes, host, k));
    }
    if let Fault::Host(k) = right {
        assert(!host_accepted(nodes, host, k));
    }
    if let Fault::Resident(k) = left {
        assert(!resident_accepted(nodes, host, inputs, session, pool, k));
    }
    if let Fault::Resident(k) = right {
        assert(!resident_accepted(nodes, host, inputs, session, pool, k));
    }
    if let (Fault::Missing(p), Fault::Missing(q)) = (left, right) {
        assert(sourceless(nodes, host, inputs, p) && sourceless(nodes, host, inputs, q));
    }
}

/// Sources that are refused are not accepted, and they are refused for one reason only.
pub proof fn law_sources_are_refused_for_one_reason(
    nodes: Seq<NodeDescriptor<'_>>,
    host: Seq<(ValueId, Tensor)>,
    inputs: Seq<(ValueId, &RocmTensorInput)>,
    session: RocmSession,
    pool: u64,
    first: RocmTensorExecutionError,
    second: RocmTensorExecutionError,
)
    requires
        sources_refused(nodes, host, inputs, session, pool, first),
    ensures
        !sources_accepted(nodes, host, inputs, session, pool),
        sources_refused(nodes, host, inputs, session, pool, second) ==> first.reports_like(second),
{
    let left = lemma_fault(nodes, host, inputs, session, pool, first);
    match left {
        Fault::Host(k) => {
            assert(!host_accepted(nodes, host, k));
        },
        Fault::Resident(k) => {
            assert(!resident_accepted(nodes, host, inputs, session, pool, k));
        },
        Fault::Missing(p) => {
            assert(sourceless(nodes, host, inputs, p));
        },
    }
    if sources_refused(nodes, host, inputs, session, pool, second) {
        let right = lemma_fault(nodes, host, inputs, session, pool, second);
        lemma_faults_agree(nodes, host, inputs, session, pool, first, second, left, right);
    }
}

/// Storage constraints that are broken are not all kept, and it is the first broken one that is
/// reported.
pub proof fn law_storage_is_refused_for_one_reason(
    prepared: RocmPreparedTensorGraph<'_>,
    inputs: Seq<(ValueId, &RocmTensorInput)>,
    scratch: RocmTensorScratch,
    overlaps: Seq<PcuMemoryOverlap>,
    first: RocmTensorExecutionError,
    second: RocmTensorExecutionError,
)
    requires
        overlaps.len() == prepared.storage_constraints@.len(),
        storage_broken(prepared, inputs, scratch, overlaps, first),
    ensures
        !storage_kept(prepared, inputs, scratch, overlaps, overlaps.len() as int),
        storage_broken(prepared, inputs, scratch, overlaps, second) ==> first == second,
{
    let constraints = prepared.storage_constraints@;
    let i = choose|i: int|
        0 <= i < constraints.len() && constraint_broken(
            prepared,
            inputs,
            scratch,
            #[trigger] constraints[i],
            overlaps[i],
            first,
        ) && storage_kept(prepared, inputs, scratch, overlaps, i);
    assert(!constraint_kept(prepared, inputs, scratch, constraints[i], overlaps[i]));
    if storage_broken(prepared, inputs, scratch, overlaps, second) {
        let j = choose|j: int|
            0 <= j < constraints.len() && constraint_broken(
                prepared,
                inputs,
                scratch,
                #[trigger] constraints[j],
                overlaps[j],
                second,
            ) && storage_kept(prepared, inputs, scratch, overlaps, j);
        assert(!constraint_kept(prepared, inputs, scratch, constraints[j], overlaps[j]));
        assert(i == j);
    }
}

/// An execution that is refused is not accepted, and it is refused for one reason only: two
/// refusals of the same execution report the same.
pub proof fn law_executions_are_refused_for_one_reason(
    prepared: RocmPreparedTensorGraph<'_>,
    host: Seq<(ValueId, Tensor)>,
    inputs: Seq<(ValueId, &RocmTensorInput)>,
    context: RocmContext,
    scratch: Option<&RocmTensorScratch>,
    bank: Option<RocmBankFacts<'_>>,
    first: RocmTensorExecutionError,
    second: RocmTensorExecutionError,
)
    requires
        bank matches Some(facts) ==> facts.storage@.len() == prepared.storage_constraints@.len(),
        execution_refused(prepared, host, inputs, context, scratch, bank, first),
    ensures
        !execution_accepted(prepared, host, inputs, context, scratch, bank),
        execution_refused(prepared, host, inputs, context, scratch, bank, second)
            ==> first.reports_like(second),
{
    let nodes = prepared.nodes();
    let (session, pool) = (context.session, context.pool);
    if sources_refused(nodes, host, inputs, session, pool, first) {
        law_sources_are_refused_for_one_reason(nodes, host, inputs, session, pool, first, second);
    }
    if sources_refused(nodes, host, inputs, session, pool, second) {
        law_sources_are_refused_for_one_reason(nodes, host, inputs, session, pool, second, first);
    }
    if let (Some(facts), Some(scratch)) = (bank, scratch) {
        let overlaps = facts.storage@;
        if storage_broken(prepared, inputs, *scratch, overlaps, first) {
            law_storage_is_refused_for_one_reason(
                prepared,
                inputs,
                *scratch,
                overlaps,
                first,
                second,
            );
        }
        if storage_broken(prepared, inputs, *scratch, overlaps, second) {
            law_storage_is_refused_for_one_reason(
                prepared,
                inputs,
                *scratch,
                overlaps,
                second,
                first,
            );
        }
    }
}

} // verus!
