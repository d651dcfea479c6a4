//! Executions from their start to their end, whatever the device answers on the way.
use vstd::prelude::*;

use super::error::RocmTensorExecutionError;
use super::execute::{released, RocmNodeWork, RocmStorage};
use super::layout::{lemma_position_found, node_position};
use super::prepare::RocmPreparedTensorGraph;
use super::refusal_laws::law_executions_are_refused_for_one_reason;
use super::reuse::{RocmContext, RocmTensorScratch};
use super::run::{
    delivers, law_finished_runs_deliver_every_output, law_outputs_wait_for_their_turn,
    law_requested_results_go_to_the_bank, output_is_held, RocmRun,
};
use super::sources::{RocmResource, RocmTensorInput};
use super::validate::{execution_accepted, execution_refused, RocmBankFacts};
use crate::tensor::error::ValueId;
use crate::tensor::value::Tensor;

verus! {

/// A call that changes a run, and what it answered.
pub enum RocmCall<'p> {
    Next(Result<Option<RocmNodeWork<'p>>, RocmTensorExecutionError>),
    Complete(RocmNodeWork<'p>, usize),
    Deliver(RocmResource, Result<(), RocmTensorExecutionError>),
}

/// The call may be made, and takes the run from one state to the other.
pub open spec fn leads<'p, 'g>(
    before: RocmRun<'p, 'g>,
    call: RocmCall<'p>,
    after: RocmRun<'p, 'g>,
) -> bool {
    &&& before.wf()
    &&& match call {
        RocmCall::Next(answer) => RocmRun::next_answer(before, after, answer),
        RocmCall::Complete(work, handle) => before.due(work) && RocmRun::completes(
            before,
            after,
            work,
            handle,
        ),
        RocmCall::Deliver(resource, verdict) => {
            &&& before.is_computed()
            &&& before.taken() < before.prepared().outputs@.len()
            &&& RocmRun::deliver_answer(before, after, resource, verdict)
        },
    }
}

/// The states that a run goes through under some calls.
pub open spec fn unfolds<'p, 'g>(
    states: Seq<RocmRun<'p, 'g>>,
    calls: Seq<RocmCall<'p>>,
) -> bool {
    &&& states.len() == calls.len() + 1
    &&& states[0].wf()
    &&& forall|t: int|
        0 <= t < calls.len() ==> leads(states[t], #[trigger] calls[t], states[t + 1])
}

/// An execution: its start, and, if it started, the calls that were made on it. Without a run there
/// is nothing to call.
pub open spec fn execution<'p, 'g>(
    prepared: RocmPreparedTensorGraph<'g>,
    host: Seq<(ValueId, Tensor)>,
    inputs: Seq<(ValueId, &'p RocmTensorInput)>,
    context: RocmContext,
    scratch: Option<&'p RocmTensorScratch>,
    bank: Option<RocmBankFacts<'p>>,
    answer: Result<RocmRun<'p, 'g>, RocmTensorExecutionError>,
    states: Seq<RocmRun<'p, 'g>>,
    calls: Seq<RocmCall<'p>>,
) -> bool {
    &&& RocmRun::start_answer(prepared, host, inputs, context, scratch, bank, answer)
    &&& match answer {
        Ok(run) => unfolds(states, calls) && states[0] == run,
        Err(_) => states.len() == 0 && calls.len() == 0,
    }
}

/// The call at `s` records `handle` as the result of the node at `i`.
pub open spec fn computes(
    states: Seq<RocmRun<'_, '_>>,
    calls: Seq<RocmCall<'_>>,
    s: int,
    i: int,
    handle: usize,
) -> bool {
    &&& 0 <= s < calls.len()
    &&& states[s].position() == i
    &&& calls[s] matches RocmCall::Complete(work, result) && result == handle && states[s].due(work)
}

/// The call at `t` hands the requested output `k` out, which has `handle` then.
pub open spec fn hands_out(
    states: Seq<RocmRun<'_, '_>>,
    calls: Seq<RocmCall<'_>>,
    t: int,
    k: int,
    handle: usize,
) -> bool {
    let run = states[t];
    &&& 0 <= t < calls.len()
    &&& run.taken() == k
    &&& calls[t] matches RocmCall::Deliver(_, Ok(()))
    &&& node_position(run.prepared().nodes(), run.prepared().outputs@[k]) matches Some(i)
        && run.slots()[i] == Some(handle)
}

/// The requested output `k` was computed by its node at `s`, was kept from then on, and was handed
/// out at `t`: from the bank's own storage for it if there is a bank, and else as the tensor that
/// the run gives for it.
pub open spec fn serves(
    states: Seq<RocmRun<'_, '_>>,
    calls: Seq<RocmCall<'_>>,
    s: int,
    t: int,
    k: int,
) -> bool {
    let (first, last) = (states[0], states.last());
    let (prepared, value) = (first.prepared(), first.prepared().outputs@[k]);
    &&& 0 <= s < t
    &&& calls[s] matches RocmCall::Complete(work, handle) && {
        &&& node_position(prepared.nodes(), value) == Some(states[s].position())
        &&& states[s].due(work)
        &&& hands_out(states, calls, t, k, handle)
        &&& first.mode().bank ==> work.storage == RocmStorage::Bank(k as usize)
    }
    &&& calls[t] matches RocmCall::Deliver(resource, Ok(())) && (!first.mode().bank
        ==> last.outputs()[k].resource == resource)
}

/// The requested output `k` was computed, kept and handed out.
pub open spec fn served(
    states: Seq<RocmRun<'_, '_>>,
    calls: Seq<RocmCall<'_>>,
    k: int,
) -> bool {
    exists|s: int, t: int| #[trigger] serves(states, calls, s, t, k)
}

/// Releasing only takes resources away.
proof fn lemma_released_keeps(
    slots: Seq<Option<usize>>,
    counts: Seq<usize>,
    indices: Seq<usize>,
)
    requires
        slots.len() == counts.len(),
    ensures
        released(slots, counts, indices) matches Some(after) ==> {
            &&& after.0.len() == slots.len()
            &&& after.1.len() == counts.len()
            &&& forall|i: int|
                0 <= i < slots.len() ==> (#[trigger] after.0[i]) == slots[i] || after.0[i] is None
        },
    decreases indices.len(),
{
    if indices.len() > 0 {
        lemma_released_keeps(slots, counts, indices.drop_last());
    }
}

/// Every state of a run is one of the same run.
proof fn lemma_same_run(states: Seq<RocmRun<'_, '_>>, calls: Seq<RocmCall<'_>>, t: int)
    requires
        unfolds(states, calls),
        0 <= t < states.len(),
    ensures
        states[t].wf(),
        states[t].continues(states[0]),
    decreases t,
{
    if t > 0 {
        lemma_same_run(states, calls, t - 1);
        assert(leads(states[t - 1], calls[t - 1], states[t - 1 + 1]));
    }
}

/// A resource that a value has is the one that was recorded for it.
proof fn lemma_recorded(
    states: Seq<RocmRun<'_, '_>>,
    calls: Seq<RocmCall<'_>>,
    t: int,
    i: int,
    handle: usize,
) -> (s: int)
    requires
        unfolds(states, calls),
        forall|j: int|
            0 <= j < states[0].slots().len() ==> (#[trigger] states[0].slots()[j]) is None,
        0 <= t < states.len(),
        0 <= i < states[t].slots().len(),
        states[t].slots()[i] == Some(handle),
    ensures
        0 <= s < t,
        computes(states, calls, s, i, handle),
    decreases t,
{
    lemma_same_run(states, calls, t);
    law_outputs_wait_for_their_turn(states[t]);
    if t == 0 {
        assert(states[0].slots()[i] is None);
        0
    } else {
        let (before, after) = (states[t - 1], states[t]);
        lemma_same_run(states, calls, t - 1);
        law_outputs_wait_for_their_turn(before);
        assert(leads(before, calls[t - 1], states[t - 1 + 1]));
        match calls[t - 1] {
            RocmCall::Complete(work, result) => {
                let stored = before.slots().update(before.position(), Some(result));
                lemma_released_keeps(stored, before.uses_left(), work.releases@);
                assert(after.slots()[i] == stored[i]);
                if i == before.position() {
                    t - 1
                } else {
                    lemma_recorded(states, calls, t - 1, i, handle)
                }
            },
            _ => {
                if calls[t - 1] is Deliver {
                    assert(output_is_held(before.prepared(), before.slots(), before.taken()));
                }
                assert(before.slots()[i] == Some(handle));
                lemma_recorded(states, calls, t - 1, i, handle)
            },
        }
    }
}

/// An output that has been handed out was handed out by some call, and stays what it was.
proof fn lemma_handed_out(
    states: Seq<RocmRun<'_, '_>>,
    calls: Seq<RocmCall<'_>>,
    until: int,
    k: int,
) -> (t: int)
    requires
        unfolds(states, calls),
        states[0].taken() == 0,
        0 <= until < states.len(),
        0 <= k < states[until].taken(),
    ensures
        0 <= t < until,
        states[t].taken() == k,
        calls[t] matches RocmCall::Deliver(resource, Ok(())) && (!states[0].mode().bank
            ==> states[until].outputs()[k].resource == resource),
    decreases until,
{
    if until == 0 {
        0
    } else {
        let (before, after) = (states[until - 1], states[until]);
        lemma_same_run(states, calls, until - 1);
        lemma_same_run(states, calls, until);
        law_outputs_wait_for_their_turn(before);
        law_outputs_wait_for_their_turn(after);
        assert(leads(before, calls[until - 1], states[until - 1 + 1]));
        if k < before.taken() {
            let t = lemma_handed_out(states, calls, until - 1, k);
            if !states[0].mode().bank {
                if let RocmCall::Deliver(_, Ok(())) = calls[until - 1] {
                    assert(after.outputs().drop_last()[k] == after.outputs()[k]);
                }
                assert(after.outputs()[k] == before.outputs()[k]);
            }
            t
        } else {
            until - 1
        }
    }
}

/// A run that has handed all its outputs out computed, kept and handed out each of them.
proof fn lemma_served(states: Seq<RocmRun<'_, '_>>, calls: Seq<RocmCall<'_>>, k: int)
    requires
        unfolds(states, calls),
        states[0].taken() == 0,
        forall|j: int|
            0 <= j < states[0].slots().len() ==> (#[trigger] states[0].slots()[j]) is None,
        states.last().taken() == states[0].prepared().outputs@.len(),
        0 <= k < states[0].prepared().outputs@.len(),
    ensures
        served(states, calls, k),
{
    let prepared = states[0].prepared();
    let t = lemma_handed_out(states, calls, states.len() - 1, k);
    let run = states[t];
    lemma_same_run(states, calls, t);
    law_outputs_wait_for_their_turn(run);
    assert(leads(run, calls[t], states[t + 1]));
    assert(output_is_held(prepared, run.slots(), k));
    let i = node_position(prepared.nodes(), prepared.outputs@[k])->Some_0;
    let handle = run.slots()[i]->Some_0;
    let s = lemma_recorded(states, calls, t, i, handle);
    lemma_same_run(states, calls, s);
    lemma_position_found(prepared.nodes(), prepared.outputs@[k]);
    if let RocmCall::Complete(work, _) = calls[s] {
        if states[0].mode().bank {
            law_requested_results_go_to_the_bank(states[s], work, k);
        }
    }
    assert(hands_out(states, calls, t, k, handle));
    assert(serves(states, calls, s, t, k));
}

/// An execution that is refused is refused for the one reason that the checks give, and nothing is
/// asked of the device. One that starts was accepted, whatever is called on it later. Once it has
/// handed its outputs out, it gives one device tensor for each requested output, in that order, of
/// the output's shape and in the pool of the execution; with a bank it gives none, and each output
/// was written to the bank's own storage for it.
pub proof fn law_executions_from_start_to_end<'p, 'g>(
    prepared: RocmPreparedTensorGraph<'g>,
    host: Seq<(ValueId, Tensor)>,
    inputs: Seq<(ValueId, &'p RocmTensorInput)>,
    context: RocmContext,
    scratch: Option<&'p RocmTensorScratch>,
    bank: Option<RocmBankFacts<'p>>,
    answer: Result<RocmRun<'p, 'g>, RocmTensorExecutionError>,
    states: Seq<RocmRun<'p, 'g>>,
    calls: Seq<RocmCall<'p>>,
    error: RocmTensorExecutionError,
)
    requires
        bank matches Some(facts) ==> facts.storage@.len() == prepared.storage_constraints@.len(),
        execution(prepared, host, inputs, context, scratch, bank, answer, states, calls),
    ensures
        execution_accepted(prepared, host, inputs, context, scratch, bank) <==> answer is Ok,
        execution_refused(prepared, host, inputs, context, scratch, bank, error) ==> (
        answer matches Err(own) && own.reports_like(error)),
        answer is Err ==> calls.len() == 0,
        answer is Ok && states.last().taken() == prepared.outputs@.len() ==> {
            let outputs = states.last().outputs();
            &&& outputs.len() == if bank is Some {
                0
            } else {
                prepared.outputs@.len()
            }
            &&& forall|k: int|
                0 <= k < outputs.len() ==> delivers(prepared, context, k, #[trigger] outputs[k])
            &&& forall|k: int|
                0 <= k < prepared.outputs@.len() ==> #[trigger] served(states, calls, k)
        },
{
    if execution_refused(prepared, host, inputs, context, scratch, bank, error) {
        let own = match answer {
            Ok(_) => error,
            Err(own) => own,
        };
        law_executions_are_refused_for_one_reason(
            prepared,
            host,
            inputs,
            context,
            scratch,
            bank,
            own,
            error,
        );
    }
    match answer {
        Err(own) => {
            law_executions_are_refused_for_one_reason(
                prepared,
                host,
                inputs,
                context,
                scratch,
                bank,
                own,
                own,
            );
        },
        Ok(run) => {
            if states.last().taken() == prepared.outputs@.len() {
                lemma_same_run(states, calls, states.len() - 1);
                law_finished_runs_deliver_every_output(states.last());
                assert forall|k: int| 0 <= k < prepared.outputs@.len() implies #[trigger] served(
                    states,
                    calls,
                    k,
                ) by {
                    lemma_served(states, calls, k);
                }
            }
        },
    }
}

} // verus!
