//! Feedback bindings and the bank rotation of repeated execution.
use vstd::prelude::*;
use vstd::slice::slice_to_vec;

use super::error::{contains_value, TensorError, ValueId};
use super::plan::TensorExecutionPlan;
use super::value::same_shape;

verus! {

/// One loop-carried value, mapping a selected output into a selected graph input.
#[derive(Clone, Copy, Debug, PartialEq, Eq, Structural)]
pub struct TensorFeedbackBinding {
    pub output: ValueId,
    pub input: ValueId,
}

/// Source to use for a graph input at a particular iteration.
#[derive(Clone, Copy, Debug, PartialEq, Eq, Structural)]
pub enum TensorFeedbackInput {
    /// This input is supplied by the caller at the beginning of every iteration.
    Initial { input: ValueId },
    /// This input reads the prior iteration's output from the indicated bank.
    PreviousOutput { input: ValueId, output: ValueId, bank: usize },
}

/// Validated feedback relationships attached to one selected execution plan.
///
/// Bank zero is used for iteration zero's output; each subsequent iteration advances around the
/// configured ring of banks.
#[derive(Debug)]
pub struct TensorFeedbackPlan<'p, 'g> {
    pub plan: &'p TensorExecutionPlan<'g>,
    pub bindings: Vec<TensorFeedbackBinding>,
    pub binding_by_input: Vec<Option<usize>>,
    pub bank_count: usize,
}

/// The pairs as bindings.
pub open spec fn bindings_of(pairs: Seq<(ValueId, ValueId)>) -> Seq<TensorFeedbackBinding> {
    pairs.map_values(
        |pair: (ValueId, ValueId)| TensorFeedbackBinding { output: pair.0, input: pair.1 },
    )
}

/// Some pair carries this output.
pub open spec fn carries_output(pairs: Seq<(ValueId, ValueId)>, output: ValueId) -> bool {
    exists|j: int| 0 <= j < pairs.len() && (#[trigger] pairs[j]).0 == output
}

/// Some pair carries into this input.
pub open spec fn carries_input(pairs: Seq<(ValueId, ValueId)>, input: ValueId) -> bool {
    exists|j: int| 0 <= j < pairs.len() && (#[trigger] pairs[j]).1 == input
}

/// The pair at `k` is refused with this error.
pub open spec fn pair_refused(
    plan: TensorExecutionPlan<'_>,
    pairs: Seq<(ValueId, ValueId)>,
    k: int,
    error: TensorError,
) -> bool {
    let (output, input) = pairs[k];
    if !plan.output_values@.contains(output) {
        error == TensorError::UnknownValue(output)
    } else if !plan.input_values@.contains(input) {
        error == TensorError::UnknownValue(input)
    } else if carries_output(pairs.take(k), output) {
        error == TensorError::DuplicateOutput(output)
    } else if carries_input(pairs.take(k), input) {
        error == TensorError::DuplicateInput(input)
    } else {
        &&& plan.graph.shape_of(output) != plan.graph.shape_of(input)
        &&& error.reports_mismatch(plan.graph.shape_of(output), plan.graph.shape_of(input))
    }
}

/// The pair at `k` carries a selected output into a selected input of the same shape, and no
/// earlier pair carries either.
pub open spec fn pair_accepted(
    plan: TensorExecutionPlan<'_>,
    pairs: Seq<(ValueId, ValueId)>,
    k: int,
) -> bool {
    let (output, input) = pairs[k];
    &&& plan.output_values@.contains(output)
    &&& plan.input_values@.contains(input)
    &&& !carries_output(pairs.take(k), output)
    &&& !carries_input(pairs.take(k), input)
    &&& plan.graph.shape_of(output) == plan.graph.shape_of(input)
}

/// What constructing a feedback plan answers.
pub open spec fn feedback_answer(
    plan: TensorExecutionPlan<'_>,
    pairs: Seq<(ValueId, ValueId)>,
    bank_count: usize,
    answer: Result<TensorFeedbackPlan<'_, '_>, TensorError>,
) -> bool {
    match answer {
        Ok(feedback) => {
            &&& bank_count >= 2
            &&& forall|k: int| 0 <= k < pairs.len() ==> #[trigger] pair_accepted(plan, pairs, k)
            &&& *feedback.plan == plan
            &&& feedback.bindings@ == bindings_of(pairs)
            &&& feedback.bank_count == bank_count
            &&& feedback.wf()
        },
        Err(error) => {
            ||| bank_count < 2 && error == TensorError::FeedbackRequiresMultipleBanks(bank_count)
            ||| bank_count >= 2 && exists|k: int|
                {
                    &&& 0 <= k < pairs.len()
                    &&& #[trigger] pair_refused(plan, pairs, k, error)
                    &&& forall|j: int|
                        0 <= j < k ==> #[trigger] pair_accepted(plan, pairs, j)
                }
        },
    }
}

/// The binding that carries into `input`.
pub open spec fn binding_for(bindings: Seq<TensorFeedbackBinding>, input: ValueId) -> Option<
    TensorFeedbackBinding,
>
    decreases bindings.len(),
{
    if bindings.len() == 0 {
        None
    } else if bindings.last().input == input {
        Some(bindings.last())
    } else {
        binding_for(bindings.drop_last(), input)
    }
}

proof fn lemma_binding_found(bindings: Seq<TensorFeedbackBinding>, at: int)
    requires
        0 <= at < bindings.len(),
        forall|i: int, j: int|
            0 <= i < j < bindings.len() ==> bindings[i].input != bindings[j].input,
    ensures
        binding_for(bindings, bindings[at].input) == Some(bindings[at]),
    decreases bindings.len(),
{
    if at < bindings.len() - 1 {
        assert(bindings[at].input != bindings[bindings.len() - 1].input);
        lemma_binding_found(bindings.drop_last(), at);
    }
}

proof fn lemma_binding_absent(bindings: Seq<TensorFeedbackBinding>, input: ValueId)
    requires
        forall|i: int| 0 <= i < bindings.len() ==> (#[trigger] bindings[i]).input != input,
    ensures
        binding_for(bindings, input) is None,
    decreases bindings.len(),
{
    if bindings.len() > 0 {
        let rest = bindings.drop_last();
        assert forall|i: int| 0 <= i < rest.len() implies (#[trigger] rest[i]).input != input by {
            assert(rest[i] == bindings[i]);
        }
        assert(bindings.last() == bindings[bindings.len() - 1]);
        lemma_binding_absent(rest, input);
    }
}

impl<'p, 'g> TensorFeedbackPlan<'p, 'g> {
    /// At least two banks, each input and output carried at most once, and the table by plan
    /// position finds the binding of every carried input.
    pub open spec fn wf(&self) -> bool {
        &&& self.plan.wf()
        &&& self.bank_count >= 2
        &&& self.binding_by_input@.len() == self.plan.node_order@.len()
        &&& forall|i: int, j: int|
            0 <= i < j < self.bindings@.len() ==> self.bindings@[i].input != self.bindings@[j].input
                && self.bindings@[i].output != self.bindings@[j].output
        &&& forall|b: int|
            0 <= b < self.bindings@.len() ==> self.plan.input_values@.contains(
                (#[trigger] self.bindings@[b]).input,
            ) && self.plan.output_values@.contains(self.bindings@[b].output)
        &&& forall|p: int|
            0 <= p < self.binding_by_input@.len() ==> match #[trigger] self.binding_by_input@[p] {
                Some(b) => b < self.bindings@.len() && self.bindings@[b as int].input
                    == self.plan.node_order@[p],
                None => forall|c: int|
                    0 <= c < self.bindings@.len() ==> (#[trigger] self.bindings@[c]).input
                        != self.plan.node_order@[p],
            }
    }

    /// Where the input comes from at a step.
    pub open spec fn source(&self, input: ValueId, step: usize) -> Option<TensorFeedbackInput> {
        if !self.plan.input_values@.contains(input) {
            None
        } else {
            match binding_for(self.bindings@, input) {
                Some(binding) if step > 0 => Some(
                    TensorFeedbackInput::PreviousOutput {
                        input,
                        output: binding.output,
                        bank: ((step - 1) % self.bank_count as int) as usize,
                    },
                ),
                _ => Some(TensorFeedbackInput::Initial { input }),
            }
        }
    }

    /// Validates and constructs a feedback plan with two banks for output-to-input pairs.
    ///
    /// # Errors
    ///
    /// The first refused pair: `UnknownValue` when it does not name a selected output and input,
    /// `DuplicateOutput` or `DuplicateInput` when a value is repeated, `ShapeMismatch` when the
    /// shapes differ.
    pub fn new(plan: &'p TensorExecutionPlan<'g>, pairs: &[(ValueId, ValueId)]) -> (answer: Result<
        TensorFeedbackPlan<'p, 'g>,
        TensorError,
    >)
        requires
            plan.wf(),
        ensures
            feedback_answer(*plan, pairs@, 2, answer),
    {
        Self::new_with_bank_count(plan, pairs, 2)
    }

    /// Validates feedback bindings and configures a ring of banks. At least two are required so
    /// an iteration never overwrites the prior step's value while reading it.
    ///
    /// # Errors
    ///
    /// `FeedbackRequiresMultipleBanks` for fewer than two banks, or the first refused pair.
    pub fn new_with_banks(
        plan: &'p TensorExecutionPlan<'g>,
        pairs: &[(ValueId, ValueId)],
        bank_count: usize,
    ) -> (answer: Result<TensorFeedbackPlan<'p, 'g>, TensorError>)
        requires
            plan.wf(),
        ensures
            feedback_answer(*plan, pairs@, bank_count, answer),
    {
        Self::new_with_bank_count(plan, pairs, bank_count)
    }

    fn new_with_bank_count(
        plan: &'p TensorExecutionPlan<'g>,
        pairs: &[(ValueId, ValueId)],
        bank_count: usize,
    ) -> (answer: Result<TensorFeedbackPlan<'p, 'g>, TensorError>)
        requires
            plan.wf(),
        ensures
            feedback_answer(*plan, pairs@, bank_count, answer),
    {
        if bank_count < 2 {
            return Err(TensorError::FeedbackRequiresMultipleBanks(bank_count));
        }
        let mut bindings: Vec<TensorFeedbackBinding> = Vec::with_capacity(pairs.len());
        let mut binding_by_input: Vec<Option<usize>> = Vec::with_capacity(plan.node_order.len());
        while binding_by_input.len() < plan.node_order.len()
            invariant
                binding_by_input@.len() <= plan.node_order@.len(),
                forall|p: int| 0 <= p < binding_by_input@.len() ==> binding_by_input@[p] is None,
            decreases plan.node_order@.len() - binding_by_input@.len(),
        {
            binding_by_input.push(None);
        }
        let mut k: usize = 0;
        assert(bindings@ =~= bindings_of(pairs@.take(0)));
        while k < pairs.len()
            invariant
                plan.wf(),
                bank_count >= 2,
                k <= pairs@.len(),
                bindings@ == bindings_of(pairs@.take(k as int)),
                binding_by_input@.len() == plan.node_order@.len(),
                forall|j: int| 0 <= j < k ==> #[trigger] pair_accepted(*plan, pairs@, j),
                forall|p: int|
                    0 <= p < binding_by_input@.len() ==> match #[trigger] binding_by_input@[p] {
                        Some(b) => b < bindings@.len() && bindings@[b as int].input
                            == plan.node_order@[p],
                        None => forall|c: int|
                            0 <= c < bindings@.len() ==> (#[trigger] bindings@[c]).input
                                != plan.node_order@[p],
                    },
            decreases pairs@.len() - k,
        {
            let (output, input): (ValueId, ValueId) = pairs[k];
            let known_output: bool = contains_value(plan.output_values(), output);
            if !known_output || !contains_value(plan.input_values(), input) {
                let unknown: ValueId = if known_output {
                    input
                } else {
                    output
                };
                assert(pair_refused(*plan, pairs@, k as int, TensorError::UnknownValue(unknown)));
                return Err(TensorError::UnknownValue(unknown));
            }
            let ghost done = pairs@.take(k as int);
            if binds_output(bindings.as_slice(), output) {
                proof {
                    let b = choose|b: int|
                        0 <= b < bindings@.len() && (#[trigger] bindings@[b]).output == output;
                    assert(done[b].0 == output);
                    assert(pair_refused(
                        *plan,
                        pairs@,
                        k as int,
                        TensorError::DuplicateOutput(output),
                    ));
                }
                return Err(TensorError::DuplicateOutput(output));
            }
            proof {
                assert forall|j: int| 0 <= j < done.len() implies (#[trigger] done[j]).0
                    != output by {
                    assert(bindings@[j].output == done[j].0);
                }
            }
            if binds_input(bindings.as_slice(), input) {
                proof {
                    let b = choose|b: int|
                        0 <= b < bindings@.len() && (#[trigger] bindings@[b]).input == input;
                    assert(done[b].1 == input);
                    assert(pair_refused(*plan, pairs@, k as int, TensorError::DuplicateInput(input)));
                }
                return Err(TensorError::DuplicateInput(input));
            }
            proof {
                assert forall|j: int| 0 <= j < done.len() implies (#[trigger] done[j]).1
                    != input by {
                    assert(bindings@[j].input == done[j].1);
                }
                lemma_planned_values(*plan, output, input);
            }
            let output_shape: &[usize] = plan.graph.nodes[output.index].shape.as_slice();
            let input_shape: &[usize] = plan.graph.nodes[input.index].shape.as_slice();
            if !same_shape(output_shape, input_shape) {
                let error = TensorError::ShapeMismatch {
                    left: slice_to_vec(output_shape),
                    right: slice_to_vec(input_shape),
                };
                assert(pair_refused(*plan, pairs@, k as int, error));
                return Err(error);
            }
            assert(pair_accepted(*plan, pairs@, k as int));
            let position: usize = match plan.index_of(input) {
                Some(position) => position,
                None => {
                    return Err(TensorError::UnknownValue(input));
                },
            };
            let ghost before = binding_by_input@;
            let ghost fewer = bindings@;
            binding_by_input.set(position, Some(bindings.len()));
            bindings.push(TensorFeedbackBinding { output, input });
            proof {
                assert(bindings@ =~= bindings_of(pairs@.take(k + 1)));
                assert forall|p: int| 0 <= p < binding_by_input@.len() implies match
                    #[trigger] binding_by_input@[p] {
                    Some(b) => b < bindings@.len() && bindings@[b as int].input
                        == plan.node_order@[p],
                    None => forall|c: int|
                        0 <= c < bindings@.len() ==> (#[trigger] bindings@[c]).input
                            != plan.node_order@[p],
                } by {
                    if p != position {
                        assert(binding_by_input@[p] == before[p]);
                        if before[p] is None {
                            assert forall|b: int| 0 <= b < bindings@.len() implies (
                            #[trigger] bindings@[b]).input != plan.node_order@[p] by {
                                if b < fewer.len() {
                                    assert(fewer[b].input != plan.node_order@[p]);
                                } else {
                                    lemma_order_distinct(*plan, p, position as int);
                                }
                            }
                        }
                    }
                }
            }
            k += 1;
        }
        let feedback = TensorFeedbackPlan { plan, bindings, binding_by_input, bank_count };
        proof {
            assert(pairs@.take(k as int) =~= pairs@);
            let all = feedback.bindings@;
            assert forall|i: int, j: int| 0 <= i < j < all.len() implies all[i].input
                != all[j].input && all[i].output != all[j].output by {
                assert(pair_accepted(*plan, pairs@, j));
                assert(pairs@.take(j)[i] == pairs@[i]);
            }
            assert forall|b: int| 0 <= b < all.len() implies plan.input_values@.contains(
                (#[trigger] all[b]).input,
            ) && plan.output_values@.contains(all[b].output) by {
                assert(pair_accepted(*plan, pairs@, b));
            }
        }
        Ok(feedback)
    }

    /// The exact selected execution plan this feedback schedule was validated against.
    pub fn execution_plan(&self) -> (plan: &'p TensorExecutionPlan<'g>)
        ensures
            plan == self.plan,
    {
        self.plan
    }

    /// Stable feedback pairs in caller-provided order.
    pub fn bindings(&self) -> (bindings: &[TensorFeedbackBinding])
        ensures
            bindings@ == self.bindings@,
    {
        self.bindings.as_slice()
    }

    /// Number of banks in this schedule's rotation ring.
    pub fn bank_count(&self) -> (count: usize)
        ensures
            count == self.bank_count,
    {
        self.bank_count
    }

    /// The bank that receives outputs produced at `step`.
    pub fn output_bank(&self, step: usize) -> (bank: usize)
        requires
            self.bank_count >= 2,
        ensures
            bank == step as int % self.bank_count as int,
    {
        step % self.bank_count
    }

    /// The bank containing feedback consumed at `step`, if `step > 0`.
    pub fn previous_output_bank(&self, step: usize) -> (bank: Option<usize>)
        requires
            self.bank_count >= 2,
        ensures
            bank == if step == 0 {
                None
            } else {
                Some(((step - 1) % self.bank_count as int) as usize)
            },
    {
        if step == 0 {
            None
        } else {
            Some((step - 1) % self.bank_count)
        }
    }

    /// Resolves the source for a selected graph input at `step`.
    ///
    /// Unmapped inputs remain caller supplied on every step. Mapped inputs read the matching
    /// output from the previous step.
    pub fn input_source(&self, input: ValueId, step: usize) -> (source: Option<TensorFeedbackInput>)
        requires
            self.wf(),
        ensures
            source == self.source(input, step),
    {
        if !contains_value(self.plan.input_values(), input) {
            return None;
        }
        proof {
            lemma_planned_input(*self.plan, input);
        }
        let position: usize = match self.plan.index_of(input) {
            Some(position) => position,
            None => {
                return None;
            },
        };
        match self.binding_by_input[position] {
            Some(at) => {
                proof {
                    assert(self.binding_by_input@[position as int] == Some(at));
                    lemma_binding_found(self.bindings@, at as int);
                }
                if step > 0 {
                    Some(
                        TensorFeedbackInput::PreviousOutput {
                            input,
                            output: self.bindings[at].output,
                            bank: (step - 1) % self.bank_count,
                        },
                    )
                } else {
                    Some(TensorFeedbackInput::Initial { input })
                }
            },
            None => {
                proof {
                    assert(self.binding_by_input@[position as int] is None);
                    lemma_binding_absent(self.bindings@, input);
                }
                Some(TensorFeedbackInput::Initial { input })
            },
        }
    }

    /// The sources of all inputs at one step, in the plan's input order.
    pub fn inputs_at(&self, step: usize) -> (sources: Vec<TensorFeedbackInput>)
        requires
            self.wf(),
        ensures
            sources@.len() == self.plan.input_values@.len(),
            forall|i: int|
                0 <= i < sources@.len() ==> Some(#[trigger] sources@[i]) == self.source(
                    self.plan.input_values@[i],
                    step,
                ),
    {
        let mut sources: Vec<TensorFeedbackInput> = Vec::with_capacity(self.plan.input_values.len());
        let mut at: usize = 0;
        while at < self.plan.input_values.len()
            invariant
                self.wf(),
                at <= self.plan.input_values@.len(),
                sources@.len() == at,
                forall|i: int|
                    0 <= i < sources@.len() ==> Some(#[trigger] sources@[i]) == self.source(
                        self.plan.input_values@[i],
                        step,
                    ),
            decreases self.plan.input_values@.len() - at,
        {
            let input: ValueId = self.plan.input_values[at];
            assert(self.plan.input_values@.contains(input));
            if let Some(source) = self.input_source(input, step) {
                sources.push(source);
            }
            at += 1;
        }
        sources
    }
}

fn binds_output(bindings: &[TensorFeedbackBinding], output: ValueId) -> (found: bool)
    ensures
        found == exists|b: int|
            0 <= b < bindings@.len() && (#[trigger] bindings@[b]).output == output,
{
    let mut at: usize = 0;
    while at < bindings.len()
        invariant
            at <= bindings@.len(),
            forall|b: int| 0 <= b < at ==> (#[trigger] bindings@[b]).output != output,
        decreases bindings@.len() - at,
    {
        if bindings[at].output == output {
            assert(bindings@[at as int].output == output);
            return true;
        }
        at += 1;
    }
    false
}

fn binds_input(bindings: &[TensorFeedbackBinding], input: ValueId) -> (found: bool)
    ensures
        found == exists|b: int|
            0 <= b < bindings@.len() && (#[trigger] bindings@[b]).input == input,
{
    let mut at: usize = 0;
    while at < bindings.len()
        invariant
            at <= bindings@.len(),
            forall|b: int| 0 <= b < at ==> (#[trigger] bindings@[b]).input != input,
        decreases bindings@.len() - at,
    {
        if bindings[at].input == input {
            assert(bindings@[at as int].input == input);
            return true;
        }
        at += 1;
    }
    false
}

/// A planned input is in the plan's dependency closure.
proof fn lemma_planned_input(plan: TensorExecutionPlan<'_>, input: ValueId)
    requires
        plan.wf(),
        plan.input_values@.contains(input),
    ensures
        plan.graph.knows(input),
        plan.includes(input),
        plan.node_order@.contains(input),
{
    let graph = *plan.graph;
    plan.node_order@.lemma_filter_contains_rev(
        |value: ValueId| graph.is_input(value),
        input,
    );
    let p = plan.node_order@.index_of(input);
    assert(plan.node_order@[p] == input);
    assert(graph.knows(plan.node_order@[p]));
    assert(graph.nodes.len() == graph.nodes@.len());
    assert(plan.steps()[p].value == graph.value_at(input.index as int));
    assert(plan.node_order.len() == plan.node_order@.len());
    assert(plan.index_by_value@[input.index as int] == p);
}

proof fn lemma_planned_values(plan: TensorExecutionPlan<'_>, output: ValueId, input: ValueId)
    requires
        plan.wf(),
        plan.output_values@.contains(output),
        plan.input_values@.contains(input),
    ensures
        plan.graph.knows(output),
        plan.graph.knows(input),
        plan.includes(input),
{
    lemma_planned_input(plan, input);
    let k = plan.output_values@.index_of(output);
    assert(plan.graph.output_fault(plan.output_values@, k) is None);
}

proof fn lemma_order_distinct(plan: TensorExecutionPlan<'_>, p: int, q: int)
    requires
        plan.wf(),
        0 <= p < plan.node_order@.len(),
        0 <= q < plan.node_order@.len(),
        p != q,
    ensures
        plan.node_order@[p] != plan.node_order@[q],
{
    if p < q {
        assert(plan.node_order@[p].index < plan.node_order@[q].index);
    } else {
        assert(plan.node_order@[q].index < plan.node_order@[p].index);
    }
}

impl<'g> TensorExecutionPlan<'g> {
    /// Adds output-to-input iteration feedback to this selected plan.
    ///
    /// # Errors
    ///
    /// The first refused pair.
    pub fn feedback_plan<'p>(&'p self, pairs: &[(ValueId, ValueId)]) -> (answer: Result<
        TensorFeedbackPlan<'p, 'g>,
        TensorError,
    >)
        requires
            self.wf(),
        ensures
            feedback_answer(*self, pairs@, 2, answer),
    {
        TensorFeedbackPlan::new(self, pairs)
    }

    /// Adds output-to-input iteration feedback with an explicit ring size.
    ///
    /// # Errors
    ///
    /// `FeedbackRequiresMultipleBanks` for fewer than two banks, or the first refused pair.
    pub fn feedback_plan_with_banks<'p>(
        &'p self,
        pairs: &[(ValueId, ValueId)],
        bank_count: usize,
    ) -> (answer: Result<TensorFeedbackPlan<'p, 'g>, TensorError>)
        requires
            self.wf(),
        ensures
            feedback_answer(*self, pairs@, bank_count, answer),
    {
        TensorFeedbackPlan::new_with_banks(self, pairs, bank_count)
    }
}

/// What a step reads is what the step before wrote, and no step writes the bank that it reads.
pub proof fn law_banks_rotate(bank_count: int, step: int)
    requires
        bank_count >= 2,
        step >= 0,
    ensures
        ((step + 1) - 1) % bank_count == step % bank_count,
        (step + 1) % bank_count != ((step + 1) - 1) % bank_count,
        (step + bank_count) % bank_count == step % bank_count,
{
    vstd::arithmetic::div_mod::lemma_mod_add_multiples_vanish(step, bank_count);
    let r = step % bank_count;
    vstd::arithmetic::div_mod::lemma_fundamental_div_mod(step, bank_count);
    vstd::arithmetic::div_mod::lemma_mod_bound(step, bank_count);
    assert(bank_count * (step / bank_count) == (step / bank_count) * bank_count)
        by (nonlinear_arith);
    if r + 1 < bank_count {
        vstd::arithmetic::div_mod::lemma_fundamental_div_mod_converse(
            step + 1,
            bank_count,
            step / bank_count,
            r + 1,
        );
    } else {
        assert((step / bank_count) * bank_count + bank_count == (step / bank_count + 1)
            * bank_count) by (nonlinear_arith);
        vstd::arithmetic::div_mod::lemma_fundamental_div_mod_converse(
            step + 1,
            bank_count,
            step / bank_count + 1,
            0,
        );
    }
}

/// A carried input is caller supplied at the first step and reads its own output's bank of the
/// step before at every later one; any other selected input is always caller supplied.
pub proof fn law_sources_are_unambiguous(
    feedback: TensorFeedbackPlan<'_, '_>,
    input: ValueId,
    step: usize,
)
    requires
        feedback.wf(),
        feedback.plan.input_values@.contains(input),
    ensures
        feedback.source(input, 0) == Some(TensorFeedbackInput::Initial { input }),
        forall|b: int|
            0 <= b < feedback.bindings@.len() && (#[trigger] feedback.bindings@[b]).input == input
                && step > 0 ==> feedback.source(input, step) == Some(
                TensorFeedbackInput::PreviousOutput {
                    input,
                    output: feedback.bindings@[b].output,
                    bank: ((step - 1) % feedback.bank_count as int) as usize,
                },
            ),
        (forall|b: int|
            0 <= b < feedback.bindings@.len() ==> (#[trigger] feedback.bindings@[b]).input != input)
            ==> feedback.source(input, step) == Some(TensorFeedbackInput::Initial { input }),
{
    assert forall|b: int|
        0 <= b < feedback.bindings@.len() && (#[trigger] feedback.bindings@[b]).input == input
            && step > 0 implies feedback.source(input, step) == Some(
        TensorFeedbackInput::PreviousOutput {
            input,
            output: feedback.bindings@[b].output,
            bank: ((step - 1) % feedback.bank_count as int) as usize,
        },
    ) by {
        lemma_binding_found(feedback.bindings@, b);
    }
    if forall|b: int|
        0 <= b < feedback.bindings@.len() ==> (#[trigger] feedback.bindings@[b]).input != input {
        lemma_binding_absent(feedback.bindings@, input);
    }
}

/// A feedback plan carries exactly the pairs that it was made of. The second of a pair is supplied
/// by the caller at the first step, and at every later step reads what the first of the pair was at
/// the step before: the bank that step wrote, which is not the one that is written meanwhile. Every
/// other input is supplied by the caller at every step.
pub proof fn law_plans_carry_their_pairs(
    plan: TensorExecutionPlan<'_>,
    pairs: Seq<(ValueId, ValueId)>,
    bank_count: usize,
    feedback: TensorFeedbackPlan<'_, '_>,
    k: int,
    input: ValueId,
    step: usize,
)
    requires
        feedback_answer(plan, pairs, bank_count, Ok(feedback)),
        0 <= k < pairs.len(),
        plan.input_values@.contains(input),
        0 < step,
    ensures
        feedback.source(pairs[k].1, 0) == Some(TensorFeedbackInput::Initial { input: pairs[k].1 }),
        feedback.source(pairs[k].1, step) matches Some(
            TensorFeedbackInput::PreviousOutput { input: read, output, bank },
        ) && {
            &&& read == pairs[k].1
            &&& output == pairs[k].0
            &&& bank == (step - 1) % (bank_count as int)
            &&& bank != step % bank_count
        },
        (forall|j: int| 0 <= j < pairs.len() ==> (#[trigger] pairs[j]).1 != input)
            ==> feedback.source(input, 0) == Some(TensorFeedbackInput::Initial { input })
            && feedback.source(input, step) == Some(TensorFeedbackInput::Initial { input }),
{
    assert(pair_accepted(plan, pairs, k));
    assert(feedback.bindings@[k] == bindings_of(pairs)[k]);
    law_sources_are_unambiguous(feedback, pairs[k].1, step);
    law_banks_rotate(bank_count as int, step - 1);
    if forall|j: int| 0 <= j < pairs.len() ==> (#[trigger] pairs[j]).1 != input {
        assert forall|b: int| 0 <= b < feedback.bindings@.len() implies (
        #[trigger] feedback.bindings@[b]).input != input by {
            assert(feedback.bindings@[b] == bindings_of(pairs)[b]);
            assert(pairs[b].1 != input);
        }
        law_sources_are_unambiguous(feedback, input, step);
    }
}

} // verus!
