//! What holds of any ordered schedule of steps: where each value stands, how often it is read,
//! how long it lives, and which values must not share storage.
use vstd::prelude::*;

use super::error::{TensorError, ValueId};
use super::storage::TensorStorageConstraint;

verus! {

/// What a schedule step is: the value it produces and the values it reads, in operand order.
#[verifier::ext_equal]
pub struct StepModel {
    pub value: ValueId,
    pub reads: Seq<ValueId>,
}

/// One step of a schedule.
#[derive(Debug)]
pub struct ScheduleStep {
    pub value: ValueId,
    pub reads: Vec<ValueId>,
}

impl View for ScheduleStep {
    type V = StepModel;

    open spec fn view(&self) -> StepModel {
        StepModel { value: self.value, reads: self.reads@ }
    }
}

/// The models of a sequence of steps.
pub open spec fn step_models(steps: Seq<ScheduleStep>) -> Seq<StepModel> {
    steps.map_values(|step: ScheduleStep| step@)
}

/// The entry of a position table for a value that is not scheduled.
pub const ABSENT: usize = usize::MAX;

/// How often `value` occurs in `values`.
pub open spec fn occurrences(values: Seq<ValueId>, value: ValueId) -> nat
    decreases values.len(),
{
    if values.len() == 0 {
        0
    } else {
        occurrences(values.drop_last(), value) + if values.last() == value {
            1nat
        } else {
            0nat
        }
    }
}

/// How many operands of `steps` are `value`.
pub open spec fn read_count(steps: Seq<StepModel>, value: ValueId) -> nat
    decreases steps.len(),
{
    if steps.len() == 0 {
        0
    } else {
        read_count(steps.drop_last(), value) + occurrences(steps.last().reads, value)
    }
}

/// How often `value` is used: once by each operand, and once by each request for it.
pub open spec fn use_count(steps: Seq<StepModel>, outputs: Seq<ValueId>, value: ValueId) -> nat {
    read_count(steps, value) + occurrences(outputs, value)
}

/// The last position that reads `value`, or `own` if none does.
pub open spec fn last_read(steps: Seq<StepModel>, value: ValueId, own: int) -> int
    decreases steps.len(),
{
    if steps.len() == 0 {
        own
    } else if steps.last().reads.contains(value) {
        steps.len() - 1
    } else {
        last_read(steps.drop_last(), value, own)
    }
}

/// The last position at which the value produced at `own` is live. A requested value lives to
/// the end of the schedule.
pub open spec fn last_live(steps: Seq<StepModel>, outputs: Seq<ValueId>, own: int) -> int {
    if outputs.contains(steps[own].value) {
        steps.len() - 1
    } else {
        last_read(steps, steps[own].value, own)
    }
}

/// `table` gives the position of every scheduled value and marks all others as absent.
pub open spec fn indexes(table: Seq<usize>, steps: Seq<StepModel>) -> bool {
    &&& forall|i: int|
        0 <= i < table.len() && #[trigger] table[i] != ABSENT ==> table[i] < steps.len()
            && steps[table[i] as int].value.index == i
    &&& forall|p: int|
        0 <= p < steps.len() ==> (#[trigger] steps[p]).value.index < table.len()
            && table[steps[p].value.index as int] == p
}

/// All values that a schedule produces, reads or hands out belong to one graph.
pub open spec fn of_one_graph(steps: Seq<StepModel>, outputs: Seq<ValueId>, graph_id: u64) -> bool {
    &&& forall|p: int| 0 <= p < steps.len() ==> (#[trigger] steps[p]).value.graph_id == graph_id
    &&& forall|p: int, k: int|
        0 <= p < steps.len() && 0 <= k < steps[p].reads.len() ==> (
        #[trigger] steps[p].reads[k]).graph_id == graph_id
    &&& forall|k: int| 0 <= k < outputs.len() ==> (#[trigger] outputs[k]).graph_id == graph_id
}

/// No step reads more than `width` operands.
pub open spec fn narrow(steps: Seq<StepModel>, width: nat) -> bool {
    forall|p: int| 0 <= p < steps.len() ==> (#[trigger] steps[p]).reads.len() <= width
}

/// Steps produce different values.
pub open spec fn distinct_steps(steps: Seq<StepModel>) -> bool {
    forall|p: int, q: int|
        0 <= p < q < steps.len() ==> (#[trigger] steps[p]).value.index != (
        #[trigger] steps[q]).value.index
}

pub proof fn lemma_occurrences_bound(values: Seq<ValueId>, value: ValueId)
    ensures
        occurrences(values, value) <= values.len(),
        occurrences(values, value) > 0 <==> values.contains(value),
    decreases values.len(),
{
    if values.len() > 0 {
        lemma_occurrences_bound(values.drop_last(), value);
        if values.contains(value) && values.last() != value {
            let at = choose|i: int| 0 <= i < values.len() && values[i] == value;
            assert(values.drop_last()[at] == value);
        }
        if values.drop_last().contains(value) {
            let at = choose|i: int|
                0 <= i < values.drop_last().len() && values.drop_last()[i] == value;
            assert(values[at] == value);
        }
        if values.last() == value {
            assert(values[values.len() - 1] == value);
        }
    }
}

pub proof fn lemma_read_count_bound(steps: Seq<StepModel>, width: nat, value: ValueId)
    requires
        narrow(steps, width),
    ensures
        read_count(steps, value) <= width * steps.len(),
    decreases steps.len(),
{
    if steps.len() > 0 {
        let rest = steps.drop_last();
        assert(narrow(rest, width)) by {
            assert forall|p: int| 0 <= p < rest.len() implies (#[trigger] rest[p]).reads.len()
                <= width by {
                assert(rest[p] == steps[p]);
            }
        }
        lemma_read_count_bound(rest, width, value);
        lemma_occurrences_bound(steps.last().reads, value);
        assert(width * (steps.len() - 1) + width == width * steps.len()) by (nonlinear_arith)
            requires
                steps.len() > 0,
        ;
        assert(steps.last() == steps[steps.len() - 1]);
    } else {
        assert(width * steps.len() == 0) by (nonlinear_arith)
            requires
                steps.len() == 0,
        ;
    }
}

/// Builds the position table of a schedule.
pub fn index_steps(steps: &[ScheduleStep], node_count: usize) -> (table: Vec<usize>)
    requires
        distinct_steps(step_models(steps@)),
        forall|p: int| 0 <= p < steps@.len() ==> (#[trigger] steps@[p]).value.index < node_count,
    ensures
        table@.len() == node_count,
        indexes(table@, step_models(steps@)),
{
    let ghost models = step_models(steps@);
    let mut table: Vec<usize> = Vec::with_capacity(node_count);
    while table.len() < node_count
        invariant
            table@.len() <= node_count,
            forall|i: int| 0 <= i < table@.len() ==> table@[i] == ABSENT,
        decreases node_count - table@.len(),
    {
        table.push(ABSENT);
    }
    let mut at: usize = 0;
    while at < steps.len()
        invariant
            at <= steps@.len(),
            table@.len() == node_count,
            models == step_models(steps@),
            distinct_steps(models),
            forall|p: int| 0 <= p < steps@.len() ==> (#[trigger] steps@[p]).value.index < node_count,
            forall|i: int|
                0 <= i < table@.len() && #[trigger] table@[i] != ABSENT ==> table@[i] < at
                    && models[table@[i] as int].value.index == i,
            forall|p: int|
                0 <= p < at ==> (#[trigger] models[p]).value.index < table@.len()
                    && table@[models[p].value.index as int] == p,
        decreases steps@.len() - at,
    {
        let index: usize = steps[at].value.index;
        proof {
            assert(models[at as int].value.index == index);
            assert forall|p: int| 0 <= p < at implies (#[trigger] models[p]).value.index
                != index by {
                assert(models[at as int].value.index == index);
            }
        }
        table.set(index, at);
        at += 1;
    }
    table
}

/// The position of a value in a position table, whatever graph the value belongs to.
pub fn position_in(table: &[usize], index: usize) -> (position: Option<usize>)
    ensures
        match position {
            Some(p) => index < table@.len() && table@[index as int] == p && p != ABSENT,
            None => index >= table@.len() || table@[index as int] == ABSENT,
        },
{
    if index < table.len() && table[index] != ABSENT {
        Some(table[index])
    } else {
        None
    }
}

/// What `read_count` grows by when the first `k` operands of step `at` have been counted.
spec fn counted(steps: Seq<StepModel>, at: int, k: int, value: ValueId) -> nat {
    read_count(steps.take(at), value) + occurrences(steps[at].reads.take(k), value)
}

proof fn lemma_counted_step(steps: Seq<StepModel>, at: int, k: int, value: ValueId)
    requires
        0 <= at < steps.len(),
        0 <= k < steps[at].reads.len(),
    ensures
        counted(steps, at, k + 1, value) == counted(steps, at, k, value) + if steps[at].reads[k]
            == value {
            1nat
        } else {
            0nat
        },
{
    let reads = steps[at].reads;
    assert(reads.take(k + 1).drop_last() =~= reads.take(k));
    assert(reads.take(k + 1).last() == reads[k]);
}

proof fn lemma_counted_turn(steps: Seq<StepModel>, at: int, value: ValueId)
    requires
        0 <= at < steps.len(),
    ensures
        counted(steps, at, steps[at].reads.len() as int, value) == read_count(
            steps.take(at + 1),
            value,
        ),
        counted(steps, at, 0, value) == read_count(steps.take(at), value),
{
    assert(steps.take(at + 1).drop_last() =~= steps.take(at));
    assert(steps.take(at + 1).last() == steps[at]);
    assert(steps[at].reads.take(steps[at].reads.len() as int) =~= steps[at].reads);
    assert(steps[at].reads.take(0).len() == 0);
}

proof fn lemma_counted_bound(steps: Seq<StepModel>, width: nat, at: int, k: int, value: ValueId)
    requires
        narrow(steps, width),
        0 <= at < steps.len(),
        0 <= k <= steps[at].reads.len(),
    ensures
        counted(steps, at, k, value) <= width * steps.len(),
        k < steps[at].reads.len() ==> counted(steps, at, k, value) < width * steps.len(),
{
    assert(narrow(steps.take(at), width)) by {
        assert forall|p: int| 0 <= p < at implies (#[trigger] steps.take(at)[p]).reads.len()
            <= width by {
            assert(steps.take(at)[p] == steps[p]);
        }
    }
    lemma_read_count_bound(steps.take(at), width, value);
    lemma_occurrences_bound(steps[at].reads.take(k), value);
    assert(width * at + width <= width * steps.len()) by (nonlinear_arith)
        requires
            at + 1 <= steps.len(),
    ;
}

/// Counts, for every step, how often its value is used. Values outside the schedule are passed
/// over.
pub fn count_uses(
    steps: &[ScheduleStep],
    outputs: &[ValueId],
    table: &[usize],
    Ghost(graph_id): Ghost<u64>,
    Ghost(width): Ghost<nat>,
) -> (counts: Vec<usize>)
    requires
        indexes(table@, step_models(steps@)),
        of_one_graph(step_models(steps@), outputs@, graph_id),
        narrow(step_models(steps@), width),
        width * steps@.len() + outputs@.len() <= usize::MAX,
    ensures
        counts@.len() == steps@.len(),
        forall|p: int|
            0 <= p < steps@.len() ==> #[trigger] counts@[p] == use_count(
                step_models(steps@),
                outputs@,
                steps@[p].value,
            ),
{
    let ghost models = step_models(steps@);
    let mut counts: Vec<usize> = Vec::with_capacity(steps.len());
    while counts.len() < steps.len()
        invariant
            counts@.len() <= steps@.len(),
            forall|i: int| 0 <= i < counts@.len() ==> counts@[i] == 0,
        decreases steps@.len() - counts@.len(),
    {
        counts.push(0);
    }
    let mut at: usize = 0;
    proof {
        assert forall|p: int| 0 <= p < models.len() implies #[trigger] counts@[p] == read_count(
            models.take(0),
            models[p].value,
        ) by {
            assert(models.take(0).len() == 0);
        }
    }
    while at < steps.len()
        invariant
            at <= steps@.len(),
            models == step_models(steps@),
            counts@.len() == steps@.len(),
            indexes(table@, models),
            of_one_graph(models, outputs@, graph_id),
            narrow(models, width),
            width * steps@.len() + outputs@.len() <= usize::MAX,
            forall|p: int|
                0 <= p < models.len() ==> #[trigger] counts@[p] == read_count(
                    models.take(at as int),
                    models[p].value,
                ),
        decreases steps@.len() - at,
    {
        let mut k: usize = 0;
        proof {
            assert forall|p: int| 0 <= p < models.len() implies #[trigger] counts@[p] == counted(
                models,
                at as int,
                0,
                models[p].value,
            ) by {
                lemma_counted_turn(models, at as int, models[p].value);
            }
        }
        while k < steps[at].reads.len()
            invariant
                at < steps@.len(),
                models == step_models(steps@),
                k <= models[at as int].reads.len(),
                counts@.len() == steps@.len(),
                indexes(table@, models),
                of_one_graph(models, outputs@, graph_id),
                narrow(models, width),
                width * steps@.len() + outputs@.len() <= usize::MAX,
                forall|p: int|
                    0 <= p < models.len() ==> #[trigger] counts@[p] == counted(
                        models,
                        at as int,
                        k as int,
                        models[p].value,
                    ),
            decreases models[at as int].reads.len() - k,
        {
            let operand: ValueId = steps[at].reads[k];
            let ghost before = counts@;
            proof {
                assert(models[at as int].reads[k as int] == operand);
                assert forall|p: int| 0 <= p < models.len() && models[p].value
                    == operand implies operand.index < table@.len() && table@[operand.index as int]
                    == p by {}
            }
            if let Some(position) = position_in(table, operand.index) {
                proof {
                    assert(models[position as int].value == operand);
                    lemma_counted_bound(
                        models,
                        width,
                        at as int,
                        k as int,
                        models[position as int].value,
                    );
                    assert(counts@[position as int] < usize::MAX);
                }
                let raised: usize = counts[position] + 1;
                counts.set(position, raised);
            }
            proof {
                assert forall|p: int| 0 <= p < models.len() implies #[trigger] counts@[p]
                    == counted(models, at as int, k + 1, models[p].value) by {
                    lemma_counted_step(models, at as int, k as int, models[p].value);
                    assert(before[p] == counted(models, at as int, k as int, models[p].value));
                }
            }
            k += 1;
        }
        proof {
            assert forall|p: int| 0 <= p < models.len() implies #[trigger] counts@[p] == read_count(
                models.take(at + 1),
                models[p].value,
            ) by {
                lemma_counted_turn(models, at as int, models[p].value);
            }
        }
        at += 1;
    }
    let mut pin: usize = 0;
    proof {
        assert(steps.len() == models.len());
        assert(models.take(at as int) =~= models);
        assert forall|p: int| 0 <= p < models.len() implies #[trigger] counts@[p] == use_count(
            models,
            outputs@.take(0),
            models[p].value,
        ) by {
            assert(outputs@.take(0).len() == 0);
        }
    }
    while pin < outputs.len()
        invariant
            pin <= outputs@.len(),
            steps@.len() <= usize::MAX,
            models == step_models(steps@),
            counts@.len() == steps@.len(),
            indexes(table@, models),
            of_one_graph(models, outputs@, graph_id),
            narrow(models, width),
            width * steps@.len() + outputs@.len() <= usize::MAX,
            forall|p: int|
                0 <= p < models.len() ==> #[trigger] counts@[p] == use_count(
                    models,
                    outputs@.take(pin as int),
                    models[p].value,
                ),
        decreases outputs@.len() - pin,
    {
        let output: ValueId = outputs[pin];
        let ghost before = counts@;
        proof {
            assert(outputs@.take(pin + 1).drop_last() =~= outputs@.take(pin as int));
            assert(outputs@.take(pin + 1).last() == output);
            assert forall|p: int| 0 <= p < models.len() && models[p].value
                == output implies output.index < table@.len() && table@[output.index as int]
                == p by {}
        }
        if let Some(position) = position_in(table, output.index) {
            proof {
                assert(outputs@[pin as int].graph_id == graph_id);
                assert(models[position as int].value == output);
                lemma_read_count_bound(models, width, output);
                lemma_occurrences_bound(outputs@.take(pin as int), output);
                assert(before[position as int] == use_count(
                    models,
                    outputs@.take(pin as int),
                    models[position as int].value,
                ));
            }
            let raised: usize = counts[position] + 1;
            counts.set(position, raised);
        }
        proof {
            assert forall|p: int| 0 <= p < models.len() implies #[trigger] counts@[p] == use_count(
                models,
                outputs@.take(pin + 1),
                models[p].value,
            ) by {
                assert(before[p] == use_count(models, outputs@.take(pin as int), models[p].value));
            }
        }
        pin += 1;
    }
    assert(outputs@.take(pin as int) =~= outputs@);
    counts
}

proof fn lemma_last_read_turn(steps: Seq<StepModel>, at: int, value: ValueId, own: int)
    requires
        0 <= at < steps.len(),
    ensures
        last_read(steps.take(at + 1), value, own) == if steps[at].reads.contains(value) {
            at
        } else {
            last_read(steps.take(at), value, own)
        },
{
    assert(steps.take(at + 1).drop_last() =~= steps.take(at));
    assert(steps.take(at + 1).last() == steps[at]);
}

/// Finds, for every step, the last position at which its value is live.
pub fn last_uses(
    steps: &[ScheduleStep],
    outputs: &[ValueId],
    table: &[usize],
    Ghost(graph_id): Ghost<u64>,
) -> (last: Vec<usize>)
    requires
        indexes(table@, step_models(steps@)),
        of_one_graph(step_models(steps@), outputs@, graph_id),
    ensures
        last@.len() == steps@.len(),
        forall|p: int|
            0 <= p < steps@.len() ==> #[trigger] last@[p] == last_live(
                step_models(steps@),
                outputs@,
                p,
            ),
{
    let ghost models = step_models(steps@);
    let mut last: Vec<usize> = Vec::with_capacity(steps.len());
    while last.len() < steps.len()
        invariant
            last@.len() <= steps@.len(),
            forall|i: int| 0 <= i < last@.len() ==> last@[i] == i,
        decreases steps@.len() - last@.len(),
    {
        let own: usize = last.len();
        last.push(own);
    }
    let mut at: usize = 0;
    proof {
        assert(models.take(0).len() == 0);
    }
    while at < steps.len()
        invariant
            at <= steps@.len(),
            models == step_models(steps@),
            last@.len() == steps@.len(),
            indexes(table@, models),
            of_one_graph(models, outputs@, graph_id),
            forall|p: int|
                0 <= p < models.len() ==> #[trigger] last@[p] == last_read(
                    models.take(at as int),
                    models[p].value,
                    p,
                ),
        decreases steps@.len() - at,
    {
        let mut k: usize = 0;
        while k < steps[at].reads.len()
            invariant
                at < steps@.len(),
                models == step_models(steps@),
                k <= models[at as int].reads.len(),
                last@.len() == steps@.len(),
                indexes(table@, models),
                of_one_graph(models, outputs@, graph_id),
                forall|p: int|
                    0 <= p < models.len() ==> #[trigger] last@[p] == if models[at as int].reads.take(
                        k as int,
                    ).contains(models[p].value) {
                        at as int
                    } else {
                        last_read(models.take(at as int), models[p].value, p)
                    },
            decreases models[at as int].reads.len() - k,
        {
            let operand: ValueId = steps[at].reads[k];
            let ghost before = last@;
            let ghost reads = models[at as int].reads;
            proof {
                assert(reads[k as int] == operand);
                assert forall|p: int| 0 <= p < models.len() && models[p].value
                    == operand implies operand.index < table@.len() && table@[operand.index as int]
                    == p by {}
            }
            if let Some(position) = position_in(table, operand.index) {
                proof {
                    assert(models[position as int].value == operand);
                }
                last.set(position, at);
            }
            proof {
                assert forall|p: int| 0 <= p < models.len() implies #[trigger] last@[p]
                    == if reads.take(k + 1).contains(models[p].value) {
                    at as int
                } else {
                    last_read(models.take(at as int), models[p].value, p)
                } by {
                    let value = models[p].value;
                    assert(before[p] == if reads.take(k as int).contains(value) {
                        at as int
                    } else {
                        last_read(models.take(at as int), value, p)
                    });
                    assert(reads.take(k + 1)[k as int] == operand);
                    if reads.take(k as int).contains(value) {
                        let i = reads.take(k as int).index_of(value);
                        assert(reads.take(k + 1)[i] == value);
                    }
                    if reads.take(k + 1).contains(value) && value != operand {
                        let i = reads.take(k + 1).index_of(value);
                        assert(reads.take(k as int)[i] == value);
                    }
                }
            }
            k += 1;
        }
        proof {
            let reads = models[at as int].reads;
            assert(reads.take(k as int) =~= reads);
            assert forall|p: int| 0 <= p < models.len() implies #[trigger] last@[p] == last_read(
                models.take(at + 1),
                models[p].value,
                p,
            ) by {
                lemma_last_read_turn(models, at as int, models[p].value, p);
            }
        }
        at += 1;
    }
    let mut pin: usize = 0;
    proof {
        assert(steps.len() == models.len());
        assert(models.take(at as int) =~= models);
    }
    while pin < outputs.len()
        invariant
            pin <= outputs@.len(),
            steps@.len() <= usize::MAX,
            models == step_models(steps@),
            last@.len() == steps@.len(),
            indexes(table@, models),
            of_one_graph(models, outputs@, graph_id),
            forall|p: int|
                0 <= p < models.len() ==> #[trigger] last@[p] == last_live(
                    models,
                    outputs@.take(pin as int),
                    p,
                ),
        decreases outputs@.len() - pin,
    {
        let output: ValueId = outputs[pin];
        let ghost before = last@;
        proof {
            assert(outputs@[pin as int] == output);
            assert forall|p: int| 0 <= p < models.len() && models[p].value
                == output implies output.index < table@.len() && table@[output.index as int]
                == p by {}
        }
        if let Some(position) = position_in(table, output.index) {
            proof {
                assert(models[position as int].value == output);
            }
            last.set(position, steps.len() - 1);
        }
        proof {
            assert forall|p: int| 0 <= p < models.len() implies #[trigger] last@[p] == last_live(
                models,
                outputs@.take(pin + 1),
                p,
            ) by {
                let value = models[p].value;
                assert(before[p] == last_live(models, outputs@.take(pin as int), p));
                assert(outputs@.take(pin + 1)[pin as int] == output);
                if outputs@.take(pin as int).contains(value) {
                    let i = outputs@.take(pin as int).index_of(value);
                    assert(outputs@.take(pin + 1)[i] == value);
                }
                if outputs@.take(pin + 1).contains(value) && value != output {
                    let i = outputs@.take(pin + 1).index_of(value);
                    assert(outputs@.take(pin as int)[i] == value);
                }
            }
        }
        pin += 1;
    }
    assert(outputs@.take(pin as int) =~= outputs@);
    last
}

/// What storage planning needs to know of one scheduled value.
#[derive(Clone, Copy, Debug)]
pub struct LiveValue {
    pub value: ValueId,
    /// The value's byte extent, if it is representable.
    pub bytes: Option<usize>,
    /// The last position at which the value is live; it is produced at its own position.
    pub last: usize,
    /// Inputs and constants are never written by a step.
    pub read_only: bool,
}

/// The values at `left` and `right` are live together and a step writes one of them.
pub open spec fn conflict(values: Seq<LiveValue>, left: int, right: int) -> bool {
    values[left].last >= right && !(values[left].read_only && values[right].read_only)
}

/// The constraint that keeps two values apart.
pub open spec fn apart(values: Seq<LiveValue>, left: int, right: int) -> TensorStorageConstraint {
    TensorStorageConstraint {
        left: values[left].value,
        right: values[right].value,
        left_bytes: values[left].bytes->Some_0 as u64,
        right_bytes: values[right].bytes->Some_0 as u64,
    }
}

/// The constraints between `left` and the positions after it, up to `end`.
pub open spec fn constraint_row(values: Seq<LiveValue>, left: int, end: int) -> Seq<
    TensorStorageConstraint,
>
    decreases end - left,
{
    if end <= left + 1 {
        Seq::empty()
    } else if conflict(values, left, end - 1) {
        constraint_row(values, left, end - 1).push(apart(values, left, end - 1))
    } else {
        constraint_row(values, left, end - 1)
    }
}

/// The constraints whose left value stands before `end`.
pub open spec fn constraint_table(values: Seq<LiveValue>, end: int) -> Seq<TensorStorageConstraint>
    decreases end,
{
    if end <= 0 {
        Seq::empty()
    } else {
        constraint_table(values, end - 1) + constraint_row(values, end - 1, values.len() as int)
    }
}

/// What storage planning answers: every pair of values that are live together and not both
/// read-only, in order of their positions, if the byte extent of every value is representable.
pub open spec fn constraints_answer(
    values: Seq<LiveValue>,
    answer: Result<Vec<TensorStorageConstraint>, TensorError>,
) -> bool {
    match answer {
        Ok(constraints) => {
            &&& constraints@ == constraint_table(values, values.len() as int)
            &&& forall|i: int| 0 <= i < values.len() ==> (#[trigger] values[i]).bytes is Some
        },
        Err(e) => {
            &&& e == TensorError::ShapeOverflow
            &&& exists|i: int| 0 <= i < values.len() && (#[trigger] values[i]).bytes is None
        },
    }
}

/// Lists the pairs of values that must occupy disjoint storage.
///
/// # Errors
///
/// `ShapeOverflow` if the byte extent of any value cannot be represented.
pub fn constrain(values: &[LiveValue]) -> (answer: Result<Vec<TensorStorageConstraint>, TensorError>)
    ensures
        constraints_answer(values@, answer),
{
    let ghost vals = values@;
    let mut constraints: Vec<TensorStorageConstraint> = Vec::new();
    let mut left: usize = 0;
    while left < values.len()
        invariant
            vals == values@,
            left <= values.len(),
            constraints@ == constraint_table(vals, left as int),
            forall|i: int| 0 <= i < left ==> (#[trigger] vals[i]).bytes is Some,
        decreases values.len() - left,
    {
        let a: LiveValue = values[left];
        let left_bytes: u64 = match a.bytes {
            Some(bytes) => bytes as u64,
            None => {
                assert(vals[left as int].bytes is None);
                return Err(TensorError::ShapeOverflow);
            },
        };
        let mut right: usize = left + 1;
        assert(constraints@ =~= constraint_table(vals, left as int) + constraint_row(
            vals,
            left as int,
            left + 1,
        ));
        while right < values.len()
            invariant
                vals == values@,
                left < values.len(),
                left < right <= values.len(),
                a == vals[left as int],
                a.bytes matches Some(bytes) && left_bytes == bytes as u64,
                constraints@ == constraint_table(vals, left as int) + constraint_row(
                    vals,
                    left as int,
                    right as int,
                ),
            decreases values.len() - right,
        {
            let b: LiveValue = values[right];
            if a.last < right || (a.read_only && b.read_only) {
                assert(!conflict(vals, left as int, right as int));
                right += 1;
                continue;
            }
            assert(conflict(vals, left as int, right as int));
            let right_bytes: u64 = match b.bytes {
                Some(bytes) => bytes as u64,
                None => {
                    assert(vals[right as int].bytes is None);
                    return Err(TensorError::ShapeOverflow);
                },
            };
            constraints.push(
                TensorStorageConstraint { left: a.value, right: b.value, left_bytes, right_bytes },
            );
            assert(constraints@ =~= constraint_table(vals, left as int) + constraint_row(
                vals,
                left as int,
                right + 1,
            ));
            right += 1;
        }
        left += 1;
    }
    Ok(constraints)
}

/// Exactly the conflicting pairs are constrained: each gives a constraint, and each constraint
/// comes from one.
pub proof fn law_constraints_are_the_conflicts(values: Seq<LiveValue>)
    ensures
        forall|i: int, j: int|
            0 <= i < j < values.len() && #[trigger] conflict(values, i, j) ==> constraint_table(
                values,
                values.len() as int,
            ).contains(apart(values, i, j)),
        forall|c: TensorStorageConstraint| #[trigger]
            constraint_table(values, values.len() as int).contains(c) ==> exists|i: int, j: int|
                0 <= i < j < values.len() && #[trigger] conflict(values, i, j) && c == apart(
                    values,
                    i,
                    j,
                ),
{
    let n = values.len() as int;
    assert forall|i: int, j: int|
        0 <= i < j < values.len() && #[trigger] conflict(values, i, j) implies constraint_table(
        values,
        n,
    ).contains(apart(values, i, j)) by {
        lemma_row_holds(values, i, n, j);
        lemma_table_holds(values, n, i, apart(values, i, j));
    }
    assert forall|c: TensorStorageConstraint| #[trigger]
        constraint_table(values, n).contains(c) implies exists|i: int, j: int|
        0 <= i < j < values.len() && #[trigger] conflict(values, i, j) && c == apart(
            values,
            i,
            j,
        ) by {
        lemma_table_sound(values, n, c);
    }
}

proof fn lemma_row_holds(values: Seq<LiveValue>, left: int, end: int, j: int)
    requires
        left < j < end,
        conflict(values, left, j),
    ensures
        constraint_row(values, left, end).contains(apart(values, left, j)),
    decreases end - left,
{
    let row = constraint_row(values, left, end);
    if j == end - 1 {
        assert(row.last() == apart(values, left, j));
    } else {
        lemma_row_holds(values, left, end - 1, j);
        let shorter = constraint_row(values, left, end - 1);
        let at = choose|k: int| 0 <= k < shorter.len() && shorter[k] == apart(values, left, j);
        assert(row[at] == apart(values, left, j));
    }
}

proof fn lemma_table_holds(values: Seq<LiveValue>, end: int, i: int, c: TensorStorageConstraint)
    requires
        0 <= i < end,
        constraint_row(values, i, values.len() as int).contains(c),
    ensures
        constraint_table(values, end).contains(c),
    decreases end,
{
    let shorter = constraint_table(values, end - 1);
    let row = constraint_row(values, end - 1, values.len() as int);
    let table = constraint_table(values, end);
    if i == end - 1 {
        let k = choose|k: int| 0 <= k < row.len() && row[k] == c;
        assert(table[shorter.len() + k] == c);
    } else {
        lemma_table_holds(values, end - 1, i, c);
        let k = choose|k: int| 0 <= k < shorter.len() && shorter[k] == c;
        assert(table[k] == c);
    }
}

proof fn lemma_row_sound(values: Seq<LiveValue>, left: int, end: int, c: TensorStorageConstraint)
    requires
        0 <= left,
        end <= values.len(),
        constraint_row(values, left, end).contains(c),
    ensures
        exists|i: int, j: int|
            0 <= i < j < values.len() && #[trigger] conflict(values, i, j) && c == apart(
                values,
                i,
                j,
            ),
    decreases end,
{
    if end > left + 1 {
        let row = constraint_row(values, left, end);
        let shorter = constraint_row(values, left, end - 1);
        let k = choose|k: int| 0 <= k < row.len() && row[k] == c;
        if conflict(values, left, end - 1) && k == shorter.len() {
            assert(c == apart(values, left, end - 1));
        } else {
            assert(shorter[k] == c);
            lemma_row_sound(values, left, end - 1, c);
        }
    }
}

proof fn lemma_table_sound(values: Seq<LiveValue>, end: int, c: TensorStorageConstraint)
    requires
        end <= values.len(),
        constraint_table(values, end).contains(c),
    ensures
        exists|i: int, j: int|
            0 <= i < j < values.len() && #[trigger] conflict(values, i, j) && c == apart(
                values,
                i,
                j,
            ),
    decreases end,
{
    if end > 0 {
        let shorter = constraint_table(values, end - 1);
        let row = constraint_row(values, end - 1, values.len() as int);
        let table = constraint_table(values, end);
        let k = choose|k: int| 0 <= k < table.len() && table[k] == c;
        if k < shorter.len() {
            assert(shorter[k] == c);
            lemma_table_sound(values, end - 1, c);
        } else {
            assert(row[k - shorter.len()] == c);
            lemma_row_sound(values, end - 1, values.len() as int, c);
        }
    }
}

} // verus!
