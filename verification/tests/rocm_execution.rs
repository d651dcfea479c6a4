//! Running a prepared graph: sources, reusable storage, node work, release and feedback.
use pcu_dialects::rocm::assess::RocmTensorAssessor;
use pcu_dialects::rocm::error::RocmTensorExecutionError;
use pcu_dialects::rocm::execute::{
    conclude_dispatch, flush_hip_batch, RocmDispatchOutcome, RocmMode, RocmStorage, RocmWork,
};
use pcu_dialects::rocm::feedback::{
    feedback_banks, feedback_inputs, keep_reservation, rollback_prepare, validate_feedback_run,
    RocmTensorFeedbackPrepareError, RocmTensorFeedbackResources,
};
use pcu_dialects::rocm::matmul::PcuMemoryAccess;
use pcu_dialects::rocm::prepare::RocmPreparedTensorGraph;
use pcu_dialects::rocm::progress::{validate_output_resource, RocmExecution};
use pcu_dialects::rocm::requests::TensorDispatchRequest;
use pcu_dialects::rocm::reuse::{
    RocmContext, RocmScratchBuilder, RocmStorageContents, RocmTensorOutputBank, RocmTensorScratch,
};
use pcu_dialects::rocm::questions::{bank_members, storage_beside_bank, storage_questions};
use pcu_dialects::rocm::run::RocmRun;
use pcu_dialects::rocm::sources::{
    validate_graph_input_sources, RocmResource, RocmSession, RocmTensorInput,
};
use pcu_dialects::rocm::validate::{
    find_holder, validate_bank_pairing, validate_execution_sources, validate_output_bank,
    validate_prepared_storage_constraints, validate_scratch_pairing, RocmBankFacts, RocmHolder,
};
use pcu_dialects::tensor::descriptor::TensorUnsupportedReason;
use pcu_dialects::tensor::error::{TensorError, ValueId};
use pcu_dialects::tensor::graph::Graph;
use pcu_dialects::tensor::groups::TensorPointwiseGroupingPolicy;
use pcu_dialects::tensor::rewrite::TensorArithmeticRewritePolicy;
use pcu_dialects::tensor::storage::{PcuMemoryOverlap, TensorStorageValidationError};
use pcu_dialects::tensor::value::Tensor;

const SESSION: RocmSession = RocmSession { id: 5, runtime: 9 };

const CONTEXT: RocmContext = RocmContext {
    session: SESSION,
    plan: 21,
    pool: 2,
    library_usable: true,
};

fn tensor(shape: Vec<usize>, data: Vec<f32>) -> Tensor {
    Tensor::new(shape, data.into_iter().map(f32::to_bits).collect()).unwrap()
}

fn resource(handle: usize, bytes: usize) -> RocmResource {
    RocmResource {
        handle,
        runtime: SESSION.runtime,
        pool: CONTEXT.pool,
        access: PcuMemoryAccess::ReadWrite,
        bytes,
    }
}

fn resident(handle: usize, shape: Vec<usize>) -> RocmTensorInput {
    let bytes = shape.iter().product::<usize>() * 4;
    RocmTensorInput {
        session: SESSION.id,
        shape,
        resource: resource(handle, bytes),
    }
}

fn prepare<'graph>(
    graph: &'graph Graph,
    outputs: &[ValueId],
    grouping: TensorPointwiseGroupingPolicy,
) -> RocmPreparedTensorGraph<'graph> {
    RocmTensorAssessor {
        library_usable: true,
    }
    .prepare_graph_outputs_with_policies(
        graph,
        outputs,
        TensorArithmeticRewritePolicy::Disabled,
        grouping,
    )
    .unwrap()
}

/// Runs a plan with a new handle for each node. Hands out how each node was named, and checks
/// that every value is there when it is read.
fn run(
    prepared: &RocmPreparedTensorGraph<'_>,
    host: &[(ValueId, Tensor)],
    mode: RocmMode,
) -> (RocmExecution, Vec<&'static str>) {
    let mut execution = RocmExecution::begin(prepared);
    let mut labels = Vec::new();
    while let Some(taken) = execution.next(prepared, host, &[], mode).unwrap() {
        let handles = execution
            .operand_handles(prepared, &taken.operands)
            .unwrap();
        for (handle, operand) in handles.iter().zip(&taken.operands) {
            assert_eq!(*handle, 100 + operand);
        }
        labels.push(taken.label);
        let handle = 100 + execution.at;
        execution
            .complete(prepared, &taken.releases, handle)
            .unwrap();
    }
    (execution, labels)
}

#[test]
fn an_execution_runs_every_node_and_keeps_only_requested_values() {
    let mut graph = Graph::new(1);
    let left = graph.input(vec![2, 2]).unwrap();
    let right = graph.input(vec![2, 2]).unwrap();
    let product = graph.matmul(left, right).unwrap();
    let sum = graph.add(product, product).unwrap();
    let output = graph.relu(sum).unwrap();
    let prepared = prepare(
        &graph,
        &[output, product],
        TensorPointwiseGroupingPolicy::Disabled,
    );
    let host = [
        (left, tensor(vec![2, 2], vec![1.0; 4])),
        (right, tensor(vec![2, 2], vec![2.0; 4])),
    ];
    let fresh = RocmMode {
        bank: false,
        scratch: false,
    };
    let (mut execution, labels) = run(&prepared, &host, fresh);
    assert_eq!(labels, ["Input", "Input", "MatMul", "Add", "Relu"]);
    assert_eq!(
        execution.resources.as_slice(),
        &[None, None, Some(102), None, Some(104)]
    );
    assert_eq!(execution.remaining.as_slice(), &[0, 0, 1, 0, 1]);
    assert_eq!(execution.take_output(&prepared, output).unwrap(), 104);
    assert_eq!(execution.take_output(&prepared, product).unwrap(), 102);
    assert!(matches!(
        execution.take_output(&prepared, product),
        Err(RocmTensorExecutionError::MissingResource(value)) if value == product
    ));
    let foreign = Graph::new(2).input(vec![1]).unwrap();
    assert!(matches!(
        execution.take_output(&prepared, foreign),
        Err(RocmTensorExecutionError::InvalidPlan(value)) if value == foreign
    ));
}

#[test]
fn a_grouped_execution_passes_over_what_the_group_computes() {
    let mut graph = Graph::new(1);
    let input = graph.input(vec![4]).unwrap();
    let bias = graph.uniform(vec![4], 0.5_f32.to_bits()).unwrap();
    let sum = graph.add(input, bias).unwrap();
    let difference = graph.sub(sum, input).unwrap();
    let output = graph.relu(difference).unwrap();
    let prepared = prepare(
        &graph,
        &[output],
        TensorPointwiseGroupingPolicy::BoundedAddSubRelu,
    );
    let host = [(input, tensor(vec![4], vec![1.0; 4]))];
    let mode = RocmMode {
        bank: true,
        scratch: true,
    };
    let (execution, labels) = run(&prepared, &host, mode);
    assert_eq!(labels.len(), 3);
    assert_eq!(
        execution.resources.as_slice(),
        &[None, None, None, None, Some(104)]
    );
}

#[test]
fn node_work_says_where_results_go_and_what_runs_first() {
    let mut graph = Graph::new(1);
    let input = graph.input(vec![2, 2]).unwrap();
    let weights = graph.constant(tensor(vec![2, 2], vec![1.0; 4]));
    let target = graph.uniform(vec![2, 2], 3.0_f32.to_bits()).unwrap();
    let product = graph.matmul(input, weights).unwrap();
    let loss = graph.mean_squared_error(product, target).unwrap();
    let gate = graph.relu_backward(product, input).unwrap();
    let updated = graph.sgd_update(input, gate, 0.5_f32.to_bits()).unwrap();
    let prepared = prepare(
        &graph,
        &[loss, updated],
        TensorPointwiseGroupingPolicy::Disabled,
    );
    let host = [(input, tensor(vec![2, 2], vec![1.0; 4]))];
    let device = resident(7, vec![2, 2]);
    let reused = RocmMode {
        bank: true,
        scratch: true,
    };
    let fresh = RocmMode {
        bank: false,
        scratch: false,
    };
    let at = |position: usize, mode: RocmMode| {
        prepared
            .plan_node(&host, &[], mode, position)
            .unwrap()
            .unwrap()
    };
    assert!(matches!(
        at(0, fresh).work,
        RocmWork::UploadInput { source: 0 }
    ));
    let shared = prepared
        .plan_node(&[], &[(input, &device)], fresh, 0)
        .unwrap()
        .unwrap();
    assert!(matches!(shared.work, RocmWork::ShareInput { source: 0 }));
    assert!(matches!(
        prepared.plan_node(&[], &[], fresh, 0),
        Err(RocmTensorExecutionError::Graph(TensorError::MissingInput(value))) if value == input
    ));
    assert!(matches!(at(1, fresh).work, RocmWork::Constant));
    assert!(matches!(at(1, reused).work, RocmWork::Lease));
    assert!(matches!(
        at(2, fresh).work,
        RocmWork::Filled(filled) if filled == tensor(vec![2, 2], vec![3.0; 4])
    ));
    let multiplied = at(3, reused);
    assert!(multiplied.flush);
    assert_eq!(multiplied.storage, RocmStorage::Scratch);
    assert_eq!(multiplied.operands, [0, 1]);
    assert!(matches!(
        multiplied.work,
        RocmWork::MatMul {
            left_shape: [2, 2],
            right_shape: [2, 2],
            transpose_left: false,
            transpose_right: false,
        }
    ));
    let reduced = at(4, reused);
    assert_eq!(reduced.storage, RocmStorage::Bank(0));
    assert!(matches!(
        reduced.work,
        RocmWork::MeanSquaredError {
            squares: TensorDispatchRequest::Fixed {
                logical_count: 4,
                ..
            },
            count: 4
        }
    ));
    assert!(matches!(
        at(5, fresh).work,
        RocmWork::ReluBackward { count: 4 }
    ));
    let update = at(6, reused);
    assert_eq!(update.storage, RocmStorage::Bank(1));
    assert_eq!(update.releases, [0, 5]);
    assert_eq!(update.label, "SgdUpdate");
    assert!(matches!(
        update.work,
        RocmWork::SgdUpdate {
            count: 4,
            contracted: false,
            learning_rate
        } if learning_rate == 0.5_f32.to_bits()
    ));
}

#[test]
fn batches_and_dispatches_report_how_they_ended() {
    assert!(flush_hip_batch(0, Err(4)).is_ok());
    assert!(flush_hip_batch(2, Ok(())).is_ok());
    assert!(matches!(
        flush_hip_batch(2, Err(4)),
        Err(RocmTensorExecutionError::Completion(4))
    ));
    assert!(conclude_dispatch(RocmDispatchOutcome::Succeeded).is_ok());
    assert!(matches!(
        conclude_dispatch(RocmDispatchOutcome::Failed),
        Err(RocmTensorExecutionError::FailedCompletion)
    ));
    assert!(matches!(
        conclude_dispatch(RocmDispatchOutcome::Fault(6)),
        Err(RocmTensorExecutionError::ExecutionFault(6))
    ));
}

#[test]
fn sources_are_refused_for_wrong_sessions_pools_shapes_and_values() {
    let mut graph = Graph::new(1);
    let left = graph.input(vec![2]).unwrap();
    let right = graph.input(vec![2]).unwrap();
    let output = graph.add(left, right).unwrap();
    let prepared = prepare(&graph, &[output], TensorPointwiseGroupingPolicy::Disabled);
    let nodes = prepared.lowering_plan.nodes();
    let host = [(left, tensor(vec![2], vec![1.0; 2]))];
    let check = |host: &[(ValueId, Tensor)], device: &[(ValueId, &RocmTensorInput)]| {
        validate_graph_input_sources(nodes, host, device, &SESSION, CONTEXT.pool)
    };
    let good = resident(1, vec![2]);
    assert!(check(&host, &[(right, &good)]).is_ok());
    assert!(matches!(
        check(&host, &[]),
        Err(RocmTensorExecutionError::Graph(TensorError::MissingInput(value))) if value == right
    ));
    assert!(matches!(
        check(&host, &[(left, &good), (right, &good)]),
        Err(RocmTensorExecutionError::Graph(TensorError::DuplicateInput(value)))
            if value == left
    ));
    assert!(matches!(
        check(&host, &[(output, &good)]),
        Err(RocmTensorExecutionError::Graph(TensorError::ExtraInput(value))) if value == output
    ));
    let wide = resident(1, vec![3]);
    assert!(matches!(
        check(&host, &[(right, &wide)]),
        Err(RocmTensorExecutionError::Graph(
            TensorError::ShapeMismatch { .. }
        ))
    ));
    let foreign = RocmTensorInput {
        session: 6,
        ..resident(1, vec![2])
    };
    assert!(matches!(
        check(&host, &[(right, &foreign)]),
        Err(RocmTensorExecutionError::InputResourceMismatch)
    ));
    let mut elsewhere = resident(1, vec![2]);
    elsewhere.resource.pool = 3;
    assert!(matches!(
        check(&host, &[(right, &elsewhere)]),
        Err(RocmTensorExecutionError::InputPoolMismatch)
    ));
}

#[test]
fn device_tensors_accept_transfers_on_their_own_session() {
    let host = tensor(vec![2], vec![1.0; 2]);
    let input = RocmTensorInput::uploaded(&SESSION, &host, resource(4, 8)).unwrap();
    assert_eq!(input.shape, [2]);
    assert_eq!(input.resource_ref().handle, 4);
    assert!(input.validate_session(&SESSION).is_ok());
    assert!(input.accepts_update(&SESSION, &host).is_ok());
    assert!(matches!(
        input.accepts_update(&SESSION, &tensor(vec![1], vec![1.0])),
        Err(RocmTensorExecutionError::Graph(TensorError::ShapeMismatch { left, right }))
            if left == [2] && right == [1]
    ));
    assert!(input.accepts_download(&SESSION, 2).is_ok());
    assert!(matches!(
        input.accepts_download(&SESSION, 1),
        Err(RocmTensorExecutionError::InputPoolMismatch)
    ));
    let other = RocmSession { id: 5, runtime: 8 };
    assert!(matches!(
        input.validate_session(&other),
        Err(RocmTensorExecutionError::InputResourceMismatch)
    ));
    assert!(RocmTensorInput::uploaded(&other, &host, resource(4, 8)).is_err());
}

/// A graph whose plan keeps a constant and an intermediate value.
fn pipeline() -> (Graph, ValueId, ValueId, ValueId) {
    let mut graph = Graph::new(1);
    let input = graph.input(vec![2]).unwrap();
    let constant = graph.constant(tensor(vec![2], vec![1.0; 2]));
    let sum = graph.add(input, constant).unwrap();
    let output = graph.relu(sum).unwrap();
    (graph, input, sum, output)
}

fn build_scratch(prepared: &RocmPreparedTensorGraph<'_>) -> RocmTensorScratch {
    let mut builder = RocmScratchBuilder::begin(prepared).unwrap();
    let mut rooms = Vec::new();
    while let Some(contents) = builder.next(prepared, &CONTEXT) {
        rooms.push(match contents {
            RocmStorageContents::Room(bytes) => bytes,
            RocmStorageContents::Constant => 0,
            RocmStorageContents::Filled(_) => 1,
        });
        let mut elsewhere = resource(40, 8);
        elsewhere.pool = 77;
        assert!(matches!(
            builder.supply(prepared, &CONTEXT, elsewhere),
            Err(RocmTensorExecutionError::ScratchMismatch)
        ));
        let handle = 50 + builder.resources.len();
        builder
            .supply(prepared, &CONTEXT, resource(handle, 8))
            .unwrap();
    }
    assert_eq!(rooms, [0, 8]);
    assert_eq!(builder.mse_count, 0);
    builder.finish(&CONTEXT, None)
}

#[test]
fn scratch_and_banks_serve_their_plan_until_an_execution_fails() {
    let (graph, input, sum, output) = pipeline();
    let prepared = prepare(&graph, &[output], TensorPointwiseGroupingPolicy::Disabled);
    let mut scratch = build_scratch(&prepared);
    assert_eq!(scratch.lease(&prepared, 1).unwrap().handle, 51);
    assert!(matches!(
        scratch.lease(&prepared, 0),
        Err(RocmTensorExecutionError::MissingResource(_))
    ));
    assert!(scratch.is_usable(&CONTEXT));
    assert!(!scratch.is_usable(&RocmContext { plan: 3, ..CONTEXT }));

    assert!(matches!(
        RocmTensorOutputBank::build(&prepared, &CONTEXT, &[resource(60, 4)], true),
        Err(RocmTensorExecutionError::OutputResourceMismatch)
    ));
    assert!(RocmTensorOutputBank::build(&prepared, &CONTEXT, &[resource(60, 8)], false).is_err());
    let mut bank =
        RocmTensorOutputBank::build(&prepared, &CONTEXT, &[resource(60, 8)], true).unwrap();
    assert_eq!(
        bank.output(&prepared.outputs, output)
            .map(|held| held.resource.handle),
        Some(60)
    );
    assert!(bank.output(&prepared.outputs, input).is_none());
    assert!(validate_output_bank(&bank, &prepared, &CONTEXT, &[false], true).is_ok());
    assert!(validate_output_bank(&bank, &prepared, &CONTEXT, &[true], true).is_err());
    assert!(validate_bank_pairing(&bank, &scratch, 5, 21).is_ok());
    assert!(validate_bank_pairing(&bank, &scratch, 5, 22).is_err());
    assert!(validate_scratch_pairing(&scratch, 5, 21).is_ok());
    assert!(matches!(
        validate_scratch_pairing(&scratch, 4, 21),
        Err(RocmTensorExecutionError::ScratchMismatch)
    ));

    let device = resident(70, vec![2]);
    let device = [(input, &device)];
    assert_eq!(
        find_holder(&prepared, &device, &scratch, output),
        Some(RocmHolder::Bank(0))
    );
    assert_eq!(
        find_holder(&prepared, &device, &scratch, input),
        Some(RocmHolder::Input(0))
    );
    assert_eq!(
        find_holder(&prepared, &device, &scratch, sum),
        Some(RocmHolder::Scratch(2))
    );
    assert_eq!(find_holder(&prepared, &[], &scratch, input), None);

    let constraints = prepared.storage_constraints.len();
    let disjoint = vec![PcuMemoryOverlap::Disjoint; constraints];
    let unknown = vec![PcuMemoryOverlap::Unknown; constraints];
    assert!(
        validate_prepared_storage_constraints(&prepared, &device, &scratch, &disjoint).is_ok()
    );
    assert!(matches!(
        validate_prepared_storage_constraints(&prepared, &device, &scratch, &unknown),
        Err(RocmTensorExecutionError::StorageConstraint(
            TensorStorageValidationError::UnknownOverlap { .. }
        ))
    ));
    assert!(matches!(
        validate_prepared_storage_constraints(&prepared, &[], &scratch, &disjoint),
        Err(RocmTensorExecutionError::StorageConstraint(
            TensorStorageValidationError::MissingResource { .. }
        ))
    ));

    let accepts = |scratch: &RocmTensorScratch, bank: &RocmTensorOutputBank| {
        validate_execution_sources(
            &prepared,
            &[],
            &device,
            &CONTEXT,
            Some(scratch),
            Some(RocmBankFacts {
                bank,
                overlapping: &[false],
                members_valid: true,
                storage: &disjoint,
            }),
        )
    };
    assert!(accepts(&scratch, &bank).is_ok());
    scratch.record(true);
    bank.record(true);
    assert!(accepts(&scratch, &bank).is_ok());
    bank.record(false);
    assert!(matches!(
        accepts(&scratch, &bank),
        Err(RocmTensorExecutionError::OutputResourceMismatch)
    ));
    scratch.record(false);
    scratch.record(true);
    assert!(matches!(
        accepts(&scratch, &bank),
        Err(RocmTensorExecutionError::ScratchMismatch)
    ));
}

#[test]
fn uncertain_library_work_refuses_plans_that_need_it() {
    let mut graph = Graph::new(1);
    let left = graph.input(vec![2, 2]).unwrap();
    let output = graph.matmul(left, left).unwrap();
    let prepared = prepare(&graph, &[output], TensorPointwiseGroupingPolicy::Disabled);
    let host = [(left, tensor(vec![2, 2], vec![1.0; 4]))];
    let uncertain = RocmContext {
        library_usable: false,
        ..CONTEXT
    };
    assert!(validate_execution_sources(&prepared, &host, &[], &CONTEXT, None, None).is_ok());
    assert!(matches!(
        validate_execution_sources(&prepared, &host, &[], &uncertain, None, None),
        Err(RocmTensorExecutionError::Unsupported {
            value,
            reason: TensorUnsupportedReason::Other(text),
        }) if value == output
            && text == "rocBLAS completion is uncertain; selected handle cannot run more work"
    ));
    // Preparing such a plan is refused for the same reason.
    assert!(matches!(
        RocmTensorAssessor {
            library_usable: false
        }
        .prepare_graph(&graph, output),
        Err(RocmTensorExecutionError::Unsupported { value, .. }) if value == output
    ));
}

#[test]
fn finished_outputs_are_readable_and_on_the_session() {
    assert!(validate_output_resource(&resource(1, 4), &CONTEXT).is_ok());
    let mut written = resource(1, 4);
    written.access = PcuMemoryAccess::WriteOnly;
    assert!(matches!(
        validate_output_resource(&written, &CONTEXT),
        Err(RocmTensorExecutionError::OutputResourceMismatch)
    ));
    let mut elsewhere = resource(1, 4);
    elsewhere.runtime = 1;
    assert!(validate_output_resource(&elsewhere, &CONTEXT).is_err());
}

#[test]
fn feedback_steps_read_the_bank_before_and_write_the_other() {
    let (graph, input, _, output) = pipeline();
    let prepared = prepare(&graph, &[output], TensorPointwiseGroupingPolicy::Disabled);
    let feedback = prepared.plan.feedback_plan(&[(output, input)]).unwrap();
    assert_eq!(feedback_banks(&feedback, 0), (None, 0));
    assert_eq!(feedback_banks(&feedback, 1), (Some(0), 1));
    assert_eq!(feedback_banks(&feedback, 4), (Some(1), 0));

    let first = resident(70, vec![2]);
    let initial = [(input, &first)];
    assert!(validate_feedback_run(&feedback, true, &initial, false).is_ok());
    assert!(matches!(
        validate_feedback_run(&feedback, false, &initial, false),
        Err(RocmTensorExecutionError::FeedbackPlanMismatch)
    ));
    assert!(matches!(
        validate_feedback_run(&feedback, true, &initial, true),
        Err(RocmTensorExecutionError::OutputResourceMismatch)
    ));
    assert!(matches!(
        validate_feedback_run(&feedback, true, &[], false),
        Err(RocmTensorExecutionError::Graph(TensorError::MissingInput(value))) if value == input
    ));

    let bank = RocmTensorOutputBank::build(&prepared, &CONTEXT, &[resource(60, 8)], true).unwrap();
    let inputs = feedback_inputs(&feedback, 0, &initial, &prepared.outputs, None).unwrap();
    assert_eq!(inputs.as_slice()[0].1.resource.handle, 70);
    let inputs = feedback_inputs(&feedback, 1, &initial, &prepared.outputs, Some(&bank)).unwrap();
    assert_eq!(inputs.as_slice().len(), 1);
    assert_eq!(inputs.as_slice()[0].0, input);
    assert_eq!(inputs.as_slice()[0].1.resource.handle, 60);
    drop(inputs);

    let other = RocmTensorOutputBank::build(&prepared, &CONTEXT, &[resource(61, 8)], true).unwrap();
    let mut resources = RocmTensorFeedbackResources {
        scratch: build_scratch(&prepared),
        banks: [bank, other],
        completed_steps: 0,
        reservations: vec![1, 2, 3],
    };
    assert!(resources.outputs_for_step(0).is_err());
    resources.record(3, true);
    assert_eq!(
        resources.outputs_for_step(2).unwrap()[0].resource.handle,
        60
    );
    assert_eq!(
        resources.outputs_for_step(1).unwrap()[0].resource.handle,
        61
    );
    assert!(resources.outputs_for_step(0).is_err());
    resources.record(3, false);
    assert!(resources.outputs_for_step(2).is_err());

    let mut remaining = resources.release(&[Ok(()), Err(8), Ok(())]).unwrap_err();
    assert_eq!((remaining.error, remaining.reservations.clone()), (8, vec![2, 3]));
    assert_eq!(remaining.retry(&[Ok(()), Err(9)]), Err(9));
    assert_eq!((remaining.error, remaining.reservations.clone()), (8, vec![3]));
    assert_eq!(remaining.retry(&[Ok(())]), Ok(()));
    assert!(remaining.error == 8 && remaining.reservations.is_empty());
}

#[test]
fn failed_preparation_keeps_what_it_could_not_take_back() {
    let mut reservations = Vec::new();
    keep_reservation(&mut reservations, 4, false);
    keep_reservation(&mut reservations, 5, true);
    keep_reservation(&mut reservations, 6, false);
    assert_eq!(reservations, [4, 6]);
    assert!(matches!(
        rollback_prepare(
            RocmTensorExecutionError::SizeOverflow,
            vec![4, 6],
            &[Ok(()), Ok(())]
        ),
        RocmTensorFeedbackPrepareError::Execution(RocmTensorExecutionError::SizeOverflow)
    ));
    let mut failed = rollback_prepare(
        RocmTensorExecutionError::SizeOverflow,
        reservations,
        &[Err(3), Ok(())],
    );
    assert!(matches!(
        &failed,
        RocmTensorFeedbackPrepareError::Rollback { rollback: 3, reservations, .. }
            if *reservations == [4, 6]
    ));
    assert_eq!(failed.retry_rollback(&[Ok(()), Err(5)]), Err(5));
    assert!(matches!(
        &failed,
        RocmTensorFeedbackPrepareError::Rollback {
            execution: RocmTensorExecutionError::SizeOverflow,
            rollback: 3,
            reservations,
        } if *reservations == [6]
    ));
    assert_eq!(failed.retry_rollback(&[Ok(())]), Ok(()));
    assert!(matches!(
        &failed,
        RocmTensorFeedbackPrepareError::Rollback {
            execution: RocmTensorExecutionError::SizeOverflow,
            rollback: 3,
            reservations,
        } if reservations.is_empty()
    ));
}

#[test]
fn the_provider_is_asked_about_everything_an_execution_shares_storage_with() {
    let (graph, input, sum, output) = pipeline();
    let prepared = prepare(&graph, &[output], TensorPointwiseGroupingPolicy::Disabled);
    let mut scratch = build_scratch(&prepared);
    let bank =
        RocmTensorOutputBank::build(&prepared, &CONTEXT, &[resource(60, 8)], true).unwrap();
    let device = resident(70, vec![2]);
    let device = [(input, &device)];
    let handles = |resources: Vec<RocmResource>| -> Vec<usize> {
        resources.iter().map(|resource| resource.handle).collect()
    };
    assert_eq!(handles(storage_beside_bank(&device, None)), [70]);
    assert_eq!(handles(storage_beside_bank(&device, Some(&scratch))), [70, 51, 52]);
    assert!(matches!(
        scratch.squares(2),
        Err(RocmTensorExecutionError::ScratchMismatch)
    ));
    scratch.mse_squared = Some(resource(80, 8));
    assert_eq!(handles(storage_beside_bank(&[], Some(&scratch))), [51, 52, 80]);
    assert_eq!(scratch.squares(2).unwrap().handle, 80);
    assert!(matches!(
        scratch.squares(3),
        Err(RocmTensorExecutionError::ScratchMismatch)
    ));
    assert!(matches!(
        scratch.squares(usize::MAX),
        Err(RocmTensorExecutionError::SizeOverflow)
    ));
    assert_eq!(bank_members(&bank, &prepared), [(resource(60, 8), 8)]);
    let questions = storage_questions(&prepared, &device, &scratch, &bank);
    assert_eq!(questions.len(), prepared.storage_constraints.len());
    for (constraint, question) in prepared.storage_constraints.iter().zip(&questions) {
        let asked = question.unwrap();
        let handle = |value| match value {
            value if value == output => 60,
            value if value == input => 70,
            value if value == sum => 52,
            _ => 51,
        };
        assert_eq!(asked.left.handle, handle(constraint.left));
        assert_eq!(asked.right.handle, handle(constraint.right));
        assert_eq!((asked.left_bytes, asked.right_bytes), (8, 8));
    }
    assert!(
        storage_questions(&prepared, &[], &scratch, &bank).iter().any(Option::is_none)
    );
}

#[test]
fn a_run_starts_only_when_its_sources_fit() {
    let (graph, input, _, output) = pipeline();
    let prepared = prepare(&graph, &[output], TensorPointwiseGroupingPolicy::Disabled);
    assert!(matches!(
        RocmRun::start(&prepared, &[], &[], &CONTEXT, None, None),
        Err(RocmTensorExecutionError::Graph(TensorError::MissingInput(value))) if value == input
    ));
    let mut scratch = build_scratch(&prepared);
    scratch.record(false);
    let host = [(input, tensor(vec![2], vec![1.0; 2]))];
    assert!(matches!(
        RocmRun::start(&prepared, &host, &[], &CONTEXT, Some(&scratch), None),
        Err(RocmTensorExecutionError::ScratchMismatch)
    ));
}

#[test]
fn an_execution_with_several_faults_is_refused_for_the_first() {
    let (graph, input, _, output) = pipeline();
    let prepared = prepare(&graph, &[output], TensorPointwiseGroupingPolicy::Disabled);
    let mut scratch = build_scratch(&prepared);
    scratch.record(false);
    let narrow = [(input, tensor(vec![1], vec![1.0]))];
    let mut elsewhere = resident(70, vec![2]);
    elsewhere.resource.pool = 77;
    let device = [(input, &elsewhere)];
    assert!(matches!(
        RocmRun::start(&prepared, &narrow, &device, &CONTEXT, Some(&scratch), None),
        Err(RocmTensorExecutionError::Graph(TensorError::ShapeMismatch { left, right }))
            if left == [1] && right == [2]
    ));
    assert!(matches!(
        RocmRun::start(&prepared, &[], &device, &CONTEXT, Some(&scratch), None),
        Err(RocmTensorExecutionError::InputPoolMismatch)
    ));
    let fitting = resident(70, vec![2]);
    let device = [(input, &fitting)];
    assert!(matches!(
        RocmRun::start(&prepared, &[], &device, &CONTEXT, Some(&scratch), None),
        Err(RocmTensorExecutionError::ScratchMismatch)
    ));
}

#[test]
fn a_run_hands_one_tensor_out_for_each_output_in_order() {
    let (graph, input, sum, output) = pipeline();
    let prepared = prepare(
        &graph,
        &[output, sum],
        TensorPointwiseGroupingPolicy::Disabled,
    );
    let host = [(input, tensor(vec![2], vec![1.0; 2]))];
    let mut run = RocmRun::start(&prepared, &host, &[], &CONTEXT, None, None).unwrap();
    let mut labels = Vec::new();
    while let Some(work) = run.next().unwrap() {
        let at = run.at();
        assert!(run.operand_handles(&work).iter().all(|handle| *handle < at));
        assert_eq!(run.storage(&work).unwrap(), None);
        labels.push(work.label);
        run.complete(&work, at);
        assert!(run.holds(at));
    }
    assert_eq!(labels, ["Input", "Constant", "Add", "Relu"]);
    assert!(!run.holds(0));
    assert_eq!(run.output_handle(), Some(3));
    let mut elsewhere = resource(93, 8);
    elsewhere.pool = 77;
    assert!(matches!(
        run.deliver(elsewhere),
        Err(RocmTensorExecutionError::OutputResourceMismatch)
    ));
    run.deliver(resource(93, 8)).unwrap();
    assert_eq!(run.output_handle(), Some(2));
    run.deliver(resource(92, 8)).unwrap();
    assert_eq!(run.output_handle(), None);
    let outputs = run.finish();
    let handles: Vec<usize> = outputs.iter().map(|output| output.resource.handle).collect();
    assert_eq!(handles, [93, 92]);
    assert!(outputs.iter().all(|output| output.shape == [2] && output.session == SESSION.id));
}

#[test]
fn a_run_into_a_bank_writes_to_it_and_hands_nothing_out() {
    let (graph, input, _, output) = pipeline();
    let prepared = prepare(&graph, &[output], TensorPointwiseGroupingPolicy::Disabled);
    let scratch = build_scratch(&prepared);
    let bank =
        RocmTensorOutputBank::build(&prepared, &CONTEXT, &[resource(60, 8)], true).unwrap();
    let device = resident(70, vec![2]);
    let device = [(input, &device)];
    let disjoint = vec![PcuMemoryOverlap::Disjoint; prepared.storage_constraints.len()];
    let facts = RocmBankFacts {
        bank: &bank,
        overlapping: &[false],
        members_valid: true,
        storage: &disjoint,
    };
    let mut run =
        RocmRun::start(&prepared, &[], &device, &CONTEXT, Some(&scratch), Some(facts)).unwrap();
    let mut written = Vec::new();
    while let Some(work) = run.next().unwrap() {
        let at = run.at();
        written.push(run.storage(&work).unwrap().map(|resource| resource.handle));
        run.complete(&work, at);
    }
    assert_eq!(written, [None, Some(51), Some(52), Some(60)]);
    assert_eq!(run.output_handle(), Some(3));
    run.deliver(resource(60, 8)).unwrap();
    assert!(run.finish().is_empty());
}
