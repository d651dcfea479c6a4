//! Kernels, groups and replaced updates compute what the graph says.
use pcu_dialects::pcu::ir::PcuDispatchIndex;
use pcu_dialects::rocm::assess::RocmTensorAssessor;
use pcu_dialects::rocm::kernels::{RocmAluOp, RocmKernel, RocmKernelOp, TensorDispatchKind};
use pcu_dialects::tensor::arithmetic::F32Arithmetic;
use pcu_dialects::tensor::descriptor::{NodeDescriptor, OpDescriptor};
use pcu_dialects::tensor::error::ValueId;
use pcu_dialects::tensor::evaluate::Execution;
use pcu_dialects::tensor::graph::Graph;
use pcu_dialects::tensor::groups::TensorPointwiseGroupingPolicy;
use pcu_dialects::tensor::lowering::TensorSelectedOperation;
use pcu_dialects::tensor::rewrite::{TensorArithmeticCapability, TensorArithmeticRewritePolicy};
use pcu_dialects::tensor::value::Tensor;

struct Host;

impl F32Arithmetic for Host {
    fn sum(left: u32, right: u32) -> u32 {
        (f32::from_bits(left) + f32::from_bits(right)).to_bits()
    }

    fn difference(left: u32, right: u32) -> u32 {
        (f32::from_bits(left) - f32::from_bits(right)).to_bits()
    }

    fn product(left: u32, right: u32) -> u32 {
        (f32::from_bits(left) * f32::from_bits(right)).to_bits()
    }

    fn quotient(left: u32, right: u32) -> u32 {
        (f32::from_bits(left) / f32::from_bits(right)).to_bits()
    }

    fn maximum(left: u32, right: u32) -> u32 {
        f32::from_bits(left).max(f32::from_bits(right)).to_bits()
    }

    fn from_count(count: usize) -> u32 {
        (count as f32).to_bits()
    }
}

fn tensor(shape: Vec<usize>, data: Vec<f32>) -> Tensor {
    Tensor::new(shape, data.into_iter().map(f32::to_bits).collect()).unwrap()
}

fn computed(op: RocmAluOp, left: u32, right: u32) -> u32 {
    match op {
        RocmAluOp::Add => Host::sum(left, right),
        RocmAluOp::Sub => Host::difference(left, right),
        RocmAluOp::Mul => Host::product(left, right),
        RocmAluOp::Max => Host::maximum(left, right),
    }
}

/// Runs one invocation of a kernel. The last buffer is the one that is written.
fn invoke(kernel: &RocmKernel, buffers: &mut [Vec<u32>], id: usize) {
    let mut values: Vec<Option<u32>> = vec![None; 64];
    let place = |index: PcuDispatchIndex| match index {
        PcuDispatchIndex::InvocationId => id,
        PcuDispatchIndex::BindingElementZero => 0,
        other => panic!("unexpected index {other:?}"),
    };
    for op in &kernel.ops {
        match *op {
            RocmKernelOp::BindingLoad { result, binding, index } => {
                values[result.0 as usize] =
                    Some(buffers[binding.binding as usize][place(index)]);
            }
            RocmKernelOp::Constant { result, bits } => values[result.0 as usize] = Some(bits),
            RocmKernelOp::Alu { result, op, lhs, rhs } => {
                let left = values[lhs.0 as usize].expect("defined before use");
                let right = values[rhs.0 as usize].expect("defined before use");
                values[result.0 as usize] = Some(computed(op, left, right));
            }
            RocmKernelOp::BindingStore { binding, index, value } => {
                assert_eq!(binding.binding as usize, buffers.len() - 1);
                buffers[binding.binding as usize][place(index)] =
                    values[value.0 as usize].expect("defined before use");
            }
            RocmKernelOp::Return => return,
        }
    }
    panic!("a kernel returns");
}

/// Runs a kernel over all of its elements.
fn run(kernel: &RocmKernel, inputs: Vec<Vec<u32>>) -> Vec<u32> {
    let count = kernel.logical_shape[0] as usize;
    let mut buffers = inputs;
    buffers.push(vec![0xdead_beef; count]);
    for id in 0..count {
        invoke(kernel, &mut buffers, id);
    }
    buffers.pop().unwrap()
}

fn leaves_of(operation: &TensorSelectedOperation<'_>) -> Vec<ValueId> {
    match operation {
        TensorSelectedOperation::FusedAddRelu { left, right, .. } => vec![*left, *right],
        TensorSelectedOperation::FusedAddSub { group } => group.leaves.clone(),
        TensorSelectedOperation::FusedMul { group } => group.leaves.clone(),
        TensorSelectedOperation::Node(node) => match node.op {
            OpDescriptor::Add { left, right }
            | OpDescriptor::Sub { left, right }
            | OpDescriptor::Mul { left, right } => vec![left, right],
            OpDescriptor::Relu { input } => vec![input],
            _ => vec![],
        },
    }
}

fn output_of(operation: &TensorSelectedOperation<'_>) -> ValueId {
    match operation {
        TensorSelectedOperation::FusedAddRelu { relu_output, .. } => *relu_output,
        TensorSelectedOperation::FusedAddSub { group } => group.output,
        TensorSelectedOperation::FusedMul { group } => group.output,
        TensorSelectedOperation::Node(node) => node.value,
    }
}

/// Prepares outputs, runs every kernel on the evaluator's operands and compares the results.
/// Hands out how many groups and how many kernels there were.
fn compare(
    graph: &Graph,
    outputs: &[ValueId],
    grouping: TensorPointwiseGroupingPolicy,
    execution: &Execution,
) -> (usize, usize) {
    let assessor = RocmTensorAssessor { library_usable: true };
    let prepared = assessor
        .prepare_graph_outputs_with_policies(
            graph,
            outputs,
            TensorArithmeticRewritePolicy::Disabled,
            grouping,
        )
        .unwrap();
    let (mut groups, mut kernels) = (0, 0);
    for operation in prepared.lowering_plan().operations() {
        let Some(request) = prepared.dispatch_request(operation).unwrap() else {
            continue;
        };
        if !matches!(operation, TensorSelectedOperation::Node(_)) {
            groups += 1;
        }
        kernels += 1;
        let kernel = request.kernel().unwrap();
        let inputs = leaves_of(operation)
            .into_iter()
            .map(|leaf| {
                let data = execution.value(leaf).unwrap().data();
                if prepared.is_compact_uniform(leaf) { vec![data[0]] } else { data.to_vec() }
            })
            .collect();
        assert_eq!(
            run(&kernel, inputs),
            execution.value(output_of(operation)).unwrap().data(),
            "{operation:?}"
        );
    }
    (groups, kernels)
}

#[test]
fn grouped_kernels_compute_the_values_of_the_graph() {
    let mut graph = Graph::new(1);
    let a = graph.input(vec![4]).unwrap();
    let b = graph.input(vec![4]).unwrap();
    let c = graph.uniform(vec![4], 0.1f32.to_bits()).unwrap();
    let sum = graph.add(a, b).unwrap();
    let shifted = graph.sub(sum, c).unwrap();
    let doubled = graph.add(shifted, a).unwrap();
    let rectified = graph.relu(doubled).unwrap();
    let product = graph.mul(rectified, b).unwrap();
    let cube = graph.mul(product, a).unwrap();
    let inputs = vec![
        (a, tensor(vec![4], vec![1.0e8, -3.0, 0.3, -0.0])),
        (b, tensor(vec![4], vec![1.0, 2.5, -0.7, f32::INFINITY])),
    ];
    let execution = graph.evaluate::<Host>(&inputs).unwrap();
    let outputs = [cube];
    let counts = |grouping| compare(&graph, &outputs, grouping, &execution);
    assert_eq!(counts(TensorPointwiseGroupingPolicy::Disabled), (0, 6));
    assert_eq!(counts(TensorPointwiseGroupingPolicy::BoundedAddSubRelu), (1, 3));
    assert_eq!(counts(TensorPointwiseGroupingPolicy::BoundedMulIdentity), (1, 5));
}

#[test]
fn a_grouped_sum_and_relu_round_the_sum_first() {
    let mut graph = Graph::new(2);
    let a = graph.input(vec![3]).unwrap();
    let b = graph.input(vec![3]).unwrap();
    let sum = graph.add(a, b).unwrap();
    let rectified = graph.relu(sum).unwrap();
    let inputs = vec![
        (a, tensor(vec![3], vec![16_777_216.0, -5.0, f32::NAN])),
        (b, tensor(vec![3], vec![1.0, 2.0, 4.0])),
    ];
    let execution = graph.evaluate::<Host>(&inputs).unwrap();
    assert_eq!(
        compare(
            &graph,
            &[rectified],
            TensorPointwiseGroupingPolicy::SingleUseAddRelu,
            &execution,
        ),
        (1, 1)
    );
    assert_eq!(
        execution.value(rectified).unwrap().data(),
        &[16_777_216.0f32, 0.0, 0.0].map(f32::to_bits)
    );
}

#[test]
fn fixed_kernels_compute_their_operation() {
    let left = [7.5f32, -2.0].map(f32::to_bits).to_vec();
    let right = [2.5f32, 9.0].map(f32::to_bits).to_vec();
    let numbers = |kind: TensorDispatchKind, mask: u8, inputs: Vec<Vec<u32>>| -> Vec<f32> {
        let bits = run(&kind.kernel(2, mask), inputs);
        bits.into_iter().map(f32::from_bits).collect()
    };
    let both = || vec![left.clone(), right.clone()];
    assert_eq!(numbers(TensorDispatchKind::Add, 0, both()), [10.0, 7.0]);
    assert_eq!(numbers(TensorDispatchKind::Sub, 0, both()), [5.0, -11.0]);
    assert_eq!(numbers(TensorDispatchKind::Mul, 0, both()), [18.75, -18.0]);
    assert_eq!(numbers(TensorDispatchKind::AddRelu, 0, both()), [10.0, 7.0]);
    assert_eq!(numbers(TensorDispatchKind::Relu, 0, vec![left.clone()]), [7.5, 0.0]);
    assert_eq!(numbers(TensorDispatchKind::SquaredDifference, 0, both()), [25.0, 121.0]);
    let scalar = vec![left.clone(), vec![2.0f32.to_bits()]];
    assert_eq!(numbers(TensorDispatchKind::Sub, 0b10, scalar), [5.5, -4.0]);
}

/// What a replaced update computes when it is not contracted.
fn update(execution: &Execution, node: &NodeDescriptor<'_>) -> Option<Vec<u32>> {
    let OpDescriptor::SgdUpdate { weights, gradient, learning_rate } = node.op else {
        return None;
    };
    let weights = execution.value(weights).unwrap().data();
    let gradient = execution.value(gradient).unwrap().data();
    let step = |(w, g): (&u32, &u32)| Host::difference(*w, Host::product(learning_rate, *g));
    Some(weights.iter().zip(gradient).map(step).collect())
}

#[test]
fn replaced_updates_keep_their_values_without_contraction() {
    let mut graph = Graph::new(3);
    let weights = graph.input(vec![2]).unwrap();
    let gradient = graph.input(vec![2]).unwrap();
    let rate = graph.constant(tensor(vec![2], vec![0.1, 0.1]));
    let scaled = graph.mul(rate, gradient).unwrap();
    let updated = graph.sub(weights, scaled).unwrap();
    let inputs = vec![
        (weights, tensor(vec![2], vec![0.3, 1.0e-9])),
        (gradient, tensor(vec![2], vec![0.7, -1.5])),
    ];
    let execution = graph.evaluate::<Host>(&inputs).unwrap();
    let plan = graph.execution_plan_for_outputs(&[updated]).unwrap();
    let lowering = plan.select_lowering(
        TensorArithmeticRewritePolicy::AllowContractedArithmetic,
        TensorArithmeticCapability::ContractedMultiplyAdd,
    );
    let found: Vec<Vec<u32>> =
        lowering.nodes().iter().filter_map(|node| update(&execution, node)).collect();
    assert_eq!(found.len(), 1);
    assert_eq!(found[0], execution.value(updated).unwrap().data());
}

#[test]
fn a_derivative_passes_a_relu_only_where_the_input_is_positive() {
    let mut graph = Graph::new(4);
    let input = graph.input(vec![5]).unwrap();
    let upstream = graph.input(vec![5]).unwrap();
    let gate = graph.relu_backward(input, upstream).unwrap();
    let inputs = vec![
        (input, tensor(vec![5], vec![2.0, 0.0, -0.0, f32::NAN, f32::NEG_INFINITY])),
        (upstream, tensor(vec![5], vec![3.0, 5.0, 7.0, 11.0, 13.0])),
    ];
    let execution = graph.evaluate::<Host>(&inputs).unwrap();
    assert_eq!(
        execution.value(gate).unwrap().data(),
        &[3.0f32, 0.0, 0.0, 0.0, 0.0].map(f32::to_bits)
    );
}
