//! Iteration feedback: which bank a step writes and what each fed-back input reads.
use pcu_dialects::tensor::error::TensorError;
use pcu_dialects::tensor::feedback::TensorFeedbackInput;
use pcu_dialects::tensor::graph::Graph;
use pcu_dialects::tensor::value::Tensor;

fn tensor(shape: Vec<usize>, data: Vec<f32>) -> Tensor {
    Tensor::new(shape, data.into_iter().map(f32::to_bits).collect()).unwrap()
}

#[test]
fn feedback_validates_selected_values_and_schedules_two_banks() {
    let mut graph = Graph::new(1);
    let state = graph.input(vec![2]).unwrap();
    let increment = graph.constant(tensor(vec![2], vec![1.0, 1.0]));
    let next = graph.add(state, increment).unwrap();
    let plan = graph.execution_plan_for_outputs(&[next]).unwrap();
    let feedback = plan.feedback_plan(&[(next, state)]).unwrap();

    assert_eq!(feedback.output_bank(0), 0);
    assert_eq!(feedback.output_bank(1), 1);
    assert_eq!(feedback.output_bank(2), 0);
    assert_eq!(feedback.previous_output_bank(0), None);
    assert_eq!(feedback.previous_output_bank(1), Some(0));
    assert_eq!(
        feedback.input_source(state, 0),
        Some(TensorFeedbackInput::Initial { input: state })
    );
    assert_eq!(
        feedback.input_source(state, 1),
        Some(TensorFeedbackInput::PreviousOutput {
            input: state,
            output: next,
            bank: 0,
        })
    );
    assert_eq!(feedback.execution_plan().output_values(), &[next]);

    let visited = feedback.inputs_at(2);
    assert_eq!(
        visited,
        [TensorFeedbackInput::PreviousOutput {
            input: state,
            output: next,
            bank: 1
        }]
    );
}

#[test]
fn feedback_rejects_shape_mismatch_duplicate_bindings_and_unselected_output() {
    let mut graph = Graph::new(1);
    let state = graph.input(vec![2]).unwrap();
    let other_state = graph.input(vec![3]).unwrap();
    let increment = graph.constant(tensor(vec![2], vec![0.0; 2]));
    let next = graph.add(state, increment).unwrap();
    let other_increment = graph.constant(tensor(vec![3], vec![0.0; 3]));
    let other_output = graph.add(other_state, other_increment).unwrap();
    let unselected = graph.constant(Tensor::scalar(1.0_f32.to_bits()));
    let plan = graph
        .execution_plan_for_outputs(&[next, other_output])
        .unwrap();
    assert_eq!(
        plan.feedback_plan(&[(next, state)])
            .unwrap()
            .bindings()
            .len(),
        1
    );
    assert_eq!(
        plan.feedback_plan(&[(next, other_state)]).unwrap_err(),
        TensorError::ShapeMismatch {
            left: vec![2],
            right: vec![3]
        }
    );
    assert_eq!(
        plan.feedback_plan(&[(next, state), (next, state)])
            .unwrap_err(),
        TensorError::DuplicateOutput(next)
    );
    assert_eq!(
        plan.feedback_plan(&[(unselected, state)]).unwrap_err(),
        TensorError::UnknownValue(unselected)
    );
}

#[test]
fn feedback_supports_n_bank_rotation_and_rejects_one_bank() {
    let mut graph = Graph::new(1);
    let state = graph.input(vec![1]).unwrap();
    let increment = graph.constant(tensor(vec![1], vec![1.0]));
    let next = graph.add(state, increment).unwrap();
    let plan = graph.execution_plan_for_outputs(&[next]).unwrap();
    assert_eq!(
        plan.feedback_plan_with_banks(&[(next, state)], 1)
            .unwrap_err(),
        TensorError::FeedbackRequiresMultipleBanks(1)
    );

    let feedback = plan.feedback_plan_with_banks(&[(next, state)], 3).unwrap();
    assert_eq!(feedback.bank_count(), 3);
    assert_eq!(
        (0..7)
            .map(|step| feedback.output_bank(step))
            .collect::<Vec<_>>(),
        [0, 1, 2, 0, 1, 2, 0]
    );
    assert_eq!(feedback.previous_output_bank(0), None);
    assert_eq!(feedback.previous_output_bank(1), Some(0));
    assert_eq!(feedback.previous_output_bank(2), Some(1));
    assert_eq!(feedback.previous_output_bank(3), Some(2));
    assert_eq!(
        feedback.input_source(state, 4),
        Some(TensorFeedbackInput::PreviousOutput {
            input: state,
            output: next,
            bank: 0
        })
    );
}

#[test]
fn feedback_refuses_no_banks_and_repeated_inputs() {
    let mut graph = Graph::new(1);
    let state = graph.input(vec![1]).unwrap();
    let first = graph.relu(state).unwrap();
    let second = graph.add(first, state).unwrap();
    let plan = graph.execution_plan_for_outputs(&[first, second]).unwrap();
    assert_eq!(
        plan.feedback_plan_with_banks(&[(first, state)], 0).unwrap_err(),
        TensorError::FeedbackRequiresMultipleBanks(0)
    );
    assert_eq!(
        plan.feedback_plan(&[(first, state), (second, state)]).unwrap_err(),
        TensorError::DuplicateInput(state)
    );
    // A value that is computed is not an input of the plan.
    assert_eq!(
        plan.feedback_plan(&[(second, first)]).unwrap_err(),
        TensorError::UnknownValue(first)
    );
    assert_eq!(
        plan.feedback_plan(&[(first, state)]).unwrap().input_source(second, 3),
        None
    );
}
