//! The reference machine: fragments over caller-owned buffers and programs with named ports.
use pcu_dialects::vm::dialect::{
    PcuDialectFragment, PcuDialectOperation, PcuDialectValidationError, PcuDialectValueId, ADD,
    EMIT, INPUT, LITERAL, LITERAL_VALUE,
};
use pcu_dialects::vm::execute::{execute, VmBuffers, VmError, VmReport};
use pcu_dialects::vm::program::{
    execute_program, PcuDialectImmediate, PcuDialectImmediateValue, PcuDialectOperationAttributes,
    PcuDialectPort, PcuDialectProgram, VmProgramBuffers, VmProgramInput, VmProgramOutput,
};
use pcu_dialects::vm::support::{program_support, support};

const UNUSED: [PcuDialectValueId; 4] = [PcuDialectValueId(0); 4];

fn fragment<'a>(operations: &'a [PcuDialectOperation<'a>]) -> PcuDialectFragment<'a> {
    PcuDialectFragment {
        operations,
        verdict: Ok(()),
    }
}

fn input(id: u16) -> PcuDialectOperation<'static> {
    PcuDialectOperation {
        name: INPUT,
        inputs: UNUSED,
        result: Some(PcuDialectValueId(id)),
    }
}

fn add(left: u16, right: u16, id: u16) -> PcuDialectOperation<'static> {
    PcuDialectOperation {
        name: ADD,
        inputs: [
            PcuDialectValueId(left),
            PcuDialectValueId(right),
            PcuDialectValueId(0),
            PcuDialectValueId(0),
        ],
        result: Some(PcuDialectValueId(id)),
    }
}

fn literal(id: u16) -> PcuDialectOperation<'static> {
    PcuDialectOperation {
        name: LITERAL,
        inputs: UNUSED,
        result: Some(PcuDialectValueId(id)),
    }
}

fn emit(id: u16) -> PcuDialectOperation<'static> {
    PcuDialectOperation {
        name: EMIT,
        inputs: [
            PcuDialectValueId(id),
            PcuDialectValueId(0),
            PcuDialectValueId(0),
            PcuDialectValueId(0),
        ],
        result: None,
    }
}

fn producer() -> [PcuDialectOperation<'static>; 3] {
    [input(0), input(1), add(0, 1, 2)]
}

#[test]
fn executes_stream_and_exposes_output_effect() {
    let operations = producer();
    let full = [operations[0], operations[1], operations[2], emit(2)];
    let fragment = fragment(&full);
    let mut values = [0; 3];
    let mut outputs = [0; 1];
    let mut buffers = VmBuffers {
        values: &mut values,
        inputs: &[19, 23],
        outputs: &mut outputs,
    };
    assert_eq!(
        execute(&fragment, &mut buffers),
        Ok(VmReport {
            inputs_consumed: 2,
            outputs_written: 1,
            operations_executed: 4,
        })
    );
    assert_eq!(outputs, [42]);
}

#[test]
fn rejects_invalid_fragment_and_capacity_before_mutation() {
    let valid = producer();
    let invalid_ops = [valid[0], emit(0)];
    // An emit without its write effect is refused by the dialect's validator.
    let invalid = PcuDialectFragment {
        operations: &invalid_ops,
        verdict: Err(PcuDialectValidationError(3)),
    };
    let mut values = [77; 1];
    let mut outputs = [88; 1];
    let mut buffers = VmBuffers {
        values: &mut values,
        inputs: &[1],
        outputs: &mut outputs,
    };
    assert!(matches!(
        execute(&invalid, &mut buffers),
        Err(VmError::InvalidFragment(_))
    ));
    assert_eq!(values, [77]);
    assert_eq!(outputs, [88]);

    let insufficient = fragment(&valid);
    let mut values = [77; 2];
    let mut outputs = [];
    let mut buffers = VmBuffers {
        values: &mut values,
        inputs: &[1, 2],
        outputs: &mut outputs,
    };
    assert_eq!(
        execute(&insufficient, &mut buffers),
        Err(VmError::ValueStorageTooSmall {
            required: 3,
            available: 2,
        })
    );
    assert_eq!(values, [77; 2]);
}

#[test]
fn composes_self_contained_fragments_and_preserves_semantics() {
    // The second fragment's values are numbered on from the first one's.
    let composed_ops = [
        input(0),
        input(1),
        add(0, 1, 2),
        input(3),
        input(4),
        add(3, 4, 5),
        emit(5),
    ];
    let composed = fragment(&composed_ops);
    assert_eq!(composed_ops[3].result.unwrap(), PcuDialectValueId(3));
    assert_eq!(composed_ops[6].inputs[0], PcuDialectValueId(5));

    let mut values = [0; 6];
    let mut outputs = [0; 1];
    let mut buffers = VmBuffers {
        values: &mut values,
        inputs: &[1, 2, 20, 22],
        outputs: &mut outputs,
    };
    assert_eq!(execute(&composed, &mut buffers).unwrap().outputs_written, 1);
    assert_eq!(outputs, [42]);
}

#[test]
fn executes_validated_named_ports_and_typed_literal_immediate() {
    let operations = [literal(1), add(0, 1, 2)];
    let immediate = PcuDialectImmediate {
        name: LITERAL_VALUE,
        value: PcuDialectImmediateValue::U32(10),
    };
    let literal_attributes = [immediate];
    let per_operation_attributes = [
        PcuDialectOperationAttributes {
            operation_index: 0,
            attributes: &literal_attributes,
        },
        PcuDialectOperationAttributes {
            operation_index: 1,
            attributes: &[],
        },
    ];
    let inputs = [PcuDialectPort {
        name: "lhs",
        value: PcuDialectValueId(0),
    }];
    let outputs = [PcuDialectPort {
        name: "sum",
        value: PcuDialectValueId(2),
    }];
    let program = PcuDialectProgram {
        operations: &operations,
        input_ports: &inputs,
        output_ports: &outputs,
        operation_attributes: &per_operation_attributes,
        verdict: Ok(()),
    };
    let mut values = [0; 3];
    let mut caller_outputs = [VmProgramOutput {
        name: "sum",
        value: 999,
    }];
    let mut buffers = VmProgramBuffers {
        values: &mut values,
        inputs: &[VmProgramInput {
            name: "lhs",
            value: 32,
        }],
        outputs: &mut caller_outputs,
    };
    assert_eq!(
        execute_program(&program, &mut buffers),
        Ok(VmReport {
            inputs_consumed: 1,
            outputs_written: 1,
            operations_executed: 2,
        })
    );
    assert_eq!(buffers.outputs[0].value, 42);
}

#[test]
fn rejects_bad_immediate_before_changing_values_or_outputs() {
    let operations = [literal(1)];
    let immediate = PcuDialectImmediate {
        name: LITERAL_VALUE,
        value: PcuDialectImmediateValue::F32(1.0_f32.to_bits()),
    };
    let attributes = [immediate];
    let op_attributes = [PcuDialectOperationAttributes {
        operation_index: 0,
        attributes: &attributes,
    }];
    let inputs = [PcuDialectPort {
        name: "lhs",
        value: PcuDialectValueId(0),
    }];
    let outputs = [PcuDialectPort {
        name: "sum",
        value: PcuDialectValueId(1),
    }];
    // A literal whose immediate is no integer is refused by the dialect's validator.
    let program = PcuDialectProgram {
        operations: &operations,
        input_ports: &inputs,
        output_ports: &outputs,
        operation_attributes: &op_attributes,
        verdict: Err(PcuDialectValidationError(9)),
    };
    let mut values = [55; 2];
    let mut caller_outputs = [VmProgramOutput {
        name: "sum",
        value: 77,
    }];
    let mut buffers = VmProgramBuffers {
        values: &mut values,
        inputs: &[VmProgramInput {
            name: "lhs",
            value: 3,
        }],
        outputs: &mut caller_outputs,
    };
    assert!(matches!(
        execute_program(&program, &mut buffers),
        Err(VmError::InvalidProgram(_))
    ));
    assert_eq!(buffers.values, [55; 2]);
    assert_eq!(buffers.outputs[0].value, 77);
}

/// The outcome of a fragment over fresh buffers, with the buffers after it.
fn run(
    operations: &[PcuDialectOperation<'_>],
    value_count: usize,
    inputs: &[u32],
    output_count: usize,
) -> (Result<VmReport, VmError>, Vec<u32>, Vec<u32>) {
    let mut values = vec![9; value_count];
    let mut outputs = vec![7; output_count];
    let mut buffers = VmBuffers {
        values: &mut values,
        inputs,
        outputs: &mut outputs,
    };
    let answer = execute(&fragment(operations), &mut buffers);
    (answer, values, outputs)
}

#[test]
fn sums_wrap_and_unused_storage_stays() {
    let operations = [input(0), add(0, 0, 1), emit(1), emit(0)];
    let (answer, values, outputs) = run(&operations, 4, &[0x8000_0001, 5], 3);
    assert_eq!(
        answer,
        Ok(VmReport {
            inputs_consumed: 1,
            outputs_written: 2,
            operations_executed: 4,
        })
    );
    assert_eq!(values, [0x8000_0001, 2, 9, 9]);
    assert_eq!(outputs, [2, 0x8000_0001, 7]);
}

#[test]
fn fragments_report_each_short_buffer_and_leave_it_alone() {
    let operations = [input(0), input(1), emit(1), emit(0)];
    let (answer, values, outputs) = run(&operations, 2, &[4], 2);
    assert_eq!(
        answer,
        Err(VmError::InputStorageTooSmall {
            required: 2,
            available: 1
        })
    );
    assert_eq!((values, outputs), (vec![9, 9], vec![7, 7]));
    let (answer, values, outputs) = run(&operations, 2, &[4, 5], 1);
    assert_eq!(
        answer,
        Err(VmError::OutputStorageTooSmall {
            required: 2,
            available: 1
        })
    );
    assert_eq!((values, outputs), (vec![9, 9], vec![7]));
    let (answer, _, _) = run(&[literal(0)], 1, &[], 0);
    assert_eq!(answer, Err(VmError::ImmediateRequiresProgram));
}

#[test]
fn programs_report_wrong_host_bindings() {
    let operations = [add(0, 0, 1)];
    let inputs = [PcuDialectPort {
        name: "lhs",
        value: PcuDialectValueId(0),
    }];
    let outputs = [PcuDialectPort {
        name: "sum",
        value: PcuDialectValueId(1),
    }];
    let program = PcuDialectProgram {
        operations: &operations,
        input_ports: &inputs,
        output_ports: &outputs,
        operation_attributes: &[],
        verdict: Ok(()),
    };
    let bound = VmProgramInput {
        name: "lhs",
        value: 4,
    };
    let slot = VmProgramOutput {
        name: "sum",
        value: 1,
    };
    let attempt = |value_count: usize, host: &[VmProgramInput<'_>], name: &'static str| {
        let mut values = vec![0; value_count];
        let mut slots = [VmProgramOutput { name, ..slot }];
        let mut buffers = VmProgramBuffers {
            values: &mut values,
            inputs: host,
            outputs: &mut slots,
        };
        let answer = execute_program(&program, &mut buffers);
        (answer, buffers.outputs[0].value)
    };
    assert_eq!(
        attempt(2, &[], "sum"),
        (Err(VmError::InvalidInputBindings), 1)
    );
    assert_eq!(
        attempt(2, &[bound, bound], "sum"),
        (Err(VmError::InvalidInputBindings), 1)
    );
    assert_eq!(
        attempt(2, &[bound], "product"),
        (Err(VmError::InvalidOutputBindings), 1)
    );
    assert_eq!(
        attempt(1, &[bound], "sum"),
        (
            Err(VmError::ValueStorageTooSmall {
                required: 2,
                available: 1
            }),
            1
        )
    );
    let (answer, value) = attempt(2, &[bound], "sum");
    assert!(answer.is_ok());
    assert_eq!(value, 8);
}

#[test]
fn programs_refuse_stream_operations() {
    let operations = [input(0)];
    let program = PcuDialectProgram {
        operations: &operations,
        input_ports: &[],
        output_ports: &[],
        operation_attributes: &[],
        verdict: Ok(()),
    };
    let mut values = [3];
    let mut buffers = VmProgramBuffers {
        values: &mut values,
        inputs: &[],
        outputs: &mut [],
    };
    assert_eq!(
        execute_program(&program, &mut buffers),
        Err(VmError::UnsupportedProgramOperation)
    );
    assert_eq!(values, [3]);
}

#[test]
fn the_machine_declares_its_operations_and_program_ports() {
    let declared = support();
    assert_eq!(declared.dialect, "org.fusion.vm-reference");
    assert_eq!((declared.major, declared.min_minor, declared.max_minor), (1, 0, 0));
    let operations: Vec<(&str, usize, bool, bool, bool)> = declared
        .operations
        .iter()
        .map(|operation| {
            (
                operation.name,
                operation.input_types.len(),
                operation.result_type.is_some(),
                operation.effects.reads_memory,
                operation.effects.writes_memory,
            )
        })
        .collect();
    assert_eq!(
        operations,
        [
            (INPUT, 0, true, true, false),
            (ADD, 2, true, false, false),
            (EMIT, 1, false, false, true),
            (LITERAL, 0, true, false, false),
        ]
    );
    assert!(declared.effects.reads_memory && declared.effects.writes_memory);
    let program = program_support();
    assert_eq!(program.dialect_support, declared);
    assert_eq!(program.input_ports[0].name, "lhs");
    assert_eq!(program.output_ports[0].name, "sum");
    assert_eq!(program.operation_immediates[0].operation_name, LITERAL);
    assert_eq!(program.operation_immediates[0].attributes[0].name, LITERAL_VALUE);
}
