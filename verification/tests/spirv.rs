//! Lowering dispatch kernels to SPIR-V modules.
use pcu_dialects::pcu::ir::{
    PcuBinding, PcuBindingAccess, PcuBindingRef, PcuBindingStorageClass, PcuBindingType,
    PcuDispatchAluOp, PcuDispatchDataOp, PcuDispatchEntryPoint, PcuDispatchFeatureCaps,
    PcuDispatchIndex, PcuDispatchKernelIr, PcuDispatchOp, PcuDispatchOpCaps, PcuDispatchOpKind,
    PcuDispatchRayTraceOp, PcuDispatchResourceOp, PcuDispatchValueId, PcuF32MapValidationError,
    PcuParameter, PcuParameterValue, PcuPort, PcuScalarType, PcuValueType, ALU_ADD, BINDING_LOAD,
    BINDING_LOAD_ELEMENT_ZERO, BINDING_STORE, COOPERATIVE_SCRATCHPAD, DERIVATIVE_X, RAY_TRACE,
    SYNC_BARRIER,
};
use pcu_dialects::spirv::dataflow::validate_invocation_index;
use pcu_dialects::spirv::error::PcuSpirvError;
use pcu_dialects::spirv::lower::lower_dispatch_to_spirv;
use pcu_dialects::spirv::numbers::{
    EXECUTION_MODE_LOCAL_SIZE, OP_BRANCH, OP_BRANCH_CONDITIONAL, OP_EXECUTION_MODE, OP_F_ADD,
    OP_F_MUL, OP_I_ADD, OP_LOOP_MERGE, OP_PHI, OP_STORE, OP_U_LESS_THAN, OP_U_LESS_THAN_EQUAL,
    PARALLEL_FLOAT_BOUND, SPIRV_MAGIC,
};
use pcu_dialects::spirv::sink::PcuSpirvFixedSink;
use pcu_dialects::spirv::types::{
    PcuSpirvCapability, PcuSpirvCapabilityCaps, PcuSpirvLoweringOptions, PcuSpirvModuleInfo,
    PcuSpirvVersion, RAY_TRACING_BIT, SHADER_BIT, V1_0, V1_3,
};
use pcu_dialects::spirv::validate::validate_dispatch_for_spirv;

/// A kernel without bindings whose map profile is not in question.
fn kernel(name: &str, logical_shape: [u32; 3], ops: Vec<PcuDispatchOp>) -> PcuDispatchKernelIr {
    PcuDispatchKernelIr {
        entry: PcuDispatchEntryPoint {
            name: name.to_string(),
            logical_shape,
        },
        bindings: Vec::new(),
        ports: Vec::new(),
        parameters: Vec::new(),
        ops,
        required_features: PcuDispatchFeatureCaps(0),
        map_profile: Ok(()),
    }
}

fn op(kind: PcuDispatchOpKind, support: u64) -> PcuDispatchOp {
    PcuDispatchOp {
        kind,
        support: PcuDispatchOpCaps(support),
    }
}

fn return_op() -> PcuDispatchOp {
    op(PcuDispatchOpKind::Return, 0)
}

fn data(operation: PcuDispatchDataOp) -> PcuDispatchOp {
    op(PcuDispatchOpKind::Data(operation), 0)
}

fn storage(binding: u32, access: PcuBindingAccess) -> PcuBinding {
    PcuBinding {
        set: 0,
        binding,
        storage: PcuBindingStorageClass::Storage,
        access,
        binding_type: PcuBindingType::Value(PcuValueType::float32()),
        well_formed: true,
    }
}

fn at(binding: u32) -> PcuBindingRef {
    PcuBindingRef { set: 0, binding }
}

fn load(result: u16, binding: u32, index: PcuDispatchIndex) -> PcuDispatchOp {
    data(PcuDispatchDataOp::BindingLoad {
        result: PcuDispatchValueId(result),
        binding: at(binding),
        index,
    })
}

fn constant(result: u16, bits: u32) -> PcuDispatchOp {
    data(PcuDispatchDataOp::Constant {
        result: PcuDispatchValueId(result),
        value: PcuParameterValue::F32(bits),
    })
}

fn alu(result: u16, operation: PcuDispatchAluOp, lhs: u16, rhs: u16) -> PcuDispatchOp {
    data(PcuDispatchDataOp::Alu {
        result: PcuDispatchValueId(result),
        op: operation,
        lhs: PcuDispatchValueId(lhs),
        rhs: PcuDispatchValueId(rhs),
    })
}

fn store(binding: u32, index: PcuDispatchIndex, value: u16) -> PcuDispatchOp {
    data(PcuDispatchDataOp::BindingStore {
        binding: at(binding),
        index,
        value: PcuDispatchValueId(value),
    })
}

fn has_opcode(words: &[u32], opcode: u16) -> bool {
    words.iter().any(|word| (*word & 0xffff) == u32::from(opcode))
}

fn execution_local_size(words: &[u32]) -> [u32; 3] {
    let mut offset = 5;
    while offset < words.len() {
        let instruction = words[offset];
        let word_count = (instruction >> 16) as usize;
        let opcode = u16::try_from(instruction & u32::from(u16::MAX))
            .expect("mask limits the opcode to 16 bits");
        assert!(word_count > 0, "malformed SPIR-V instruction");
        if opcode == OP_EXECUTION_MODE && words[offset + 2] == EXECUTION_MODE_LOCAL_SIZE {
            return [words[offset + 3], words[offset + 4], words[offset + 5]];
        }
        offset += word_count;
    }
    panic!("module has no LocalSize execution mode");
}

#[test]
fn element_zero_load_reports_its_specific_unsupported_capability() {
    assert_eq!(
        validate_invocation_index(PcuDispatchIndex::BindingElementZero),
        Err(PcuSpirvError::UnsupportedInstruction(
            PcuDispatchOpCaps(BINDING_LOAD).union(PcuDispatchOpCaps(BINDING_LOAD_ELEMENT_ZERO))
        ))
    );
}

#[test]
fn minimal_dispatch_lowers_to_spirv_header_and_compute_entry() {
    let kernel = kernel("main", [1, 1, 1], vec![return_op()]);
    let mut sink = PcuSpirvFixedSink::<64>::new();

    let info = lower_dispatch_to_spirv(
        &kernel,
        PcuSpirvLoweringOptions::minimal_shader(),
        &mut sink,
    )
    .expect("minimal return-only dispatch should lower");

    assert_eq!(sink.as_slice()[0], SPIRV_MAGIC);
    assert_eq!(info.bound, 5);
    assert_eq!(info.word_count, sink.len());
    assert!(sink.as_slice().contains(&0x6e69_616d));
    assert_eq!(execution_local_size(sink.as_slice()), [1, 1, 1]);
}

#[test]
fn unsupported_spirv_versions_fail_before_writing_words() {
    let kernel = kernel("main", [64, 1, 1], Vec::new());
    for version in [
        PcuSpirvVersion(0),
        PcuSpirvVersion(0x0002_0000),
        PcuSpirvVersion(0x0001_0700),
        PcuSpirvVersion(0x0001_0400),
        PcuSpirvVersion(0x0001_0500),
        PcuSpirvVersion(0x0001_0600),
        PcuSpirvVersion(0x0001_0001),
        PcuSpirvVersion(0x0101_0000),
    ] {
        let mut sink = PcuSpirvFixedSink::<64>::new();
        let result = lower_dispatch_to_spirv(
            &kernel,
            PcuSpirvLoweringOptions::minimal_shader().with_version(version),
            &mut sink,
        );
        assert_eq!(result, Err(PcuSpirvError::UnsupportedVersion(version)));
        assert!(sink.is_empty());
    }
}

#[test]
fn common_f32_profile_rejects_duplicate_binding_addresses() {
    let mut kernel = kernel(
        "main",
        [4, 1, 1],
        vec![
            constant(1, 1.0_f32.to_bits()),
            store(0, PcuDispatchIndex::InvocationId, 1),
            return_op(),
        ],
    );
    kernel.bindings = vec![
        storage(0, PcuBindingAccess::ReadWrite),
        storage(0, PcuBindingAccess::ReadWrite),
    ];
    kernel.map_profile = Err(PcuF32MapValidationError::DuplicateBinding);
    assert_eq!(
        validate_dispatch_for_spirv(&kernel, PcuSpirvLoweringOptions::minimal_shader()),
        Err(PcuSpirvError::InvalidBinding)
    );
}

#[test]
fn parallel_float_map_lowers_to_storage_buffer_compute() {
    let mut kernel = kernel(
        "main",
        [64, 1, 1],
        vec![
            op(PcuDispatchOpKind::Resource(PcuDispatchResourceOp::Load), 0),
            op(PcuDispatchOpKind::Resource(PcuDispatchResourceOp::Load), 0),
            op(PcuDispatchOpKind::Arithmetic(PcuDispatchAluOp::Mul), 0),
            op(PcuDispatchOpKind::Arithmetic(PcuDispatchAluOp::Add), ALU_ADD),
            op(PcuDispatchOpKind::ValueConstant, 0),
            op(PcuDispatchOpKind::Arithmetic(PcuDispatchAluOp::Add), ALU_ADD),
            op(PcuDispatchOpKind::Resource(PcuDispatchResourceOp::Store), 0),
            return_op(),
        ],
    );
    kernel.bindings = vec![
        storage(0, PcuBindingAccess::ReadOnly),
        storage(1, PcuBindingAccess::ReadOnly),
        storage(2, PcuBindingAccess::WriteOnly),
    ];
    let mut sink = PcuSpirvFixedSink::<256>::new();

    let info = lower_dispatch_to_spirv(
        &kernel,
        PcuSpirvLoweringOptions::minimal_shader(),
        &mut sink,
    )
    .expect("parallel float map should lower");

    assert_eq!(sink.as_slice()[0], SPIRV_MAGIC);
    assert_eq!(info.bound, PARALLEL_FLOAT_BOUND);
    assert_eq!(info.word_count, sink.len());
    assert_eq!(execution_local_size(sink.as_slice()), [1, 1, 1]);
    assert!(has_opcode(sink.as_slice(), OP_F_MUL));
    assert!(has_opcode(sink.as_slice(), OP_STORE));
}

/// `c[i] = a[i] * 2 + b[i] + 1`.
fn affine_map() -> PcuDispatchKernelIr {
    let mut kernel = kernel(
        "main",
        [64, 1, 1],
        vec![
            load(1, 0, PcuDispatchIndex::InvocationId),
            constant(2, 0x4000_0000),
            alu(3, PcuDispatchAluOp::Mul, 1, 2),
            load(4, 1, PcuDispatchIndex::InvocationId),
            alu(5, PcuDispatchAluOp::Add, 3, 4),
            constant(6, 0x3f80_0000),
            alu(7, PcuDispatchAluOp::Add, 5, 6),
            store(2, PcuDispatchIndex::InvocationId, 7),
            return_op(),
        ],
    );
    kernel.bindings = vec![
        storage(0, PcuBindingAccess::ReadOnly),
        storage(1, PcuBindingAccess::ReadOnly),
        storage(2, PcuBindingAccess::WriteOnly),
    ];
    kernel
}

#[test]
fn operandful_parallel_float_map_lowers_to_storage_buffer_compute() {
    let kernel = affine_map();
    let mut sink = PcuSpirvFixedSink::<256>::new();

    let info = lower_dispatch_to_spirv(
        &kernel,
        PcuSpirvLoweringOptions::minimal_shader(),
        &mut sink,
    )
    .expect("operandful parallel float map should lower");

    assert_eq!(sink.as_slice()[0], SPIRV_MAGIC);
    assert_eq!(info.bound, 38);
    assert_eq!(info.word_count, sink.len());
    assert_eq!(execution_local_size(sink.as_slice()), [1, 1, 1]);
    assert!(has_opcode(sink.as_slice(), OP_F_ADD));
}

/// `c[i] = a[i] + 1` over 2048 elements.
fn grid_stride_map() -> PcuDispatchKernelIr {
    let body = vec![
        load(1, 0, PcuDispatchIndex::GridStrideId),
        constant(2, 1.0_f32.to_bits()),
        alu(3, PcuDispatchAluOp::Add, 1, 2),
        store(1, PcuDispatchIndex::GridStrideId, 3),
    ];
    let mut kernel = kernel(
        "grid_stride",
        [250, 1, 1],
        vec![
            op(
                PcuDispatchOpKind::GridStrideLoop { extent: 2048, body },
                0,
            ),
            return_op(),
        ],
    );
    kernel.bindings = vec![
        storage(0, PcuBindingAccess::ReadOnly),
        storage(1, PcuBindingAccess::WriteOnly),
    ];
    kernel
}

#[test]
fn grid_stride_map_emits_structured_spirv_loop() {
    let kernel = grid_stride_map();
    let mut sink = PcuSpirvFixedSink::<512>::new();

    let info = lower_dispatch_to_spirv(
        &kernel,
        PcuSpirvLoweringOptions::minimal_shader(),
        &mut sink,
    )
    .expect("grid-stride map should lower");

    assert_eq!(info.word_count, sink.len());
    for opcode in [
        OP_PHI,
        OP_LOOP_MERGE,
        OP_BRANCH,
        OP_BRANCH_CONDITIONAL,
        OP_I_ADD,
        OP_U_LESS_THAN,
        OP_U_LESS_THAN_EQUAL,
    ] {
        assert!(
            has_opcode(sink.as_slice(), opcode),
            "missing SPIR-V opcode {opcode}"
        );
    }
}

#[test]
fn typed_f32_builder_program_lowers_to_spirv() {
    let mut kernel = kernel(
        "main",
        [64, 1, 1],
        vec![
            load(1, 0, PcuDispatchIndex::InvocationId),
            constant(2, 0.5_f32.to_bits()),
            alu(3, PcuDispatchAluOp::Add, 1, 2),
            store(1, PcuDispatchIndex::InvocationId, 3),
            return_op(),
        ],
    );
    kernel.bindings = vec![
        storage(0, PcuBindingAccess::ReadOnly),
        storage(1, PcuBindingAccess::WriteOnly),
    ];
    let mut sink = PcuSpirvFixedSink::<256>::new();
    lower_dispatch_to_spirv(
        &kernel,
        PcuSpirvLoweringOptions::minimal_shader(),
        &mut sink,
    )
    .unwrap();
    assert_eq!(sink.as_slice()[0], SPIRV_MAGIC);
}

#[test]
fn arithmetic_op_reports_unsupported_instruction() {
    let kernel = kernel(
        "main",
        [1, 1, 1],
        vec![op(
            PcuDispatchOpKind::Arithmetic(PcuDispatchAluOp::Add),
            ALU_ADD,
        )],
    );
    let mut sink = PcuSpirvFixedSink::<64>::new();

    let error = lower_dispatch_to_spirv(
        &kernel,
        PcuSpirvLoweringOptions::minimal_shader(),
        &mut sink,
    )
    .expect_err("add lowering is not implemented yet");

    assert_eq!(
        error,
        PcuSpirvError::UnsupportedInstruction(PcuDispatchOpCaps(ALU_ADD))
    );
    assert!(sink.is_empty());
}

fn tracing_kernel(valid: bool) -> PcuDispatchKernelIr {
    let mut kernel = kernel(
        "main",
        [1, 1, 1],
        vec![op(
            PcuDispatchOpKind::RayTrace(PcuDispatchRayTraceOp::TraceRay { valid }),
            RAY_TRACE,
        )],
    );
    kernel.bindings = vec![PcuBinding {
        set: 0,
        binding: 0,
        storage: PcuBindingStorageClass::Other,
        access: PcuBindingAccess::ReadOnly,
        binding_type: PcuBindingType::AccelerationStructure,
        well_formed: true,
    }];
    kernel
}

#[test]
fn ray_trace_requires_capability_before_instruction_lowering() {
    let kernel = tracing_kernel(true);
    let mut sink = PcuSpirvFixedSink::<64>::new();

    let error = lower_dispatch_to_spirv(
        &kernel,
        PcuSpirvLoweringOptions::minimal_shader(),
        &mut sink,
    )
    .expect_err("ray trace capability is not enabled");

    assert_eq!(
        error,
        PcuSpirvError::UnsupportedCapability(PcuSpirvCapability::RayTracing)
    );
    assert!(sink.is_empty());
}

#[test]
fn ray_trace_capability_still_reports_unimplemented_instruction() {
    let kernel = tracing_kernel(true);
    let options = PcuSpirvLoweringOptions::minimal_shader().with_capabilities(
        PcuSpirvCapabilityCaps(SHADER_BIT).union(PcuSpirvCapabilityCaps(RAY_TRACING_BIT)),
    );

    let error = validate_dispatch_for_spirv(&kernel, options)
        .expect_err("ray trace lowering is not implemented yet");

    assert_eq!(
        error,
        PcuSpirvError::UnsupportedInstruction(PcuDispatchOpCaps(RAY_TRACE))
    );
}

#[test]
fn unsupported_value_type_is_reported() {
    let mut kernel = kernel("main", [1, 1, 1], Vec::new());
    kernel.parameters = vec![PcuParameter {
        value_type: PcuValueType::float64(),
    }];

    let error = validate_dispatch_for_spirv(&kernel, PcuSpirvLoweringOptions::minimal_shader())
        .expect_err("f64 is not in the first SPIR-V lowering subset");

    assert_eq!(
        error,
        PcuSpirvError::UnsupportedValueType(PcuValueType::float64())
    );
}

#[test]
fn sink_capacity_failure_is_reported() {
    let kernel = kernel("main", [1, 1, 1], Vec::new());
    let mut sink = PcuSpirvFixedSink::<4>::new();

    let error = lower_dispatch_to_spirv(
        &kernel,
        PcuSpirvLoweringOptions::minimal_shader(),
        &mut sink,
    )
    .expect_err("four words cannot hold a SPIR-V header");

    assert_eq!(error, PcuSpirvError::SinkFull);
}

#[test]
fn derivative_coordinate_op_requires_derivative_capability() {
    let kernel = kernel(
        "main",
        [1, 1, 1],
        vec![op(PcuDispatchOpKind::Coordinate, DERIVATIVE_X)],
    );

    let error = validate_dispatch_for_spirv(&kernel, PcuSpirvLoweringOptions::minimal_shader())
        .expect_err("derivative capability is not enabled");

    assert_eq!(
        error,
        PcuSpirvError::UnsupportedCapability(PcuSpirvCapability::CoordinateDerivative)
    );
}

#[test]
fn minimal_module_is_emitted_word_for_word() {
    let kernel = kernel("main", [1, 1, 1], vec![return_op()]);
    let options = PcuSpirvLoweringOptions::minimal_shader()
        .with_version(PcuSpirvVersion(V1_3))
        .with_generator(7);
    let mut sink = PcuSpirvFixedSink::<64>::new();
    let info = lower_dispatch_to_spirv(&kernel, options, &mut sink).unwrap();
    assert_eq!(
        info,
        PcuSpirvModuleInfo {
            version: PcuSpirvVersion(V1_3),
            bound: 5,
            word_count: 35,
            capabilities: PcuSpirvCapabilityCaps(SHADER_BIT),
        }
    );
    assert_eq!(
        sink.as_slice(),
        &[
            SPIRV_MAGIC,
            0x0001_0300,
            7,
            5,
            0,
            // Capability Shader
            2 << 16 | 17,
            1,
            // MemoryModel Logical GLSL450
            3 << 16 | 14,
            0,
            1,
            // EntryPoint GLCompute %3 "main"
            5 << 16 | 15,
            5,
            3,
            0x6e69_616d,
            0,
            // ExecutionMode %3 LocalSize 1 1 1
            6 << 16 | 16,
            3,
            17,
            1,
            1,
            1,
            // %1 = TypeVoid, %2 = TypeFunction %1
            2 << 16 | 19,
            1,
            3 << 16 | 33,
            2,
            1,
            // %3 = Function, %4 = Label, Return, FunctionEnd
            5 << 16 | 54,
            1,
            3,
            0,
            2,
            2 << 16 | 248,
            4,
            1 << 16 | 253,
            1 << 16 | 56,
        ][..]
    );
}

/// The words that a sink of this capacity holds after a lowering run, and how the run ended.
fn lowered<const WORDS: usize>(
    kernel: &PcuDispatchKernelIr,
) -> (Vec<u32>, Result<PcuSpirvModuleInfo, PcuSpirvError>) {
    let mut sink = PcuSpirvFixedSink::<WORDS>::new();
    let answer = lower_dispatch_to_spirv(kernel, PcuSpirvLoweringOptions::default(), &mut sink);
    (sink.as_slice().to_vec(), answer)
}

#[test]
fn a_short_sink_holds_the_first_words_of_the_module() {
    for kernel in [affine_map(), grid_stride_map()] {
        let (whole, answer) = lowered::<1000>(&kernel);
        let info = answer.unwrap();
        assert_eq!(info.word_count, whole.len());
        assert_eq!(info.version, PcuSpirvVersion(V1_0));
        assert_eq!(
            lowered::<0>(&kernel),
            (whole[..0].to_vec(), Err(PcuSpirvError::SinkFull))
        );
        assert_eq!(
            lowered::<7>(&kernel),
            (whole[..7].to_vec(), Err(PcuSpirvError::SinkFull))
        );
        assert_eq!(
            lowered::<100>(&kernel),
            (whole[..100].to_vec(), Err(PcuSpirvError::SinkFull))
        );
    }
}

#[test]
fn every_identifier_of_a_module_is_below_its_bound() {
    let mut sink = PcuSpirvFixedSink::<512>::new();
    let info = lower_dispatch_to_spirv(
        &grid_stride_map(),
        PcuSpirvLoweringOptions::minimal_shader(),
        &mut sink,
    )
    .unwrap();
    let words = sink.as_slice();
    assert_eq!(words[3], info.bound);
    // Result identifiers of the typed instructions stand in their third word.
    let mut offset = 5;
    while offset < words.len() {
        let (length, opcode) = ((words[offset] >> 16) as usize, words[offset] & 0xffff);
        if matches!(opcode, 43 | 59 | 61 | 65 | 128..=136 | 167 | 169 | 176 | 178 | 245) {
            assert!(words[offset + 2] < info.bound);
        }
        offset += length;
    }
    assert_eq!(offset, words.len());
}

#[test]
fn signature_and_feature_refusals_name_what_is_missing() {
    let options = PcuSpirvLoweringOptions::minimal_shader();
    let refused = |kernel: &PcuDispatchKernelIr| validate_dispatch_for_spirv(kernel, options);

    let mut malformed = kernel("main", [1, 1, 1], Vec::new());
    malformed.bindings = vec![PcuBinding {
        well_formed: false,
        ..storage(0, PcuBindingAccess::ReadOnly)
    }];
    assert_eq!(refused(&malformed), Err(PcuSpirvError::InvalidBinding));

    let mut sampled = kernel("main", [1, 1, 1], Vec::new());
    sampled.bindings = vec![PcuBinding {
        binding_type: PcuBindingType::Image(PcuValueType::float32()),
        ..storage(0, PcuBindingAccess::ReadOnly)
    }];
    assert_eq!(
        refused(&sampled),
        Err(PcuSpirvError::UnsupportedCapability(
            PcuSpirvCapability::Image
        ))
    );

    let mut ported = kernel("main", [1, 1, 1], Vec::new());
    ported.ports = vec![PcuPort {
        value_type: PcuValueType::float64(),
    }];
    assert_eq!(
        refused(&ported),
        Err(PcuSpirvError::UnsupportedValueType(PcuValueType::float64()))
    );

    let mut cooperative = kernel("main", [1, 1, 1], Vec::new());
    cooperative.required_features = PcuDispatchFeatureCaps(COOPERATIVE_SCRATCHPAD);
    assert_eq!(
        refused(&cooperative),
        Err(PcuSpirvError::UnsupportedInstruction(PcuDispatchOpCaps(
            SYNC_BARRIER
        )))
    );

    let plain = kernel("main", [1, 1, 1], Vec::new());
    assert_eq!(
        validate_dispatch_for_spirv(
            &plain,
            options.with_capabilities(PcuSpirvCapabilityCaps::empty())
        ),
        Err(PcuSpirvError::UnsupportedCapability(
            PcuSpirvCapability::Shader
        ))
    );

    assert_eq!(
        validate_invocation_index(PcuDispatchIndex::GridStrideId),
        Err(PcuSpirvError::UnsupportedInstruction(PcuDispatchOpCaps(
            BINDING_LOAD | BINDING_STORE
        )))
    );
    assert_eq!(
        validate_invocation_index(PcuDispatchIndex::InvocationId),
        Ok(())
    );
}

#[test]
fn refused_map_profiles_keep_their_reason() {
    let options = PcuSpirvLoweringOptions::minimal_shader();
    let mut kernel = affine_map();
    kernel.map_profile = Err(PcuF32MapValidationError::MissingReturn);
    assert_eq!(
        validate_dispatch_for_spirv(&kernel, options),
        Err(PcuSpirvError::InvalidKernelSignature)
    );
    kernel.ops[2].support = PcuDispatchOpCaps(ALU_ADD);
    kernel.map_profile = Err(PcuF32MapValidationError::UnsupportedOperation(2));
    assert_eq!(
        validate_dispatch_for_spirv(&kernel, options),
        Err(PcuSpirvError::UnsupportedInstruction(PcuDispatchOpCaps(
            ALU_ADD
        )))
    );
}

#[test]
fn capability_sets_hold_what_was_put_in() {
    let both = PcuSpirvCapabilityCaps::shader().union(PcuSpirvCapabilityCaps::for_capability(
        PcuSpirvCapability::RayQuery,
    ));
    assert!(both.supports(PcuSpirvCapability::Shader));
    assert!(both.supports(PcuSpirvCapability::RayQuery));
    assert!(!both.supports(PcuSpirvCapability::Matrix));
    assert!(both.contains(PcuSpirvCapabilityCaps::shader()));
    assert!(!PcuSpirvCapabilityCaps::shader().contains(both));
    assert_eq!(both.bits(), 65);
    assert_eq!(PcuSpirvCapabilityCaps::empty().bits(), 0);
}

#[test]
fn errors_say_what_went_wrong() {
    let said = |error: PcuSpirvError| error.message();
    assert_eq!(
        said(PcuSpirvError::UnsupportedInstruction(PcuDispatchOpCaps(0x1f0a))),
        "unsupported SPIR-V lowering instruction caps 0x1f0a"
    );
    assert_eq!(
        said(PcuSpirvError::UnsupportedInstruction(PcuDispatchOpCaps(0))),
        "unsupported SPIR-V lowering instruction caps 0x0"
    );
    let types = [
        PcuValueType::float64(),
        PcuValueType::Vector { scalar: PcuScalarType::BF16, lanes: 4 },
        PcuValueType::Matrix { scalar: PcuScalarType::I4, rows: 10, cols: 255 },
    ];
    for value_type in types {
        assert_eq!(
            said(PcuSpirvError::UnsupportedValueType(value_type)),
            format!("unsupported SPIR-V lowering value type {value_type:?}")
        );
    }
    assert_eq!(
        said(PcuSpirvError::UnsupportedCapability(PcuSpirvCapability::CoordinateDerivative)),
        "SPIR-V lowering capability CoordinateDerivative is not enabled"
    );
    assert_eq!(
        said(PcuSpirvError::UnsupportedVersion(PcuSpirvVersion(0x0001_0600))),
        "unsupported SPIR-V version 0x00010600"
    );
    assert_eq!(
        said(PcuSpirvError::InvalidKernelSignature),
        "invalid PCU kernel signature for SPIR-V"
    );
    assert_eq!(said(PcuSpirvError::InvalidBinding), "invalid PCU binding for SPIR-V");
    assert_eq!(said(PcuSpirvError::SinkFull), "SPIR-V output sink is full");
    assert_eq!(said(PcuSpirvError::IdSpaceExhausted), "SPIR-V id space exhausted");
}
