//! Lowering of one dispatch kernel into one module.
use vstd::prelude::*;

use super::dataflow::{has_f32_dataflow_ops, some_flow};
use super::error::PcuSpirvError;
use super::ids::{dataflow_ids, DataflowIds};
use super::numbers::{
    DATAFLOW_GLOBAL_INVOCATION_ID_VAR_ID, DEFAULT_BOUND, PARALLEL_FLOAT_BOUND,
    PARALLEL_FLOAT_GLOBAL_INVOCATION_ID_VAR_ID,
};
use super::sink::PcuSpirvSink;
use super::types::{
    PcuSpirvCapability, PcuSpirvCapabilityCaps, PcuSpirvLoweringOptions, PcuSpirvModuleInfo,
};
use super::validate::{
    is_legacy_parallel_float_map_kernel, kernel_fault, parallel_map, validate_dispatch_for_spirv,
};
use super::words::{entry_fits, module_bound, module_interface, module_start, module_words};
use super::writer::{literal_string_word_count, start_of, took, PcuSpirvWriter};
use crate::pcu::ir::PcuDispatchKernelIr;

verus! {

/// The summary of the module that a kernel lowers to.
pub open spec fn summarizes(
    info: PcuSpirvModuleInfo,
    kernel: PcuDispatchKernelIr,
    options: PcuSpirvLoweringOptions,
) -> bool {
    let words = module_words(kernel, options);
    &&& info.version == options.version
    &&& info.bound == module_bound(kernel)
    &&& info.capabilities == PcuSpirvCapabilityCaps::only(PcuSpirvCapability::Shader)
    &&& words.len() <= usize::MAX ==> info.word_count == words.len()
}

/// What lowering a kernel answers, and what it leaves in the sink: nothing of a kernel that is
/// refused, and of a module that the sink cannot hold as much as it takes.
pub open spec fn lowering_outcome<S: PcuSpirvSink>(
    kernel: PcuDispatchKernelIr,
    options: PcuSpirvLoweringOptions,
    before: S,
    after: S,
    answer: Result<PcuSpirvModuleInfo, PcuSpirvError>,
) -> bool {
    let start = start_of(before);
    if kernel_fault(kernel, options) is Some {
        &&& answer == Err::<PcuSpirvModuleInfo, PcuSpirvError>(
            kernel_fault(kernel, options).unwrap(),
        )
        &&& after == before
    } else if module_bound(kernel) > u32::MAX {
        &&& answer == Err::<PcuSpirvModuleInfo, PcuSpirvError>(PcuSpirvError::IdSpaceExhausted)
        &&& after == before
    } else if !entry_fits(kernel) {
        let words = module_start(kernel, options).words;
        &&& took(start, words, after)
        &&& answer == Err::<PcuSpirvModuleInfo, PcuSpirvError>(
            if words.len() <= start.room {
                PcuSpirvError::IdSpaceExhausted
            } else {
                start.failure
            },
        )
    } else {
        let words = module_words(kernel, options);
        &&& took(start, words, after)
        &&& if words.len() <= start.room {
            answer matches Ok(info) && summarizes(info, kernel, options)
        } else {
            answer == Err::<PcuSpirvModuleInfo, PcuSpirvError>(start.failure)
        }
    }
}

/// The module that a kernel lowers to, apart from its words.
enum ModuleKind {
    Flow(DataflowIds),
    Parallel,
    Minimal,
}

impl ModuleKind {
    spec fn fits(self, kernel: PcuDispatchKernelIr) -> bool {
        match self {
            ModuleKind::Flow(ids) => some_flow(kernel.ops@) && ids.belong_to(kernel),
            ModuleKind::Parallel => !some_flow(kernel.ops@) && parallel_map(kernel),
            ModuleKind::Minimal => !some_flow(kernel.ops@) && !parallel_map(kernel),
        }
    }
}

fn module_kind(kernel: &PcuDispatchKernelIr) -> (answer: Result<ModuleKind, PcuSpirvError>)
    ensures
        match answer {
            Ok(kind) => kind.fits(*kernel) && module_bound(*kernel) <= u32::MAX,
            Err(e) => module_bound(*kernel) > u32::MAX && e == PcuSpirvError::IdSpaceExhausted,
        },
{
    if has_f32_dataflow_ops(kernel) {
        let ids: DataflowIds = dataflow_ids(kernel)?;
        return Ok(ModuleKind::Flow(ids));
    }
    if is_legacy_parallel_float_map_kernel(kernel) {
        return Ok(ModuleKind::Parallel);
    }
    Ok(ModuleKind::Minimal)
}

/// The variables that the entry point of a kind of module uses.
fn interface_of(kind: &ModuleKind, Ghost(kernel): Ghost<PcuDispatchKernelIr>) -> (interface: Vec<u32>)
    requires
        kind.fits(kernel),
    ensures
        interface@ == module_interface(kernel),
{
    let mut interface: Vec<u32> = Vec::new();
    match kind {
        ModuleKind::Flow(_) => {
            interface.push(DATAFLOW_GLOBAL_INVOCATION_ID_VAR_ID);
        },
        ModuleKind::Parallel => {
            interface.push(PARALLEL_FLOAT_GLOBAL_INVOCATION_ID_VAR_ID);
        },
        ModuleKind::Minimal => {},
    }
    assert(interface@ =~= module_interface(kernel));
    interface
}

/// Streams the module of an admitted kernel.
fn emit_module<S: PcuSpirvSink>(
    kernel: &PcuDispatchKernelIr,
    options: PcuSpirvLoweringOptions,
    kind: ModuleKind,
    sink: &mut S,
) -> (answer: Result<PcuSpirvModuleInfo, PcuSpirvError>)
    requires
        kind.fits(*kernel),
        module_bound(*kernel) <= u32::MAX,
        kernel_fault(*kernel, options) is None,
    ensures
        lowering_outcome(*kernel, options, *old(sink), *final(sink), answer),
{
    let bound: u32 = match &kind {
        ModuleKind::Flow(ids) => ids.bound,
        ModuleKind::Parallel => PARALLEL_FLOAT_BOUND,
        ModuleKind::Minimal => DEFAULT_BOUND,
    };
    let mut writer: PcuSpirvWriter = PcuSpirvWriter::new(sink);
    writer.push_header(sink, options, bound);
    writer.push_model(sink);
    let name: &str = kernel.entry.name.as_str();
    let interface: Vec<u32> = interface_of(&kind, Ghost(*kernel));
    let count: usize = 3 + literal_string_word_count(name) + interface.len();
    if count as u64 > 0xffff_ffff {
        return match writer.failed {
            Some(e) => Err(e),
            None => Err(PcuSpirvError::IdSpaceExhausted),
        };
    }
    writer.push_entry_point_with_interface(sink, name.as_bytes(), interface.as_slice());
    match kind {
        ModuleKind::Flow(ids) => {
            proof {
                let at = choose|at: int|
                    0 <= at < kernel.ops@.len() && super::dataflow::flows(
                        #[trigger] kernel.ops@[at],
                    );
                assert(kernel.ops@.len() > 0);
            }
            writer.push_flow_rest(sink, kernel, ids);
        },
        ModuleKind::Parallel => {
            writer.push_parallel_rest(sink);
        },
        ModuleKind::Minimal => {
            writer.push_minimal_rest(sink);
        },
    }
    match writer.failed {
        Some(e) => Err(e),
        None => Ok(
            PcuSpirvModuleInfo {
                version: options.version,
                bound,
                word_count: writer.word_count,
                capabilities: PcuSpirvCapabilityCaps::shader(),
            },
        ),
    }
}

/// Lowers one dispatch kernel into a module.
///
/// Kernels that only return become an empty compute entry point; the known elementwise kernel and
/// the admitted data-flow kernels become storage-buffer compute. Everything else is refused with a
/// precise error before any word is written.
///
/// # Errors
///
/// A validation, unsupported capability, unsupported instruction, or sink failure.
pub fn lower_dispatch_to_spirv<S: PcuSpirvSink>(
    kernel: &PcuDispatchKernelIr,
    options: PcuSpirvLoweringOptions,
    sink: &mut S,
) -> (answer: Result<PcuSpirvModuleInfo, PcuSpirvError>)
    requires
        kernel.wf(),
    ensures
        lowering_outcome(*kernel, options, *old(sink), *final(sink), answer),
{
    validate_dispatch_for_spirv(kernel, options)?;
    let kind: ModuleKind = module_kind(kernel)?;
    emit_module(kernel, options, kind, sink)
}

} // verus!
