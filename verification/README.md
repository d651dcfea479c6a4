# pcu_dialects

Verified dialects and backends for coprocessor kernels, written in Rust and proved with Verus.

- `tensor` is a small append-only graph language over dense row-major binary32 tensors: shape-checked
  construction, a reference evaluator, reverse-mode derivatives, generated backward graphs, execution
  plans with liveness and storage facts, opt-in rewriting and grouping of operations, and feedback
  schedules over rotating output banks.
- `rocm` prepares such graphs for a ROCm session: what the session can run, how values are laid out,
  which kernels are needed, and an executor that says step by step what the device has to do.
- `spirv` validates dispatch kernels and lowers them to SPIR-V words.
- `vm` is a small reference virtual machine over 32-bit words.
- `pcu` holds the kernel model that the backends share.

Elements are carried as bit patterns. The reference evaluator takes its arithmetic from a trait, so
what is proved of it is which operations it performs, on which operands and in which order.

## Laws

Beside the contract of every function, laws that span several of them are stated as public proof
functions named `law_*`. Among them: plans are closed under reads and in topological order; rewriting
and grouping keep requested outputs, and change no value where the target does not contract; a
generated backward graph names a derivative wherever the reference has one, is the same as the
reference but for rounding, and computes its very bits wherever scaling the loss is exact; the cache of
compiled dispatches gives back what it took in, and what it gives for a request runs its kernel;
the kernel of a group computes what the group stands for; an execution is refused for one reason only,
starts only once everything was checked, never runs out of operands, and hands out every requested
output that its node computed; storage that an execution failed on is never used again; tensors come
back from the device as they went; a lowered module is a sequence of whole instructions with separate
identifiers.

## Layout

- `src/`: the verified library.
- `tests/`: tests of the compiled library.
- `app/`: ordinary Rust around it: host floating point, a device behind a trait, and the loops that
  run prepared graphs on it.

`smallvec` keeps short tables inline. The wrappers in `src/rocm/small.rs` state what is taken from it
without proof.
