//! The inline vectors that short tables are kept in.
//!
//! Each wraps one `SmallVec`, which keeps few items inside itself and more of them on the heap.
use smallvec::SmallVec;
use vstd::prelude::*;

use crate::rocm::sources::RocmTensorInput;
use crate::tensor::error::ValueId;

verus! {

/// How many nodes an execution keeps track of without a heap allocation.
pub const TENSOR_EXECUTION_INLINE_NODES: usize = 8;

/// The bytes of an expression shape, up to 64 of them inline.
#[verifier::external_body]
#[derive(Debug)]
pub struct TopologyBytes {
    bytes: SmallVec<[u8; 64]>,
}

/// The bytes that a `TopologyBytes` holds, in order.
pub uninterp spec fn held_bytes(bytes: TopologyBytes) -> Seq<u8>;

impl View for TopologyBytes {
    type V = Seq<u8>;

    open spec fn view(&self) -> Seq<u8> {
        held_bytes(*self)
    }
}

/// `SmallVec::new` makes a vector that holds nothing.
#[verifier::external_body]
pub(crate) fn no_bytes() -> (bytes: TopologyBytes)
    ensures
        held_bytes(bytes) == Seq::<u8>::empty(),
{
    TopologyBytes { bytes: SmallVec::new() }
}

/// `SmallVec::from_slice` makes a vector that holds the items of a slice, in order.
#[verifier::external_body]
pub(crate) fn bytes_from_slice(slice: &[u8]) -> (bytes: TopologyBytes)
    ensures
        held_bytes(bytes) == slice@,
{
    TopologyBytes { bytes: SmallVec::from_slice(slice) }
}

/// `SmallVec::push` appends one item to what the vector holds. It makes room up to the next power
/// of two, which has to be a size that can be allocated.
#[verifier::external_body]
pub(crate) fn push_byte(bytes: &mut TopologyBytes, byte: u8)
    requires
        held_bytes(*old(bytes)).len() < usize::MAX / 4,
    ensures
        held_bytes(*final(bytes)) == held_bytes(*old(bytes)).push(byte),
{
    bytes.bytes.push(byte)
}

/// `SmallVec::as_slice` shows what the vector holds, in order.
#[verifier::external_body]
pub(crate) fn byte_slice(bytes: &TopologyBytes) -> (slice: &[u8])
    ensures
        slice@ == held_bytes(*bytes),
{
    bytes.bytes.as_slice()
}

impl TopologyBytes {
    /// The bytes, in order.
    pub fn as_slice(&self) -> (slice: &[u8])
        ensures
            slice@ == self@,
    {
        byte_slice(self)
    }

    /// Another list of the same bytes.
    pub fn copied(&self) -> (copy: TopologyBytes)
        ensures
            copy@ == self@,
    {
        bytes_from_slice(byte_slice(self))
    }

    /// Whether two lists hold the same bytes.
    pub fn same(&self, other: &TopologyBytes) -> (answer: bool)
        ensures
            answer == (self@ == other@),
    {
        let own: &[u8] = byte_slice(self);
        let theirs: &[u8] = byte_slice(other);
        if own.len() != theirs.len() {
            return false;
        }
        let mut at: usize = 0;
        while at < own.len()
            invariant
                at <= own@.len(),
                own@.len() == theirs@.len(),
                own@ == self@,
                theirs@ == other@,
                forall|i: int| 0 <= i < at ==> own@[i] == theirs@[i],
            decreases own@.len() - at,
        {
            if own[at] != theirs[at] {
                return false;
            }
            at += 1;
        }
        assert(self@ =~= other@);
        true
    }
}

/// The remaining uses of the values of an execution.
#[verifier::external_body]
#[derive(Debug)]
pub struct ExecutionUseCounts {
    counts: SmallVec<[usize; TENSOR_EXECUTION_INLINE_NODES]>,
}

/// The counts that an `ExecutionUseCounts` holds, in order.
pub uninterp spec fn held_counts(counts: ExecutionUseCounts) -> Seq<usize>;

impl View for ExecutionUseCounts {
    type V = Seq<usize>;

    open spec fn view(&self) -> Seq<usize> {
        held_counts(*self)
    }
}

/// `SmallVec::from_slice` makes a vector that holds the items of a slice, in order.
#[verifier::external_body]
pub(crate) fn counts_from_slice(slice: &[usize]) -> (counts: ExecutionUseCounts)
    ensures
        held_counts(counts) == slice@,
{
    ExecutionUseCounts { counts: SmallVec::from_slice(slice) }
}

/// `SmallVec::as_slice` shows what the vector holds, in order.
#[verifier::external_body]
pub(crate) fn count_slice(counts: &ExecutionUseCounts) -> (slice: &[usize])
    ensures
        slice@ == held_counts(*counts),
{
    counts.counts.as_slice()
}

/// `SmallVec::as_mut_slice` gives the items, in order, for writing. One of them is replaced.
#[verifier::external_body]
pub(crate) fn set_count(counts: &mut ExecutionUseCounts, index: usize, count: usize)
    requires
        index < held_counts(*old(counts)).len(),
    ensures
        held_counts(*final(counts)) == held_counts(*old(counts)).update(index as int, count),
{
    counts.counts.as_mut_slice()[index] = count;
}

/// `SmallVec::spilled` tells whether the items are on the heap. More items than fit inline are.
/// Of fewer of them nothing is said: they may have been more once.
#[verifier::external_body]
pub(crate) fn counts_spilled(counts: &ExecutionUseCounts) -> (spilled: bool)
    ensures
        held_counts(*counts).len() > TENSOR_EXECUTION_INLINE_NODES ==> spilled,
{
    counts.counts.spilled()
}

impl ExecutionUseCounts {
    /// Whether the counts take a heap allocation.
    pub fn spilled(&self) -> (spilled: bool)
        ensures
            self@.len() > TENSOR_EXECUTION_INLINE_NODES ==> spilled,
    {
        counts_spilled(self)
    }

    /// The counts of a plan, before anything was read.
    pub fn of(slice: &[usize]) -> (counts: ExecutionUseCounts)
        ensures
            counts@ == slice@,
    {
        counts_from_slice(slice)
    }

    /// The counts, in order.
    pub fn as_slice(&self) -> (slice: &[usize])
        ensures
            slice@ == self@,
    {
        count_slice(self)
    }

    /// Replaces one count.
    pub fn set(&mut self, index: usize, count: usize)
        requires
            index < old(self)@.len(),
        ensures
            final(self)@ == old(self)@.update(index as int, count),
    {
        set_count(self, index, count)
    }
}

/// The resources of the values of an execution, by the handles that the caller gave them.
#[verifier::external_body]
#[derive(Debug)]
pub struct ExecutionResources {
    slots: SmallVec<[Option<usize>; TENSOR_EXECUTION_INLINE_NODES]>,
}

/// The slots that an `ExecutionResources` holds, in order.
pub uninterp spec fn held_slots(resources: ExecutionResources) -> Seq<Option<usize>>;

impl View for ExecutionResources {
    type V = Seq<Option<usize>>;

    open spec fn view(&self) -> Seq<Option<usize>> {
        held_slots(*self)
    }
}

/// `SmallVec::from_slice` makes a vector that holds the items of a slice, in order.
#[verifier::external_body]
pub(crate) fn slots_from_slice(slice: &[Option<usize>]) -> (resources: ExecutionResources)
    ensures
        held_slots(resources) == slice@,
{
    ExecutionResources { slots: SmallVec::from_slice(slice) }
}

/// `SmallVec::as_slice` shows what the vector holds, in order.
#[verifier::external_body]
pub(crate) fn slot_slice(resources: &ExecutionResources) -> (slice: &[Option<usize>])
    ensures
        slice@ == held_slots(*resources),
{
    resources.slots.as_slice()
}

/// `SmallVec::as_mut_slice` gives the items, in order, for writing. One of them is replaced.
#[verifier::external_body]
pub(crate) fn set_slot(resources: &mut ExecutionResources, index: usize, slot: Option<usize>)
    requires
        index < held_slots(*old(resources)).len(),
    ensures
        held_slots(*final(resources)) == held_slots(*old(resources)).update(index as int, slot),
{
    resources.slots.as_mut_slice()[index] = slot;
}

/// `SmallVec::spilled` tells whether the items are on the heap. More items than fit inline are.
/// Of fewer of them nothing is said: they may have been more once.
#[verifier::external_body]
pub(crate) fn slots_spilled(resources: &ExecutionResources) -> (spilled: bool)
    ensures
        held_slots(*resources).len() > TENSOR_EXECUTION_INLINE_NODES ==> spilled,
{
    resources.slots.spilled()
}

/// A slot without a resource for each of `node_count` nodes.
pub fn execution_resource_slots(node_count: usize) -> (resources: ExecutionResources)
    ensures
        resources@ == Seq::new(node_count as nat, |i: int| None::<usize>),
{
    let mut slots: Vec<Option<usize>> = Vec::with_capacity(node_count);
    while slots.len() < node_count
        invariant
            slots@.len() <= node_count,
            forall|i: int| 0 <= i < slots@.len() ==> (#[trigger] slots@[i]) is None,
        decreases node_count - slots@.len(),
    {
        slots.push(None);
    }
    assert(slots@ =~= Seq::new(node_count as nat, |i: int| None::<usize>));
    slots_from_slice(slots.as_slice())
}

impl ExecutionResources {
    /// Whether the slots take a heap allocation.
    pub fn spilled(&self) -> (spilled: bool)
        ensures
            self@.len() > TENSOR_EXECUTION_INLINE_NODES ==> spilled,
    {
        slots_spilled(self)
    }

    /// The slots, in order.
    pub fn as_slice(&self) -> (slice: &[Option<usize>])
        ensures
            slice@ == self@,
    {
        slot_slice(self)
    }

    /// Replaces one slot.
    pub fn set(&mut self, index: usize, slot: Option<usize>)
        requires
            index < old(self)@.len(),
        ensures
            final(self)@ == old(self)@.update(index as int, slot),
    {
        set_slot(self, index, slot)
    }
}

/// The tensors that the inputs of a plan read at one step, up to eight of them inline.
#[verifier::external_body]
#[derive(Debug)]
pub struct FeedbackInputs<'a> {
    inputs: SmallVec<[(ValueId, &'a RocmTensorInput); 8]>,
}

/// The inputs that a `FeedbackInputs` holds, in order, each with the tensor that it reads.
pub uninterp spec fn held_inputs(inputs: FeedbackInputs<'_>) -> Seq<(ValueId, &RocmTensorInput)>;

impl<'a> View for FeedbackInputs<'a> {
    type V = Seq<(ValueId, &'a RocmTensorInput)>;

    open spec fn view(&self) -> Seq<(ValueId, &'a RocmTensorInput)> {
        held_inputs(*self)
    }
}

/// `SmallVec::from_slice` makes a vector that holds the items of a slice, in order.
#[verifier::external_body]
pub(crate) fn inputs_from_slice<'a>(slice: &[(ValueId, &'a RocmTensorInput)]) -> (inputs:
    FeedbackInputs<'a>)
    ensures
        held_inputs(inputs) == slice@,
{
    FeedbackInputs { inputs: SmallVec::from_slice(slice) }
}

/// `SmallVec::as_slice` shows what the vector holds, in order.
#[verifier::external_body]
pub(crate) fn input_slice<'s, 'a>(inputs: &'s FeedbackInputs<'a>) -> (slice: &'s [(
    ValueId,
    &'a RocmTensorInput,
)])
    ensures
        slice@ == held_inputs(*inputs),
{
    inputs.inputs.as_slice()
}

impl<'a> FeedbackInputs<'a> {
    /// The inputs of a step, in order.
    pub fn of(slice: &[(ValueId, &'a RocmTensorInput)]) -> (inputs: FeedbackInputs<'a>)
        ensures
            inputs@ == slice@,
    {
        inputs_from_slice(slice)
    }

    /// The inputs, in order, each with the tensor that it reads.
    pub fn as_slice(&self) -> (slice: &[(ValueId, &'a RocmTensorInput)])
        ensures
            slice@ == self@,
    {
        input_slice(self)
    }
}

} // verus!
