//! What a lookup in the cache of prepared dispatches gives back.
use vstd::prelude::*;

use super::cache::{
    cache_keys, lemma_looked_up, looked_up, taken_in, ADD_DISPATCH_CACHE_CAPACITY,
};
use super::kernels::KernelModel;
use super::programs::{
    law_mul_topology_determines_kernel, law_topologies_tell_operations_apart,
    law_topology_determines_kernel,
};
use super::requests::{KeyModel, RequestModel, TensorDispatchCacheKey};
use crate::tensor::groups::{bounded_wf, mul_wf};

verus! {

/// The entries of a cache after several dispatches came in, one after the other.
pub open spec fn filled<D>(
    entries: Seq<(TensorDispatchCacheKey, D)>,
    arrivals: Seq<(TensorDispatchCacheKey, D)>,
) -> Seq<(TensorDispatchCacheKey, D)>
    decreases arrivals.len(),
{
    if arrivals.len() == 0 {
        entries
    } else {
        taken_in(filled(entries, arrivals.drop_last()), arrivals.last().0, arrivals.last().1)
    }
}

/// No dispatch came in while one with its key was there.
pub open spec fn arrive_fresh<D>(
    entries: Seq<(TensorDispatchCacheKey, D)>,
    arrivals: Seq<(TensorDispatchCacheKey, D)>,
) -> bool {
    forall|i: int|
        0 <= i < arrivals.len() ==> looked_up(
            filled(entries, arrivals.take(i)),
            (#[trigger] arrivals[i]).0@,
        ) is None
}

/// How many of the oldest entries have given way.
spec fn gone(count: int) -> int {
    if count <= ADD_DISPATCH_CACHE_CAPACITY {
        0
    } else {
        count - ADD_DISPATCH_CACHE_CAPACITY
    }
}

/// A cache holds the latest that came in, in order.
proof fn lemma_filled<D>(
    entries: Seq<(TensorDispatchCacheKey, D)>,
    arrivals: Seq<(TensorDispatchCacheKey, D)>,
)
    requires
        entries.len() <= ADD_DISPATCH_CACHE_CAPACITY,
    ensures
        filled(entries, arrivals) == (entries + arrivals).skip(
            gone((entries.len() + arrivals.len()) as int),
        ),
    decreases arrivals.len(),
{
    let all = entries + arrivals;
    if arrivals.len() == 0 {
        assert(all.skip(0) =~= entries);
    } else {
        let fewer = arrivals.drop_last();
        lemma_filled(entries, fewer);
        assert(filled(entries, arrivals) =~= all.skip(gone(all.len() as int)));
    }
}

/// What is not found has no entry.
proof fn lemma_not_found<D>(
    entries: Seq<(TensorDispatchCacheKey, D)>,
    key: KeyModel,
    at: int,
)
    requires
        looked_up(entries, key) is None,
        0 <= at < entries.len(),
    ensures
        entries[at].0@ != key,
    decreases entries.len(),
{
    if at > 0 {
        lemma_not_found(entries.drop_first(), key, at - 1);
        assert(entries.drop_first()[at - 1] == entries[at]);
    }
}

/// What is found has an entry.
proof fn lemma_found<D>(
    entries: Seq<(TensorDispatchCacheKey, D)>,
    key: KeyModel,
) -> (at: int)
    requires
        looked_up(entries, key) is Some,
    ensures
        0 <= at < entries.len(),
        entries[at].0@ == key,
        looked_up(entries, key) == Some(entries[at].1),
        forall|i: int| 0 <= i < at ==> (#[trigger] entries[i]).0@ != key,
    decreases entries.len(),
{
    if entries[0].0@ == key {
        0
    } else {
        let rest = entries.drop_first();
        let at = lemma_found(rest, key);
        assert forall|i: int| 0 <= i < at + 1 implies (#[trigger] entries[i]).0@ != key by {
            if i > 0 {
                assert(rest[i - 1] == entries[i]);
            }
        }
        at + 1
    }
}

/// A lookup gives back what was taken in under the key, as long as fewer dispatches came in later
/// than the cache has room for. After that the entry has given way: nothing is found under the key
/// but what came in under it later.
pub proof fn law_lookups_give_back_what_was_taken_in<D>(
    entries: Seq<(TensorDispatchCacheKey, D)>,
    arrivals: Seq<(TensorDispatchCacheKey, D)>,
    i: int,
)
    requires
        entries.len() <= ADD_DISPATCH_CACHE_CAPACITY,
        arrive_fresh(entries, arrivals),
        0 <= i < arrivals.len(),
    ensures
        arrivals.len() - i <= ADD_DISPATCH_CACHE_CAPACITY ==> looked_up(
            filled(entries, arrivals),
            arrivals[i].0@,
        ) == Some(arrivals[i].1),
        arrivals.len() - i > ADD_DISPATCH_CACHE_CAPACITY ==> (looked_up(
            filled(entries, arrivals),
            arrivals[i].0@,
        ) matches Some(prepared) ==> exists|j: int|
            i < j < arrivals.len() && (#[trigger] arrivals[j]).0@ == arrivals[i].0@
                && arrivals[j].1 == prepared),
{
    let key = arrivals[i].0@;
    let now = filled(entries, arrivals);
    let all = entries + arrivals;
    let first = gone(all.len() as int);
    lemma_filled(entries, arrivals);
    if arrivals.len() - i <= ADD_DISPATCH_CACHE_CAPACITY {
        let at = entries.len() + i - first;
        assert(now[at] == arrivals[i]);
        assert forall|p: int| 0 <= p < at implies (#[trigger] now[p]).0@ != key by {
            let earlier = filled(entries, arrivals.take(i));
            let before = entries + arrivals.take(i);
            let start = gone(before.len() as int);
            lemma_filled(entries, arrivals.take(i));
            assert(looked_up(earlier, arrivals[i].0@) is None);
            assert(start <= first);
            let q = p + first - start;
            assert(earlier[q] == before[p + first]);
            assert(before[p + first] == all[p + first]);
            lemma_not_found(earlier, key, q);
        }
        lemma_looked_up(now, key, at);
    } else if looked_up(now, key) is Some {
        let p = lemma_found(now, key);
        let j = p + first - entries.len();
        assert(all[p + first] == arrivals[j]);
        assert(i < j < arrivals.len());
        assert(arrivals[j].0@ == key);
    }
}

/// What a cache held before goes on being found until it has given way.
pub proof fn law_lookups_keep_what_was_there<D>(
    entries: Seq<(TensorDispatchCacheKey, D)>,
    arrivals: Seq<(TensorDispatchCacheKey, D)>,
    p: int,
)
    requires
        entries.len() <= ADD_DISPATCH_CACHE_CAPACITY,
        cache_keys(entries).no_duplicates(),
        0 <= p < entries.len(),
        entries.len() - p + arrivals.len() <= ADD_DISPATCH_CACHE_CAPACITY,
    ensures
        looked_up(filled(entries, arrivals), entries[p].0@) == Some(entries[p].1),
{
    let key = entries[p].0@;
    let now = filled(entries, arrivals);
    let all = entries + arrivals;
    let first = gone(all.len() as int);
    let keys = cache_keys(entries);
    lemma_filled(entries, arrivals);
    let at = p - first;
    assert(now[at] == entries[p]);
    assert forall|q: int| 0 <= q < at implies (#[trigger] now[q]).0@ != key by {
        assert(now[q] == entries[q + first]);
        assert(keys[q + first] == entries[q + first].0@ && keys[p] == key);
    }
    lemma_looked_up(now, key, at);
}

/// The group of a request stays within the bounds.
pub open spec fn within_bounds(request: RequestModel) -> bool {
    match request {
        RequestModel::Fixed { .. } => true,
        RequestModel::BoundedPointwise { group, .. } => bounded_wf(group),
        RequestModel::BoundedMul { group, .. } => mul_wf(group),
    }
}

/// Requests with the same key have the same kernel: no two kernels share an entry.
pub proof fn law_keys_determine_kernels(one: RequestModel, other: RequestModel)
    requires
        within_bounds(one),
        within_bounds(other),
        one.key() == other.key(),
    ensures
        one.kernel() == other.kernel(),
{
    match (one, other) {
        (
            RequestModel::BoundedPointwise { group, logical_count, scalar_mask },
            RequestModel::BoundedPointwise { group: theirs, .. },
        ) => {
            law_topology_determines_kernel(group, theirs, logical_count, scalar_mask);
        },
        (
            RequestModel::BoundedMul { group, logical_count, scalar_mask },
            RequestModel::BoundedMul { group: theirs, .. },
        ) => {
            law_mul_topology_determines_kernel(group, theirs, logical_count, scalar_mask);
        },
        (
            RequestModel::BoundedPointwise { group, .. },
            RequestModel::BoundedMul { group: theirs, .. },
        ) => {
            law_topologies_tell_operations_apart(group, theirs);
        },
        (
            RequestModel::BoundedMul { group, .. },
            RequestModel::BoundedPointwise { group: theirs, .. },
        ) => {
            law_topologies_tell_operations_apart(theirs, group);
        },
        _ => {},
    }
}

/// The kernel is that of a request with the key.
pub open spec fn kernel_of(request: RequestModel, key: KeyModel, kernel: KernelModel) -> bool {
    within_bounds(request) && request.key() == key && request.kernel() == Some(kernel)
}

/// Some request has the key and the kernel.
pub open spec fn requested(key: KeyModel, kernel: KernelModel) -> bool {
    exists|request: RequestModel| #[trigger] kernel_of(request, key, kernel)
}

/// Every prepared dispatch was compiled from the kernel of its key, where `source` says what a
/// dispatch was compiled from.
pub open spec fn faithful<D>(
    entries: Seq<(TensorDispatchCacheKey, D)>,
    source: spec_fn(D) -> KernelModel,
) -> bool {
    forall|p: int|
        0 <= p < entries.len() ==> requested(
            (#[trigger] entries[p]).0@,
            source(entries[p].1),
        )
}

/// A cache that takes in what was compiled for a request stays faithful.
pub proof fn law_taking_in_stays_faithful<D>(
    entries: Seq<(TensorDispatchCacheKey, D)>,
    source: spec_fn(D) -> KernelModel,
    request: RequestModel,
    key: TensorDispatchCacheKey,
    prepared: D,
)
    requires
        faithful(entries, source),
        kernel_of(request, key@, source(prepared)),
    ensures
        faithful(taken_in(entries, key, prepared), source),
{
    let now = taken_in(entries, key, prepared);
    let shift: int = if entries.len() == ADD_DISPATCH_CACHE_CAPACITY {
        1
    } else {
        0
    };
    assert(requested(key@, source(prepared)));
    assert forall|p: int| 0 <= p < now.len() implies requested(
        (#[trigger] now[p]).0@,
        source(now[p].1),
    ) by {
        if p < now.len() - 1 {
            assert(now[p] == entries[p + shift]);
        }
    }
}

/// The dispatch that a faithful cache gives for a request was compiled from the request's own
/// kernel.
pub proof fn law_cached_dispatches_run_the_requested_kernel<D>(
    entries: Seq<(TensorDispatchCacheKey, D)>,
    source: spec_fn(D) -> KernelModel,
    request: RequestModel,
)
    requires
        faithful(entries, source),
        within_bounds(request),
    ensures
        looked_up(entries, request.key()) matches Some(prepared) ==> request.kernel() == Some(
            source(prepared),
        ),
{
    if looked_up(entries, request.key()) is Some {
        let at = lemma_found(entries, request.key());
        assert(requested(entries[at].0@, source(entries[at].1)));
        let own = choose|own: RequestModel| #[trigger]
            kernel_of(own, entries[at].0@, source(entries[at].1));
        law_keys_determine_kernels(own, request);
    }
}

} // verus!
