//! The bounded cache of prepared dispatches, and what prewarming it reports.
use std::collections::VecDeque;
use vstd::prelude::*;

use super::error::RocmTensorExecutionError;
use super::kernels::RocmKernel;
use super::requests::{
    request_models, KeyModel, RequestModel, TensorDispatchCacheKey, TensorDispatchRequest,
};

verus! {

/// How many prepared dispatches a session keeps.
pub const ADD_DISPATCH_CACHE_CAPACITY: usize = 32;

/// What admitting a dispatch did.
#[derive(Clone, Copy, Debug, PartialEq, Eq, Structural)]
pub struct TensorDispatchCacheAdmission {
    pub compiled: bool,
    pub evicted: bool,
}

/// The prepared dispatches of a session, oldest first. The oldest one gives way.
#[derive(Debug)]
pub struct TensorDispatchCache<D> {
    pub entries: VecDeque<(TensorDispatchCacheKey, D)>,
}

/// The keys of a cache, oldest first.
pub open spec fn cache_keys<D>(entries: Seq<(TensorDispatchCacheKey, D)>) -> Seq<KeyModel> {
    entries.map_values(|entry: (TensorDispatchCacheKey, D)| entry.0@)
}

/// The keys after a new one came in.
pub open spec fn admitted(keys: Seq<KeyModel>, key: KeyModel) -> Seq<KeyModel> {
    if keys.len() == ADD_DISPATCH_CACHE_CAPACITY {
        keys.drop_first().push(key)
    } else {
        keys.push(key)
    }
}

/// The entries after a freshly compiled dispatch came in. In a full cache the oldest one gives way,
/// and the others keep what they hold.
pub open spec fn taken_in<D>(
    entries: Seq<(TensorDispatchCacheKey, D)>,
    key: TensorDispatchCacheKey,
    prepared: D,
) -> Seq<(TensorDispatchCacheKey, D)> {
    if entries.len() == ADD_DISPATCH_CACHE_CAPACITY {
        entries.drop_first().push((key, prepared))
    } else {
        entries.push((key, prepared))
    }
}

/// The prepared dispatch with this key.
pub open spec fn looked_up<D>(
    entries: Seq<(TensorDispatchCacheKey, D)>,
    key: KeyModel,
) -> Option<D>
    decreases entries.len(),
{
    if entries.len() == 0 {
        None
    } else if entries[0].0@ == key {
        Some(entries[0].1)
    } else {
        looked_up(entries.drop_first(), key)
    }
}

/// A lookup gives the first entry with the key.
pub proof fn lemma_looked_up<D>(
    entries: Seq<(TensorDispatchCacheKey, D)>,
    key: KeyModel,
    at: int,
)
    requires
        0 <= at <= entries.len(),
        forall|i: int| 0 <= i < at ==> (#[trigger] entries[i]).0@ != key,
        at < entries.len() ==> entries[at].0@ == key,
    ensures
        looked_up(entries, key) == if at < entries.len() {
            Some(entries[at].1)
        } else {
            None
        },
    decreases entries.len(),
{
    if at > 0 {
        let rest = entries.drop_first();
        assert(entries[0].0@ != key);
        assert forall|i: int| 0 <= i < at - 1 implies (#[trigger] rest[i]).0@ != key by {
            assert(rest[i] == entries[i + 1]);
        }
        if at < entries.len() {
            assert(rest[at - 1] == entries[at]);
        }
        lemma_looked_up(rest, key, at - 1);
    }
}

/// What has to be compiled before a dispatch can run.
#[derive(Debug)]
pub struct RocmCompilation {
    pub key: TensorDispatchCacheKey,
    pub kernel: RocmKernel,
    /// The kernel is made for one expression.
    pub dynamic: bool,
}

impl<D> TensorDispatchCache<D> {
    /// The keys, oldest first.
    pub open spec fn keys(&self) -> Seq<KeyModel> {
        cache_keys(self.entries@)
    }

    /// The cache stays within its capacity and holds nothing twice.
    pub open spec fn wf(&self) -> bool {
        self.entries@.len() <= ADD_DISPATCH_CACHE_CAPACITY && self.keys().no_duplicates()
    }

    /// An empty cache.
    pub fn new() -> (cache: TensorDispatchCache<D>)
        ensures
            cache.wf(),
            cache.entries@.len() == 0,
    {
        let cache: TensorDispatchCache<D> = TensorDispatchCache { entries: VecDeque::new() };
        assert(cache.keys().no_duplicates());
        cache
    }

    /// Where a dispatch stands.
    pub fn position(&self, key: &TensorDispatchCacheKey) -> (position: Option<usize>)
        ensures
            match position {
                Some(p) => p < self.entries@.len() && self.keys()[p as int] == key@ && forall|i: int|
                    0 <= i < p ==> #[trigger] self.keys()[i] != key@,
                None => !self.keys().contains(key@),
            },
    {
        let mut at: usize = 0;
        while at < self.entries.len()
            invariant
                at <= self.entries@.len(),
                forall|i: int| 0 <= i < at ==> #[trigger] self.keys()[i] != key@,
            decreases self.entries@.len() - at,
        {
            let entry: &(TensorDispatchCacheKey, D) = &self.entries[at];
            assert(self.keys()[at as int] == entry.0@);
            if entry.0.same(key) {
                return Some(at);
            }
            at += 1;
        }
        None
    }

    /// The prepared dispatch with this key.
    pub fn dispatch(&self, key: &TensorDispatchCacheKey) -> (found: Option<&D>)
        ensures
            match found {
                Some(prepared) => looked_up(self.entries@, key@) == Some(*prepared)
                    && self.keys().contains(key@),
                None => looked_up(self.entries@, key@) is None && !self.keys().contains(key@),
            },
    {
        match self.position(key) {
            Some(at) => {
                let entry: &(TensorDispatchCacheKey, D) = &self.entries[at];
                proof {
                    assert forall|i: int| 0 <= i < at implies (#[trigger] self.entries@[i]).0@
                        != key@ by {
                        assert(self.keys()[i] == self.entries@[i].0@);
                    }
                    assert(self.keys()[at as int] == self.entries@[at as int].0@);
                    lemma_looked_up(self.entries@, key@, at as int);
                }
                Some(&entry.1)
            },
            None => {
                proof {
                    assert forall|i: int| 0 <= i < self.entries@.len() implies (
                    #[trigger] self.entries@[i]).0@ != key@ by {
                        assert(self.keys()[i] == self.entries@[i].0@);
                    }
                    lemma_looked_up(self.entries@, key@, self.entries@.len() as int);
                }
                None
            },
        }
    }

    /// What has to be compiled before the requested dispatch can run: nothing if it is cached.
    ///
    /// # Errors
    ///
    /// `SizeOverflow` if its kernel cannot be built.
    pub fn required_compilation(&self, request: &TensorDispatchRequest<'_>) -> (answer: Result<
        Option<RocmCompilation>,
        RocmTensorExecutionError,
    >)
        requires
            request.wf(),
        ensures
            match answer {
                Ok(None) => self.keys().contains(request@.key()),
                Ok(Some(compilation)) => {
                    &&& !self.keys().contains(request@.key())
                    &&& compilation.key@ == request@.key()
                    &&& request@.kernel() == Some(compilation.kernel@)
                    &&& compilation.dynamic == request@.is_dynamic()
                },
                Err(error) => {
                    &&& !self.keys().contains(request@.key())
                    &&& request@.kernel() is None
                    &&& error == RocmTensorExecutionError::SizeOverflow
                },
            },
    {
        let key: TensorDispatchCacheKey = request.key();
        if let Some(at) = self.position(&key) {
            assert(self.keys()[at as int] == request@.key());
            return Ok(None);
        }
        match request.kernel() {
            Ok(kernel) => Ok(
                Some(RocmCompilation { key, kernel, dynamic: request.is_dynamic() }),
            ),
            Err(error) => Err(error),
        }
    }

    /// Takes a freshly compiled dispatch in. In a full cache the oldest one gives way.
    pub fn take_in(&mut self, key: TensorDispatchCacheKey, prepared: D) -> (admission:
        TensorDispatchCacheAdmission)
        requires
            old(self).wf(),
            !old(self).keys().contains(key@),
        ensures
            final(self).wf(),
            final(self).keys() == admitted(old(self).keys(), key@),
            final(self).entries@ == taken_in(old(self).entries@, key, prepared),
            admission == (TensorDispatchCacheAdmission {
                compiled: true,
                evicted: old(self).entries@.len() == ADD_DISPATCH_CACHE_CAPACITY,
            }),
    {
        let ghost before = self.entries@;
        let ghost kept = if before.len() == ADD_DISPATCH_CACHE_CAPACITY {
            before.drop_first()
        } else {
            before
        };
        let evicted: bool = self.entries.len() == ADD_DISPATCH_CACHE_CAPACITY;
        if evicted {
            let _ = self.entries.pop_front();
        }
        assert(self.entries@ =~= kept);
        self.entries.push_back((key, prepared));
        proof {
            let keys = cache_keys(before);
            let rest = cache_keys(kept);
            assert(self.keys() =~= rest.push(key@));
            assert(self.keys() =~= admitted(keys, key@));
            assert forall|i: int, j: int|
                0 <= i < self.keys().len() && 0 <= j < self.keys().len() && i != j implies self.keys()[i]
                != self.keys()[j] by {
                let shift: int = if evicted {
                    1
                } else {
                    0
                };
                if i < rest.len() {
                    assert(rest[i] == keys[i + shift]);
                }
                if j < rest.len() {
                    assert(rest[j] == keys[j + shift]);
                }
            }
        }
        TensorDispatchCacheAdmission { compiled: true, evicted }
    }

    /// Other keys that are the same as those of the cache, oldest first.
    pub fn copied_keys(&self) -> (keys: Vec<TensorDispatchCacheKey>)
        ensures
            key_models(keys@) == self.keys(),
    {
        let mut keys: Vec<TensorDispatchCacheKey> = Vec::with_capacity(self.entries.len());
        while keys.len() < self.entries.len()
            invariant
                keys@.len() <= self.entries@.len(),
                forall|i: int|
                    0 <= i < keys@.len() ==> (#[trigger] keys@[i])@ == self.keys()[i],
            decreases self.entries@.len() - keys@.len(),
        {
            let entry: &(TensorDispatchCacheKey, D) = &self.entries[keys.len()];
            let key: TensorDispatchCacheKey = entry.0.copied();
            assert(self.keys()[keys@.len() as int] == key@);
            keys.push(key);
        }
        assert(key_models(keys@) =~= self.keys());
        keys
    }
}

/// The models of a list of keys.
pub open spec fn key_models(keys: Seq<TensorDispatchCacheKey>) -> Seq<KeyModel> {
    keys.map_values(|key: TensorDispatchCacheKey| key@)
}

/// How many of the requested keys are cached.
pub open spec fn retained(requested: Seq<KeyModel>, cached: Seq<KeyModel>) -> nat
    decreases requested.len(),
{
    if requested.len() == 0 {
        0
    } else {
        retained(requested.drop_last(), cached) + if cached.contains(requested.last()) {
            1nat
        } else {
            0nat
        }
    }
}

fn holds_key(keys: &[TensorDispatchCacheKey], key: &TensorDispatchCacheKey) -> (found: bool)
    ensures
        found == key_models(keys@).contains(key@),
{
    let ghost models = key_models(keys@);
    let mut at: usize = 0;
    while at < keys.len()
        invariant
            at <= keys@.len(),
            models == key_models(keys@),
            forall|i: int| 0 <= i < at ==> #[trigger] models[i] != key@,
        decreases keys@.len() - at,
    {
        assert(models[at as int] == keys@[at as int]@);
        if keys[at].same(key) {
            return true;
        }
        at += 1;
    }
    false
}

proof fn lemma_retained_bound(requested: Seq<KeyModel>, cached: Seq<KeyModel>)
    ensures
        retained(requested, cached) <= requested.len(),
    decreases requested.len(),
{
    if requested.len() > 0 {
        lemma_retained_bound(requested.drop_last(), cached);
    }
}

/// How many of the requested keys are cached.
pub fn retained_requested_key_count(
    requested: &[TensorDispatchCacheKey],
    cached: &[TensorDispatchCacheKey],
) -> (count: usize)
    ensures
        count == retained(key_models(requested@), key_models(cached@)),
{
    let ghost models = key_models(requested@);
    let mut count: usize = 0;
    let mut at: usize = 0;
    assert(models.take(0).len() == 0);
    while at < requested.len()
        invariant
            at <= requested@.len(),
            count <= at,
            models == key_models(requested@),
            count == retained(models.take(at as int), key_models(cached@)),
        decreases requested@.len() - at,
    {
        proof {
            assert(models.take(at + 1).drop_last() =~= models.take(at as int));
            assert(models.take(at + 1).last() == requested@[at as int]@);
        }
        if holds_key(cached, &requested[at]) {
            count += 1;
        }
        at += 1;
    }
    assert(models.take(at as int) =~= models);
    count
}

/// What prewarming a prepared graph did.
///
/// Other entries can take up room in the cache, so that a graph with few keys may still not have
/// all of them retained.
#[derive(Clone, Copy, Debug, PartialEq, Eq, Structural)]
pub struct RocmTensorPrewarmReport {
    /// Number of different dispatch keys that the graph needs.
    pub requested_keys: usize,
    /// Number of keys that were compiled and inserted.
    pub compiled_keys: usize,
    /// Number of keys that were already cached when visited.
    pub cache_hits: usize,
    /// Number of entries that gave way.
    pub evictions: usize,
    /// Number of the graph's keys that are cached at the end.
    pub retained_keys: usize,
}

/// What visiting a key does to the keys of a cache and to the counts of compilations, hits and
/// evictions.
pub open spec fn visited(
    state: (Seq<KeyModel>, nat, nat, nat),
    key: KeyModel,
) -> (Seq<KeyModel>, nat, nat, nat) {
    if state.0.contains(key) {
        (state.0, state.1, state.2 + 1, state.3)
    } else {
        (
            admitted(state.0, key),
            state.1 + 1,
            state.2,
            state.3 + if state.0.len() == ADD_DISPATCH_CACHE_CAPACITY {
                1nat
            } else {
                0nat
            },
        )
    }
}

/// What prewarming does when everything compiles.
pub open spec fn prewarmed(keys: Seq<KeyModel>, requests: Seq<RequestModel>) -> (
    Seq<KeyModel>,
    nat,
    nat,
    nat,
)
    decreases requests.len(),
{
    if requests.len() == 0 {
        (keys, 0, 0, 0)
    } else {
        visited(prewarmed(keys, requests.drop_last()), requests.last().key())
    }
}

/// A prewarming pass over the requests of a prepared graph.
#[derive(Debug)]
pub struct RocmPrewarm {
    pub report: RocmTensorPrewarmReport,
    /// How many requests were visited.
    pub visited: usize,
}

impl RocmPrewarm {
    /// Every visited request was compiled or found, and only a compilation evicts.
    pub open spec fn wf(&self) -> bool {
        &&& self.report.compiled_keys + self.report.cache_hits == self.visited
        &&& self.visited <= self.report.requested_keys
        &&& self.report.evictions <= self.report.compiled_keys
    }

    /// The counts so far, and the keys of the cache, are what the visited requests made of a
    /// cache with the keys `start`.
    pub open spec fn accounts(
        &self,
        start: Seq<KeyModel>,
        requests: Seq<RequestModel>,
        keys: Seq<KeyModel>,
    ) -> bool {
        &&& self.visited <= requests.len()
        &&& prewarmed(start, requests.take(self.visited as int)) == (
            keys,
            self.report.compiled_keys as nat,
            self.report.cache_hits as nat,
            self.report.evictions as nat,
        )
    }

    /// Starts a pass over these requests.
    pub fn begin(requests: &[TensorDispatchRequest<'_>]) -> (pass: RocmPrewarm)
        ensures
            pass.wf(),
            pass.visited == 0,
            pass.report == (RocmTensorPrewarmReport {
                requested_keys: requests@.len() as usize,
                compiled_keys: 0,
                cache_hits: 0,
                evictions: 0,
                retained_keys: 0,
            }),
            forall|keys: Seq<KeyModel>|
                #[trigger] pass.accounts(keys, request_models(requests@), keys),
    {
        assert(request_models(requests@).take(0).len() == 0);
        RocmPrewarm {
            report: RocmTensorPrewarmReport {
                requested_keys: requests.len(),
                compiled_keys: 0,
                cache_hits: 0,
                evictions: 0,
                retained_keys: 0,
            },
            visited: 0,
        }
    }

    /// Passes over requests that are cached, up to one that has to be compiled. There is none
    /// left when nothing comes back.
    ///
    /// # Errors
    ///
    /// `SizeOverflow` if the kernel of the next request cannot be built.
    pub fn next<D>(
        &mut self,
        requests: &[TensorDispatchRequest<'_>],
        cache: &TensorDispatchCache<D>,
    ) -> (answer: Result<Option<RocmCompilation>, RocmTensorExecutionError>)
        requires
            forall|i: int| 0 <= i < requests@.len() ==> (#[trigger] requests@[i]).wf(),
            old(self).wf(),
            old(self).report.requested_keys == requests@.len(),
        ensures
            final(self).wf(),
            final(self).visited >= old(self).visited,
            forall|i: int|
                old(self).visited <= i < final(self).visited ==> cache.keys().contains(
                    (#[trigger] requests@[i])@.key(),
                ),
            final(self).report == (RocmTensorPrewarmReport {
                cache_hits: (old(self).report.cache_hits + final(self).visited
                    - old(self).visited) as usize,
                ..old(self).report
            }),
            forall|start: Seq<KeyModel>|
                old(self).accounts(start, request_models(requests@), cache.keys())
                    ==> #[trigger] final(self).accounts(
                    start,
                    request_models(requests@),
                    cache.keys(),
                ),
            match answer {
                Ok(None) => final(self).visited == requests@.len(),
                Ok(Some(compilation)) => {
                    &&& final(self).visited < requests@.len()
                    &&& !cache.keys().contains(requests@[final(self).visited as int]@.key())
                    &&& compilation.key@ == requests@[final(self).visited as int]@.key()
                    &&& requests@[final(self).visited as int]@.kernel() == Some(
                        compilation.kernel@,
                    )
                    &&& compilation.dynamic
                        == requests@[final(self).visited as int]@.is_dynamic()
                },
                Err(error) => {
                    &&& final(self).visited < requests@.len()
                    &&& !cache.keys().contains(requests@[final(self).visited as int]@.key())
                    &&& requests@[final(self).visited as int]@.kernel() is None
                    &&& error == RocmTensorExecutionError::SizeOverflow
                },
            },
    {
        let ghost models = request_models(requests@);
        while self.visited < requests.len()
            invariant
                models == request_models(requests@),
                forall|i: int| 0 <= i < requests@.len() ==> (#[trigger] requests@[i]).wf(),
                self.wf(),
                self.report.requested_keys == requests@.len(),
                self.visited >= old(self).visited,
                forall|i: int|
                    old(self).visited <= i < self.visited ==> cache.keys().contains(
                        (#[trigger] requests@[i])@.key(),
                    ),
                self.report.cache_hits == old(self).report.cache_hits + self.visited
                    - old(self).visited,
                self.report == (RocmTensorPrewarmReport {
                    cache_hits: self.report.cache_hits,
                    ..old(self).report
                }),
                forall|start: Seq<KeyModel>|
                    old(self).accounts(start, models, cache.keys()) ==> #[trigger] self.accounts(
                        start,
                        models,
                        cache.keys(),
                    ),
            decreases requests@.len() - self.visited,
        {
            match cache.required_compilation(&requests[self.visited]) {
                Ok(Some(compilation)) => {
                    return Ok(Some(compilation));
                },
                Err(error) => {
                    return Err(error);
                },
                Ok(None) => {
                    let ghost before = *self;
                    proof {
                        let at = self.visited as int;
                        assert(models.take(at + 1).drop_last() =~= models.take(at));
                        assert(models.take(at + 1).last() == requests@[at]@);
                    }
                    self.report.cache_hits = self.report.cache_hits + 1;
                    self.visited = self.visited + 1;
                    assert forall|start: Seq<KeyModel>|
                        old(self).accounts(start, models, cache.keys()) implies #[trigger] self.accounts(
                        start,
                        models,
                        cache.keys(),
                    ) by {
                        assert(before.accounts(start, models, cache.keys()));
                    }
                },
            }
        }
        Ok(None)
    }

    /// Takes the compiled dispatch of the next request in.
    pub fn compiled<D>(
        &mut self,
        requests: &[TensorDispatchRequest<'_>],
        cache: &mut TensorDispatchCache<D>,
        prepared: D,
    )
        requires
            old(self).wf(),
            old(self).report.requested_keys == requests@.len(),
            old(self).visited < requests@.len(),
            requests@[old(self).visited as int].wf(),
            old(cache).wf(),
            !old(cache).keys().contains(requests@[old(self).visited as int]@.key()),
        ensures
            final(self).wf(),
            final(self).visited == old(self).visited + 1,
            final(self).report == (RocmTensorPrewarmReport {
                compiled_keys: (old(self).report.compiled_keys + 1) as usize,
                evictions: (old(self).report.evictions + if old(cache).entries@.len()
                    == ADD_DISPATCH_CACHE_CAPACITY {
                    1int
                } else {
                    0int
                }) as usize,
                ..old(self).report
            }),
            final(cache).wf(),
            final(cache).keys() == admitted(
                old(cache).keys(),
                requests@[old(self).visited as int]@.key(),
            ),
            final(cache).entries@ == taken_in(
                old(cache).entries@,
                final(cache).entries@.last().0,
                prepared,
            ),
            forall|start: Seq<KeyModel>|
                old(self).accounts(start, request_models(requests@), old(cache).keys())
                    ==> #[trigger] final(self).accounts(
                    start,
                    request_models(requests@),
                    final(cache).keys(),
                ),
    {
        let ghost models = request_models(requests@);
        let ghost before = *self;
        let ghost keys = cache.keys();
        let key: TensorDispatchCacheKey = requests[self.visited].key();
        let admission: TensorDispatchCacheAdmission = cache.take_in(key, prepared);
        self.report.compiled_keys = self.report.compiled_keys + 1;
        if admission.evicted {
            self.report.evictions = self.report.evictions + 1;
        }
        self.visited = self.visited + 1;
        proof {
            let at = before.visited as int;
            assert(models.take(at + 1).drop_last() =~= models.take(at));
            assert(models.take(at + 1).last() == requests@[at]@);
            assert forall|start: Seq<KeyModel>| before.accounts(
                start,
                models,
                keys,
            ) implies #[trigger] self.accounts(start, models, cache.keys()) by {}
        }
    }

    /// Ends a pass: counts how many of the requests are still cached.
    pub fn finish<D>(
        self,
        requests: &[TensorDispatchRequest<'_>],
        cache: &TensorDispatchCache<D>,
    ) -> (report: RocmTensorPrewarmReport)
        requires
            forall|i: int| 0 <= i < requests@.len() ==> (#[trigger] requests@[i]).wf(),
        ensures
            report == (RocmTensorPrewarmReport {
                retained_keys: retained(request_keys(request_models(requests@)), cache.keys()) as usize,
                ..self.report
            }),
            retained(request_keys(request_models(requests@)), cache.keys()) <= requests@.len(),
    {
        let mut requested: Vec<TensorDispatchCacheKey> = Vec::with_capacity(requests.len());
        while requested.len() < requests.len()
            invariant
                requested@.len() <= requests@.len(),
                forall|i: int| 0 <= i < requests@.len() ==> (#[trigger] requests@[i]).wf(),
                forall|i: int|
                    0 <= i < requested@.len() ==> (#[trigger] requested@[i])@
                        == requests@[i]@.key(),
            decreases requests@.len() - requested@.len(),
        {
            let key: TensorDispatchCacheKey = requests[requested.len()].key();
            requested.push(key);
        }
        let cached: Vec<TensorDispatchCacheKey> = cache.copied_keys();
        proof {
            assert(key_models(requested@) =~= request_keys(request_models(requests@)));
            lemma_retained_bound(key_models(requested@), key_models(cached@));
        }
        let retained_keys: usize = retained_requested_key_count(
            requested.as_slice(),
            cached.as_slice(),
        );
        RocmTensorPrewarmReport { retained_keys, ..self.report }
    }
}

/// The keys of a list of requests.
pub open spec fn request_keys(requests: Seq<RequestModel>) -> Seq<KeyModel> {
    requests.map_values(|request: RequestModel| request.key())
}

/// A pass that compiled everything accounts for every request: each was compiled or found, and
/// entries gave way only to compilations.
pub proof fn law_prewarming_accounts_for_every_request(
    keys: Seq<KeyModel>,
    requests: Seq<RequestModel>,
)
    ensures
        prewarmed(keys, requests).1 + prewarmed(keys, requests).2 == requests.len(),
        prewarmed(keys, requests).3 <= prewarmed(keys, requests).1,
    decreases requests.len(),
{
    if requests.len() > 0 {
        law_prewarming_accounts_for_every_request(keys, requests.drop_last());
    }
}

/// Prewarming keeps the cache within its capacity, and drops nothing while there is room.
pub proof fn law_prewarming_stays_within_capacity(keys: Seq<KeyModel>, requests: Seq<RequestModel>)
    requires
        keys.len() <= ADD_DISPATCH_CACHE_CAPACITY,
    ensures
        prewarmed(keys, requests).0.len() <= ADD_DISPATCH_CACHE_CAPACITY,
        prewarmed(keys, requests).0.len() + prewarmed(keys, requests).3 == keys.len() + prewarmed(
            keys,
            requests,
        ).1,
        prewarmed(keys, requests).3 > 0 ==> prewarmed(keys, requests).0.len()
            == ADD_DISPATCH_CACHE_CAPACITY,
    decreases requests.len(),
{
    if requests.len() > 0 {
        law_prewarming_stays_within_capacity(keys, requests.drop_last());
    }
}

/// Every requested key that counts as retained is cached.
proof fn lemma_all_retained(requested: Seq<KeyModel>, cached: Seq<KeyModel>)
    requires
        retained(requested, cached) == requested.len(),
    ensures
        forall|i: int| 0 <= i < requested.len() ==> cached.contains(#[trigger] requested[i]),
    decreases requested.len(),
{
    if requested.len() > 0 {
        let fewer = requested.drop_last();
        lemma_retained_bound(fewer, cached);
        lemma_all_retained(fewer, cached);
        assert forall|i: int| 0 <= i < requested.len() implies cached.contains(
            #[trigger] requested[i],
        ) by {
            if i < fewer.len() {
                assert(fewer[i] == requested[i]);
            }
        }
    }
}

/// A pass over keys that are all cached.
proof fn lemma_hits_only(keys: Seq<KeyModel>, requests: Seq<RequestModel>)
    requires
        forall|i: int| 0 <= i < requests.len() ==> keys.contains((#[trigger] requests[i]).key()),
    ensures
        prewarmed(keys, requests) == (keys, 0nat, requests.len(), 0nat),
    decreases requests.len(),
{
    if requests.len() > 0 {
        lemma_hits_only(keys, requests.drop_last());
        assert(keys.contains(requests[requests.len() - 1].key()));
    }
}

/// Prewarming is idempotent: once a pass has left every requested key cached, another one finds
/// them all, compiles nothing, and leaves the cache as it is.
pub proof fn law_prewarming_is_idempotent(keys: Seq<KeyModel>, requests: Seq<RequestModel>)
    requires
        retained(request_keys(requests), prewarmed(keys, requests).0) == requests.len(),
    ensures
        prewarmed(prewarmed(keys, requests).0, requests) == (
            prewarmed(keys, requests).0,
            0nat,
            requests.len(),
            0nat,
        ),
{
    let cached = prewarmed(keys, requests).0;
    lemma_all_retained(request_keys(requests), cached);
    assert forall|i: int| 0 <= i < requests.len() implies cached.contains(
        (#[trigger] requests[i]).key(),
    ) by {
        assert(request_keys(requests)[i] == requests[i].key());
    }
    lemma_hits_only(cached, requests);
}

/// Where the cache has room for every request, prewarming evicts nothing: what was cached stays,
/// and every requested key is cached in the end.
pub proof fn law_prewarming_with_room_retains_every_key(
    keys: Seq<KeyModel>,
    requests: Seq<RequestModel>,
)
    requires
        keys.len() + requests.len() <= ADD_DISPATCH_CACHE_CAPACITY,
    ensures
        prewarmed(keys, requests).3 == 0,
        prewarmed(keys, requests).0.len() <= keys.len() + requests.len(),
        forall|key: KeyModel|
            keys.contains(key) ==> #[trigger] prewarmed(keys, requests).0.contains(key),
        forall|i: int|
            0 <= i < requests.len() ==> prewarmed(keys, requests).0.contains(
                (#[trigger] requests[i]).key(),
            ),
    decreases requests.len(),
{
    if requests.len() > 0 {
        let fewer = requests.drop_last();
        law_prewarming_with_room_retains_every_key(keys, fewer);
        let before = prewarmed(keys, fewer).0;
        let after = prewarmed(keys, requests).0;
        law_visited_keys_are_cached(prewarmed(keys, fewer), requests.last().key());
        assert forall|key: KeyModel| #[trigger] before.contains(key) implies after.contains(key) by {
            let at = before.index_of(key);
            assert(after[at] == key);
        }
        assert forall|i: int| 0 <= i < requests.len() implies after.contains(
            (#[trigger] requests[i]).key(),
        ) by {
            if i < fewer.len() {
                assert(fewer[i] == requests[i]);
                assert(before.contains(fewer[i].key()));
            }
        }
        assert forall|key: KeyModel| keys.contains(key) implies #[trigger] after.contains(key) by {
            assert(before.contains(key));
        }
    }
}

/// Right after a key was visited it is cached.
pub proof fn law_visited_keys_are_cached(state: (Seq<KeyModel>, nat, nat, nat), key: KeyModel)
    ensures
        visited(state, key).0.contains(key),
{
    let keys = visited(state, key).0;
    if !state.0.contains(key) {
        assert(keys[keys.len() - 1] == key);
    }
}

} // verus!
