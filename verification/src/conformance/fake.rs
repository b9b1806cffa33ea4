//! Deterministic fake ports for independently authored conformance cases:
//! a manually advanced clock, an exact-byte input store, and a scripted
//! effect boundary. None of them consults the host.

use vstd::prelude::*;

use crate::conformance::graph::ConformanceError;
use crate::conformance::identity::StorageId;
use crate::text::text;

verus! {

/// Explicit clock read by a pack instead of ambient time.
pub trait CheckClock {
    /// Returns the current tick.
    fn now(&mut self) -> u64;
}

/// Deterministic manually advanced clock.
#[derive(Clone, Debug, PartialEq, Eq)]
pub struct FakeClock {
    now: u64,
}

impl FakeClock {
    /// The current tick.
    pub closed spec fn tick(&self) -> u64 {
        self.now
    }

    /// Creates a clock at an explicit tick.
    pub fn new(now: u64) -> (c: FakeClock)
        ensures
            c.tick() == now,
    {
        FakeClock { now }
    }

    /// Advances without consulting host time; refuses to overflow, leaving
    /// the clock unchanged.
    pub fn advance(&mut self, ticks: u64) -> (r: Result<(), ConformanceError>)
        ensures
            old(self).tick() + ticks <= u64::MAX ==> r is Ok && final(self).tick() == old(self).tick() + ticks,
            old(self).tick() + ticks > u64::MAX ==> r == Err::<(), ConformanceError>(
                ConformanceError::BoundExceeded("clock"),
            ) && final(self).tick() == old(self).tick(),
    {
        match self.now.checked_add(ticks) {
            Some(n) => {
                self.now = n;
                Ok(())
            },
            None => Err(ConformanceError::BoundExceeded("clock")),
        }
    }

    /// Reads the current tick.
    pub fn read(&self) -> (t: u64)
        ensures
            t == self.tick(),
    {
        self.now
    }
}

impl CheckClock for FakeClock {
    fn now(&mut self) -> (t: u64)
        ensures
            t == old(self).tick(),
            final(self).tick() == old(self).tick(),
    {
        self.now
    }
}

impl Default for FakeClock {
    fn default() -> (c: FakeClock)
        ensures
            c.tick() == 0,
    {
        FakeClock { now: 0 }
    }
}

/// Read-only byte materialization port.
pub trait InputPort {
    /// Loads the exact bytes at a declared location.
    fn read(&mut self, location: &StorageId) -> Result<Vec<u8>, ConformanceError>;
}

/// In-memory exact-byte port with deterministic request accounting.
#[derive(Debug)]
pub struct FakeInputPort {
    objects: Vec<(StorageId, Vec<u8>)>,
    reads: Vec<StorageId>,
}

/// Digests of a list of locations.
pub open spec fn locations(v: Seq<StorageId>) -> Seq<Seq<u8>> {
    v.map_values(|s: StorageId| s@)
}

impl FakeInputPort {
    /// The stored bytes of each digest.
    pub closed spec fn stored(&self) -> Map<Seq<u8>, Seq<u8>> {
        Map::new(
            |k: Seq<u8>| exists|i: int| 0 <= i < self.objects@.len() && self.objects@[i].0@ == k,
            |k: Seq<u8>|
                self.objects@[choose|i: int| 0 <= i < self.objects@.len() && self.objects@[i].0@ == k].1@,
        )
    }

    /// Every requested location, in order.
    pub closed spec fn read_log(&self) -> Seq<Seq<u8>> {
        locations(self.reads@)
    }

    /// Each digest is stored at most once.
    pub closed spec fn wf(&self) -> bool {
        forall|i: int, j: int|
            0 <= i < j < self.objects@.len() ==> (#[trigger] self.objects@[i]).0@ != (#[trigger] self.objects@[j]).0@
    }

    /// An empty port.
    pub fn new() -> (p: FakeInputPort)
        ensures
            p.wf(),
            p.stored() == Map::<Seq<u8>, Seq<u8>>::empty(),
            p.read_log().len() == 0,
    {
        let p = FakeInputPort { objects: Vec::new(), reads: Vec::new() };
        assert(p.stored() =~= Map::<Seq<u8>, Seq<u8>>::empty());
        p
    }

    /// Stores bytes at their computed location and returns that location.
    pub fn insert(&mut self, bytes: Vec<u8>) -> (id: StorageId)
        requires
            old(self).wf(),
        ensures
            final(self).wf(),
            id@ == crate::conformance::datum::sha256_spec(bytes@),
            final(self).stored() == old(self).stored().insert(id@, bytes@),
            final(self).read_log() == old(self).read_log(),
    {
        let id = StorageId::for_bytes(bytes.as_slice());
        let ghost before = self.objects@;
        let mut i: usize = 0;
        while i < self.objects.len()
            invariant
                i <= self.objects@.len(),
                self.objects@ == before,
                before == old(self).objects@,
                self.reads@ == old(self).reads@,
                old(self).wf(),
                id@ == crate::conformance::datum::sha256_spec(bytes@),
                forall|j: int| 0 <= j < i ==> (#[trigger] before[j]).0@ != id@,
            decreases self.objects@.len() - i,
        {
            if self.objects[i].0.same(&id) {
                let _old = self.objects.remove(i);
                self.objects.insert(i, (id.copy(), bytes));
                proof {
                    assert(self.objects@ =~= before.update(i as int, (self.objects@[i as int].0, bytes)));
                    assert(self.stored() =~= old(self).stored().insert(id@, bytes@)) by {
                        assert forall|k: Seq<u8>| #[trigger] self.stored().dom().contains(k) <==> old(self).stored().insert(id@, bytes@).dom().contains(k) by {
                            if old(self).stored().dom().contains(k) {
                                let q = choose|q: int| 0 <= q < before.len() && before[q].0@ == k;
                                if q == i {
                                    assert(self.objects@[q].0@ == k);
                                } else {
                                    assert(self.objects@[q] == before[q]);
                                }
                            }
                            if self.stored().dom().contains(k) {
                                let q = choose|q: int| 0 <= q < self.objects@.len() && self.objects@[q].0@ == k;
                                if q != i {
                                    assert(before[q] == self.objects@[q]);
                                }
                            }
                            if k == id@ {
                                assert(self.objects@[i as int].0@ == k);
                            }
                        }
                        assert forall|k: Seq<u8>| #[trigger] self.stored().dom().contains(k) implies self.stored()[k] == old(self).stored().insert(id@, bytes@)[k] by {
                            let q = choose|q: int| 0 <= q < self.objects@.len() && self.objects@[q].0@ == k;
                            if k == id@ {
                                assert(q == i) by {
                                    if q != i {
                                        assert(before[q].0@ == before[i as int].0@);
                                    }
                                }
                            } else {
                                assert(q != i);
                                let q0 = choose|q0: int| 0 <= q0 < before.len() && before[q0].0@ == k;
                                assert(q0 == q) by {
                                    if q0 != q {
                                        assert(before[q0].0@ == before[q].0@);
                                    }
                                }
                            }
                        }
                    }
                }
                return id;
            }
            i += 1;
        }
        self.objects.push((id.copy(), bytes));
        proof {
            let after = self.objects@;
            assert(after == before.push((after[before.len() as int].0, bytes)));
            assert forall|a: int, b: int| 0 <= a < b < after.len() implies (#[trigger] after[a]).0@ != (#[trigger] after[b]).0@ by {
                if b < before.len() {
                    assert(after[a] == before[a]);
                    assert(after[b] == before[b]);
                } else {
                    assert(after[a] == before[a]);
                }
            }
            assert(self.stored() =~= old(self).stored().insert(id@, bytes@)) by {
                assert forall|k: Seq<u8>| #[trigger] self.stored().dom().contains(k) <==> old(self).stored().insert(id@, bytes@).dom().contains(k) by {
                    if old(self).stored().dom().contains(k) {
                        let q = choose|q: int| 0 <= q < before.len() && before[q].0@ == k;
                        assert(after[q] == before[q]);
                    }
                    if self.stored().dom().contains(k) {
                        let q = choose|q: int| 0 <= q < after.len() && after[q].0@ == k;
                        if q < before.len() {
                            assert(before[q] == after[q]);
                        }
                    }
                    if k == id@ {
                        assert(after[before.len() as int].0@ == k);
                    }
                }
                assert forall|k: Seq<u8>| #[trigger] self.stored().dom().contains(k) implies self.stored()[k] == old(self).stored().insert(id@, bytes@)[k] by {
                    let q = choose|q: int| 0 <= q < after.len() && after[q].0@ == k;
                    if k == id@ {
                        assert(q == before.len()) by {
                            if q < before.len() {
                                assert(before[q].0@ == k);
                            }
                        }
                    } else {
                        assert(q < before.len());
                        let q0 = choose|q0: int| 0 <= q0 < before.len() && before[q0].0@ == k;
                        assert(q0 == q) by {
                            if q0 != q {
                                assert(after[q0].0@ == after[q].0@);
                            }
                        }
                    }
                }
            }
        }
        id
    }

    /// Returns the exact observed read sequence.
    pub fn reads(&self) -> (r: &[StorageId])
        ensures
            locations(r@) == self.read_log(),
    {
        self.reads.as_slice()
    }

    /// Loads the bytes stored at a location, recording the request; a
    /// location with nothing stored is a missing surface.
    pub fn load(&mut self, location: &StorageId) -> (r: Result<Vec<u8>, ConformanceError>)
        requires
            old(self).wf(),
        ensures
            final(self).wf(),
            final(self).stored() == old(self).stored(),
            final(self).read_log() == old(self).read_log().push(location@),
            old(self).stored().dom().contains(location@) ==> (r matches Ok(b) && b@ == old(self).stored()[location@]),
            !old(self).stored().dom().contains(location@) ==> (r matches Err(ConformanceError::MissingSurface(m)) && m@ == "stored input"@),
    {
        let ghost before = self.reads@;
        let loc = location.copy();
        self.reads.push(loc);
        assert(locations(self.reads@) =~= locations(before).push(location@));
        let mut i: usize = 0;
        while i < self.objects.len()
            invariant
                i <= self.objects@.len(),
                self.objects@ == old(self).objects@,
                old(self).wf(),
                locations(self.reads@) == locations(old(self).reads@).push(location@),
                forall|j: int| 0 <= j < i ==> (#[trigger] self.objects@[j]).0@ != location@,
            decreases self.objects@.len() - i,
        {
            if self.objects[i].0.same(location) {
                let b = vstd::slice::slice_to_vec(self.objects[i].1.as_slice());
                proof {
                    let q = choose|q: int| 0 <= q < self.objects@.len() && self.objects@[q].0@ == location@;
                    assert(q == i) by {
                        if q != i {
                            assert(self.objects@[q].0@ == self.objects@[i as int].0@);
                        }
                    }
                }
                return Ok(b);
            }
            i += 1;
        }
        Err(ConformanceError::MissingSurface(text("stored input")))
    }
}

impl InputPort for FakeInputPort {
    fn read(&mut self, location: &StorageId) -> (r: Result<Vec<u8>, ConformanceError>)
        ensures
            old(self).wf() ==> {
                &&& final(self).wf()
                &&& final(self).stored() == old(self).stored()
                &&& final(self).read_log() == old(self).read_log().push(location@)
                &&& old(self).stored().dom().contains(location@) ==> (r matches Ok(b) && b@
                    == old(self).stored()[location@])
                &&& !old(self).stored().dom().contains(location@) ==> (r matches Err(
                    ConformanceError::MissingSurface(m),
                ) && m@ == "stored input"@)
            },
            !old(self).wf() ==> (r matches Err(ConformanceError::MissingSurface(m)) && m@
                == "stored input"@) && final(self).stored() == old(self).stored()
                && final(self).read_log() == old(self).read_log(),
    {
        let ghost w = self.wf();
        if self.objects_ok() {
            self.load(location)
        } else {
            Err(ConformanceError::MissingSurface(text("stored input")))
        }
    }
}

impl FakeInputPort {
    fn objects_ok(&self) -> (b: bool)
        ensures
            b == self.wf(),
    {
        let mut j: usize = 0;
        while j < self.objects.len()
            invariant
                j <= self.objects@.len(),
                forall|a: int, b: int| 0 <= a < b < j ==> (#[trigger] self.objects@[a]).0@ != (#[trigger] self.objects@[b]).0@,
            decreases self.objects@.len() - j,
        {
            let mut i: usize = 0;
            while i < j
                invariant
                    i <= j < self.objects@.len(),
                    forall|a: int| 0 <= a < i ==> self.objects@[a].0@ != self.objects@[j as int].0@,
                    forall|a: int, b: int| 0 <= a < b < j ==> (#[trigger] self.objects@[a]).0@ != (#[trigger] self.objects@[b]).0@,
                decreases j - i,
            {
                if self.objects[i].0.same(&self.objects[j].0) {
                    return false;
                }
                i += 1;
            }
            j += 1;
        }
        true
    }
}

/// Fake effect boundary used to prove a pure checker cannot perform real
/// work.
pub trait CheckEffectPort {
    /// Records a declared operation and returns the next predetermined result.
    fn invoke(&mut self, operation: &str) -> Result<String, ConformanceError>;
}

/// The refusal given when no result is queued.
pub open spec fn no_effect_result(r: Result<String, ConformanceError>) -> bool {
    r matches Err(ConformanceError::MissingSurface(m)) && m@ == "fake effect result"@
}

/// One call on a scripted effect port: the operation is logged, and the
/// first queued result is handed back, or a refusal when the queue is empty.
pub open spec fn effect_step(
    queue: Seq<Result<String, ConformanceError>>,
    log: Seq<Seq<char>>,
    operation: Seq<char>,
    r: Result<String, ConformanceError>,
    queue_after: Seq<Result<String, ConformanceError>>,
    log_after: Seq<Seq<char>>,
) -> bool {
    &&& log_after == log.push(operation)
    &&& queue.len() > 0 ==> r == queue[0] && queue_after == queue.drop_first()
    &&& queue.len() == 0 ==> no_effect_result(r) && queue_after.len() == 0
}

/// A run of calls: `queues[i]`/`logs[i]` is the port before call `i`, which
/// asked for `operations[i]` and got `results[i]`.
pub open spec fn effect_run(
    queues: Seq<Seq<Result<String, ConformanceError>>>,
    logs: Seq<Seq<Seq<char>>>,
    operations: Seq<Seq<char>>,
    results: Seq<Result<String, ConformanceError>>,
) -> bool {
    &&& queues.len() == operations.len() + 1
    &&& logs.len() == operations.len() + 1
    &&& results.len() == operations.len()
    &&& forall|i: int|
        #![trigger results[i]]
        0 <= i < operations.len() ==> effect_step(
            queues[i],
            logs[i],
            operations[i],
            results[i],
            queues[i + 1],
            logs[i + 1],
        )
}

/// Over any run of calls, the `i`-th call gets the `i`-th result that was
/// queued before the run, every call after the queue ran dry is refused
/// with a missing surface, and the log gains every operation, in order,
/// refused ones included.
pub proof fn lemma_effect_run(
    queues: Seq<Seq<Result<String, ConformanceError>>>,
    logs: Seq<Seq<Seq<char>>>,
    operations: Seq<Seq<char>>,
    results: Seq<Result<String, ConformanceError>>,
)
    requires
        effect_run(queues, logs, operations, results),
    ensures
        forall|i: int|
            0 <= i < operations.len() && i < queues[0].len() ==> #[trigger] results[i] == queues[0][i],
        forall|i: int|
            0 <= i < operations.len() && i >= queues[0].len() ==> no_effect_result(#[trigger] results[i]),
        logs[operations.len() as int] == logs[0] + operations,
    decreases operations.len(),
{
    let n = operations.len();
    if n > 0 {
        let m = (n - 1) as int;
        let q2 = queues.take(n as int);
        let l2 = logs.take(n as int);
        let o2 = operations.take(m);
        let r2 = results.take(m);
        assert forall|i: int| 0 <= i < o2.len() implies effect_step(
            q2[i],
            l2[i],
            o2[i],
            #[trigger] r2[i],
            q2[i + 1],
            l2[i + 1],
        ) by {
            assert(results[i] == r2[i]);
        }
        lemma_effect_run(q2, l2, o2, r2);
        lemma_effect_queue(queues, logs, operations, results, m);
        assert(results[m] == results[m]);
        assert(effect_step(queues[m], logs[m], operations[m], results[m], queues[m + 1], logs[m + 1]));
        assert forall|i: int| 0 <= i < n && i < queues[0].len() implies #[trigger] results[i] == queues[0][i] by {
            if i < m {
                assert(r2[i] == results[i]);
            }
        }
        assert forall|i: int| 0 <= i < n && i >= queues[0].len() implies no_effect_result(#[trigger] results[i]) by {
            if i < m {
                assert(r2[i] == results[i]);
            }
        }
        assert(logs[n as int] == logs[0] + operations) by {
            assert(operations == o2.push(operations[m]));
            assert(logs[0] + operations =~= (logs[0] + o2).push(operations[m]));
        }
    } else {
        assert(logs[0] + operations =~= logs[0]);
    }
}

/// Before call `k`, the queue is what was queued before the run with the
/// first `k` results taken off (or nothing once those ran out).
proof fn lemma_effect_queue(
    queues: Seq<Seq<Result<String, ConformanceError>>>,
    logs: Seq<Seq<Seq<char>>>,
    operations: Seq<Seq<char>>,
    results: Seq<Result<String, ConformanceError>>,
    k: int,
)
    requires
        effect_run(queues, logs, operations, results),
        0 <= k <= operations.len(),
    ensures
        k <= queues[0].len() ==> queues[k] == queues[0].skip(k),
        k > queues[0].len() ==> queues[k].len() == 0,
    decreases k,
{
    if k > 0 {
        lemma_effect_queue(queues, logs, operations, results, k - 1);
        assert(results[k - 1] == results[k - 1]);
        assert(effect_step(
            queues[k - 1],
            logs[k - 1],
            operations[k - 1],
            results[k - 1],
            queues[k],
            logs[k],
        ));
        if k <= queues[0].len() {
            assert(queues[k] =~= queues[0].skip(k));
        }
    } else {
        assert(queues[0].skip(0) =~= queues[0]);
    }
}

/// Queue-backed fake effect port with no operating-system client.
#[derive(Debug)]
pub struct FakeEffectPort {
    results: std::collections::VecDeque<Result<String, ConformanceError>>,
    calls: Vec<String>,
}

impl FakeEffectPort {
    /// The predetermined results still queued.
    pub closed spec fn queued(&self) -> Seq<Result<String, ConformanceError>> {
        self.results@
    }

    /// Every requested operation, in order.
    pub closed spec fn call_log(&self) -> Seq<Seq<char>> {
        self.calls@.map_values(|s: String| s@)
    }

    /// A port with nothing queued.
    pub fn new() -> (p: FakeEffectPort)
        ensures
            p.queued().len() == 0,
            p.call_log().len() == 0,
    {
        FakeEffectPort { results: std::collections::VecDeque::new(), calls: Vec::new() }
    }

    /// Appends a predetermined result.
    pub fn push(&mut self, result: Result<String, ConformanceError>)
        ensures
            final(self).queued() == old(self).queued().push(result),
            final(self).call_log() == old(self).call_log(),
    {
        self.results.push_back(result);
    }

    /// Returns every requested operation in order.
    pub fn calls(&self) -> (r: &[String])
        ensures
            r@.map_values(|s: String| s@) == self.call_log(),
    {
        self.calls.as_slice()
    }

    /// Records the operation and returns the next queued result, or a
    /// missing surface when nothing is queued.
    pub fn call(&mut self, operation: &str) -> (r: Result<String, ConformanceError>)
        ensures
            effect_step(
                old(self).queued(),
                old(self).call_log(),
                operation@,
                r,
                final(self).queued(),
                final(self).call_log(),
            ),
    {
        let ghost before = self.calls@;
        self.calls.push(text(operation));
        assert(self.calls@.map_values(|s: String| s@) =~= before.map_values(|s: String| s@).push(operation@));
        match self.results.pop_front() {
            Some(r) => r,
            None => Err(ConformanceError::MissingSurface(text("fake effect result"))),
        }
    }
}

impl CheckEffectPort for FakeEffectPort {
    fn invoke(&mut self, operation: &str) -> (r: Result<String, ConformanceError>)
        ensures
            effect_step(
                old(self).queued(),
                old(self).call_log(),
                operation@,
                r,
                final(self).queued(),
                final(self).call_log(),
            ),
    {
        self.call(operation)
    }
}

} // verus!
