use dino::worker_pool::{JsWorkerPool, SwappableWorkerPool};

#[test]
fn round_robin_cycles_through_all_workers() {
    let mut pool = JsWorkerPool::new(3);
    let mut picks = Vec::new();
    for _ in 0..9 {
        picks.push(pool.pick_worker());
    }
    assert_eq!(picks, vec![0, 1, 2, 0, 1, 2, 0, 1, 2]);
}

#[test]
fn round_robin_balances_uneven_loads() {
    let mut pool = JsWorkerPool::new(4);
    let mut counts = [0usize; 4];
    for _ in 0..10 {
        counts[pool.pick_worker()] += 1;
    }
    assert_eq!(counts, [3, 3, 2, 2]);
}

#[test]
fn hot_swap_replaces_code_and_restarts_dispatch() {
    let mut handle = SwappableWorkerPool::try_new("v1", 3).unwrap();
    assert_eq!(handle.load().code, "v1");
    assert_eq!(handle.size, 3);
    handle.swap("v2").unwrap();
    let snap = handle.load();
    assert_eq!(snap.code, "v2");
    assert_eq!(snap.pool.size, 3);
    assert_eq!(snap.pool.counter, 0);
}

#[test]
fn old_pool_snapshot_survives_swap() {
    let mut handle = SwappableWorkerPool::try_new("v1", 2).unwrap();
    let snap = handle.load();
    handle.swap("v2").unwrap();
    assert_eq!(snap.code, "v1");
    assert_eq!(handle.load().code, "v2");
}
