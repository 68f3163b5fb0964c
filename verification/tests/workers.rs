use cryptotrace::workers::WorkerPool;

#[test]
fn worker_pool_enables_sandbox_with_its_size() {
    let pool = WorkerPool::new(7);
    let config = pool.sandbox().config();
    assert!(config.enabled);
    assert_eq!(config.max_concurrent, 7);
    assert_eq!(config.timeout_seconds, 30);
    assert_eq!(config.max_memory_mb, 512);
    assert!(config.worker_path.is_none());
}

#[test]
fn isolated_sandbox_uses_at_least_one_second() {
    let s = WorkerPool::isolated_sandbox(0);
    assert!(s.config().enabled);
    assert_eq!(s.config().timeout_seconds, 1);
    let s = WorkerPool::isolated_sandbox(12);
    assert_eq!(s.config().timeout_seconds, 12);
    assert_eq!(s.config().max_concurrent, 4);
}
