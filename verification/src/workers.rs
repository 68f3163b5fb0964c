//! Isolated subprocess workers: the sandbox configurations that the worker
//! pool and one-off isolated runs use.

use vstd::prelude::*;

use crate::sanitization::sandbox::{Sandbox, SandboxConfig};

verus! {

/// Configuration for isolated subprocess workers.
pub struct WorkerPool {
    sandbox: Sandbox,
}

impl View for WorkerPool {
    type V = SandboxConfig;

    closed spec fn view(&self) -> SandboxConfig {
        self.sandbox@
    }
}

impl WorkerPool {
    /// A pool of at most `max_workers` concurrent sandboxed workers, with
    /// the default worker executable, timeout and memory limit.
    pub fn new(max_workers: usize) -> (p: Self)
        ensures
            p@.enabled,
            p@.worker_path is None,
            p@.max_concurrent == max_workers,
            p@.timeout_seconds == 30,
            p@.max_memory_mb == 512,
    {
        let defaults = SandboxConfig::default();
        let config = SandboxConfig { enabled: true, max_concurrent: max_workers, ..defaults };
        WorkerPool { sandbox: Sandbox::new(config) }
    }

    /// The pool's sandbox.
    pub fn sandbox(&self) -> (s: &Sandbox)
        ensures
            s@ == self@,
    {
        &self.sandbox
    }

    /// The sandbox that one isolated run with a timeout of `timeout_seconds`
    /// (whole seconds) uses: the default configuration, enabled, with that
    /// timeout but never less than one second.
    pub fn isolated_sandbox(timeout_seconds: u64) -> (s: Sandbox)
        ensures
            s@.enabled,
            s@.worker_path is None,
            s@.timeout_seconds == (if timeout_seconds < 1 {
                1
            } else {
                timeout_seconds
            }),
            s@.max_memory_mb == 512,
            s@.max_concurrent == 4,
    {
        let mut config = SandboxConfig::default();
        config.enabled = true;
        config.timeout_seconds = if timeout_seconds < 1 {
            1
        } else {
            timeout_seconds
        };
        Sandbox::new(config)
    }
}

} // verus!
