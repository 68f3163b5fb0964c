use std::path::PathBuf;

use cryptotrace::sanitization::sandbox::{
    blocked_syscall_numbers, worker_failure_message, worker_timeout_message, seccomp_blacklist_program, FilterInsn, Sandbox, SandboxConfig, WaitStep,
    WorkerRun, BPF_JEQ_K, BPF_LD_W_ABS, BPF_RET_K, SECCOMP_RET_ALLOW, SECCOMP_RET_KILL,
};

#[test]
fn test_config_defaults() {
    let config = SandboxConfig::default();
    assert!(!config.enabled);
    assert_eq!(config.timeout_seconds, 30);
    assert_eq!(config.max_memory_mb, 512);
    assert_eq!(config.max_concurrent, 4);
}

#[test]
fn test_sandbox_disabled_passthrough() {
    let config = SandboxConfig { enabled: false, ..Default::default() };
    let sandbox = Sandbox::new(config);
    let input = b"test data";
    match sandbox.plan_worker("passthrough", input) {
        WorkerRun::Passthrough(out) => assert_eq!(out, input),
        WorkerRun::Spawn { .. } => panic!("a disabled sandbox must not spawn"),
    }
}

#[test]
fn enabled_sandbox_spawns_worker_with_arguments() {
    let config = SandboxConfig {
        enabled: true,
        worker_path: Some(PathBuf::from("nonexistent-worker.exe")),
        timeout_seconds: 1,
        ..Default::default()
    };
    let sandbox = Sandbox::new(config);
    match sandbox.plan_worker("passthrough", b"data") {
        WorkerRun::Spawn { program, args, timeout_seconds } => {
            assert_eq!(program, PathBuf::from("nonexistent-worker.exe"));
            assert_eq!(args, vec!["--operation", "passthrough", "--input-len", "4"]);
            assert_eq!(timeout_seconds, 1);
        }
        WorkerRun::Passthrough(_) => panic!("an enabled sandbox must spawn"),
    }
    assert_eq!(sandbox.config().worker_path, Some(PathBuf::from("nonexistent-worker.exe")));
}

#[test]
fn input_length_argument_is_decimal() {
    let config = SandboxConfig { enabled: true, ..Default::default() };
    let sandbox = Sandbox::new(config);
    let input = vec![0u8; 1234];
    match sandbox.plan_worker("decompress", &input) {
        WorkerRun::Spawn { program, args, timeout_seconds } => {
            assert_eq!(program, PathBuf::from("cryptotrace-worker"));
            assert_eq!(args[1], "decompress");
            assert_eq!(args[3], "1234");
            assert_eq!(timeout_seconds, 30);
        }
        WorkerRun::Passthrough(_) => panic!("an enabled sandbox must spawn"),
    }
}

#[test]
fn waiting_kills_worker_once_timeout_elapsed() {
    let sandbox = Sandbox::new(SandboxConfig { enabled: true, timeout_seconds: 2, ..Default::default() });
    assert_eq!(sandbox.wait_step(true, 5_000_000_000), WaitStep::Collect);
    assert_eq!(sandbox.wait_step(false, 0), WaitStep::Sleep);
    assert_eq!(sandbox.wait_step(false, 1_999_999_999), WaitStep::Sleep);
    assert_eq!(sandbox.wait_step(false, 2_000_000_000), WaitStep::Kill);
    assert_eq!(sandbox.wait_step(false, 7_500_000_000), WaitStep::Kill);
}

/// Runs a classic BPF program of load/jeq/ret instructions on a system call
/// number, as the kernel would.
fn run_filter(prog: &[FilterInsn], nr: u32) -> Option<u32> {
    let mut pc = 0usize;
    let mut acc = 0u32;
    while pc < prog.len() {
        let insn = prog[pc];
        if insn.code == BPF_LD_W_ABS && insn.k == 0 {
            acc = nr;
            pc += 1;
        } else if insn.code == BPF_JEQ_K {
            let skip = if acc == insn.k { insn.jt } else { insn.jf };
            pc += 1 + skip as usize;
        } else if insn.code == BPF_RET_K {
            return Some(insn.k);
        } else {
            return None;
        }
    }
    None
}

#[test]
fn seccomp_program_shape() {
    let prog = seccomp_blacklist_program();
    let blocked = blocked_syscall_numbers();
    assert_eq!(blocked.len(), 23);
    assert_eq!(prog.len(), 26);
    assert_eq!(prog[0], FilterInsn { code: 0x20, jt: 0, jf: 0, k: 0 });
    assert_eq!(prog[1], FilterInsn { code: 0x15, jt: 23, jf: 0, k: 56 });
    assert_eq!(prog[23], FilterInsn { code: 0x15, jt: 1, jf: 0, k: 173 });
    assert_eq!(prog[24], FilterInsn { code: 0x06, jt: 0, jf: 0, k: 0x7fff_0000 });
    assert_eq!(prog[25], FilterInsn { code: 0x06, jt: 0, jf: 0, k: 0 });
}

#[test]
fn seccomp_program_blocks_listed_syscalls() {
    let prog = seccomp_blacklist_program();
    // execve, clone, socket, connect, ptrace, iopl
    for nr in [59u32, 56, 41, 42, 101, 172, 173, 322, 335] {
        assert_eq!(run_filter(&prog, nr), Some(SECCOMP_RET_KILL), "syscall {}", nr);
    }
    // read, write, open, close, mmap, exit
    for nr in [0u32, 1, 2, 3, 9, 60, 231, 1000] {
        assert_eq!(run_filter(&prog, nr), Some(SECCOMP_RET_ALLOW), "syscall {}", nr);
    }
}

#[test]
fn worker_error_messages() {
    assert_eq!(worker_timeout_message(1), "Worker timed out after 1s");
    assert_eq!(worker_timeout_message(30), "Worker timed out after 30s");
    assert_eq!(worker_failure_message("decompress", "boom", Some(1)), "Worker 'decompress' failed: boom");
    assert_eq!(worker_failure_message("decompress", "", Some(2)), "Worker 'decompress' failed: exit code: Some(2)");
    assert_eq!(
        worker_failure_message("x", "", Some(i32::MIN)),
        format!("Worker 'x' failed: exit code: {:?}", Some(i32::MIN))
    );
    assert_eq!(worker_failure_message("x", "", Some(-9)), "Worker 'x' failed: exit code: Some(-9)");
    assert_eq!(worker_failure_message("x", "", None), "Worker 'x' failed: exit code: None");
}
