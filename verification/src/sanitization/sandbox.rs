//! Sandbox planning for untrusted binary analysis: what to run in the worker
//! subprocess, when to give up waiting for it, and the seccomp filter that
//! the Linux worker installs before it runs.
//!
//! The worker process is a separate binary (`cryptotrace-worker`) that
//! performs the actual analysis; spawning it and applying the platform
//! restrictions is the caller's part.

use vstd::prelude::*;

use crate::decimal::{decimal, format_u64, push_decimal};

verus! {

/// `std::path::PathBuf`, carried through opaquely.
#[verifier::external_type_specification]
#[verifier::external_body]
pub struct ExPathBuf(std::path::PathBuf);

/// Sandbox configuration for untrusted binary analysis.
#[derive(Debug, Clone)]
pub struct SandboxConfig {
    pub enabled: bool,
    pub worker_path: Option<std::path::PathBuf>,
    pub timeout_seconds: u64,
    pub max_memory_mb: u64,
    pub max_concurrent: usize,
}

impl Default for SandboxConfig {
    fn default() -> (c: Self)
        ensures
            !c.enabled,
            c.worker_path is None,
            c.timeout_seconds == 30,
            c.max_memory_mb == 512,
            c.max_concurrent == 4,
    {
        SandboxConfig {
            enabled: false,
            worker_path: None,
            timeout_seconds: 30,
            max_memory_mb: 512,
            max_concurrent: 4,
        }
    }
}

/// Platform-independent sandbox for isolating risky parser operations in a
/// subprocess with timeout and crash recovery.
pub struct Sandbox {
    config: SandboxConfig,
}

impl View for Sandbox {
    type V = SandboxConfig;

    closed spec fn view(&self) -> SandboxConfig {
        self.config
    }
}

/// What running an operation in the sandbox amounts to.
pub enum WorkerRun {
    /// The sandbox is disabled: the output is the input, unchanged.
    Passthrough(Vec<u8>),
    /// Spawn the worker `program` with these arguments, feed it the input
    /// on stdin, and kill it if it has not exited after `timeout_seconds`.
    Spawn { program: std::path::PathBuf, args: Vec<String>, timeout_seconds: u64 },
}

/// The worker's command-line arguments for `operation` on an input of
/// `input_len` bytes.
pub open spec fn worker_args(operation: Seq<char>, input_len: nat) -> Seq<Seq<char>> {
    seq!["--operation"@, operation, "--input-len"@, decimal(input_len)]
}

/// The path that `PathBuf::from` makes of a text.
pub uninterp spec fn path_of_text(text: Seq<char>) -> std::path::PathBuf;

/// `PathBuf::from(&str)`: the path of a text. Making a path depends on the
/// text alone, so its result is named by `path_of_text`.
#[verifier::external_body]
fn path_from_text(text: &str) -> (p: std::path::PathBuf)
    ensures
        p == path_of_text(text@),
{
    std::path::PathBuf::from(text)
}

/// `PathBuf::clone`: a copy of a path, the same path.
#[verifier::external_body]
fn clone_path(p: &std::path::PathBuf) -> (q: std::path::PathBuf)
    ensures
        q == *p,
{
    p.clone()
}

/// The worker program a sandbox runs: the configured one, else
/// `cryptotrace-worker` (found on the search path).
pub open spec fn worker_program(config: SandboxConfig) -> std::path::PathBuf {
    match config.worker_path {
        Some(p) => p,
        None => path_of_text("cryptotrace-worker"@),
    }
}

/// The text of a signed integer as `{}` renders it.
pub open spec fn signed_decimal(n: i32) -> Seq<char> {
    if n < 0 {
        seq!['-'] + decimal((-n) as nat)
    } else {
        decimal(n as nat)
    }
}

/// The text of an optional exit code as `{:?}` renders it.
pub open spec fn exit_code_text(code: Option<i32>) -> Seq<char> {
    match code {
        Some(n) => "Some("@ + signed_decimal(n) + ")"@,
        None => "None"@,
    }
}

/// The error message of a worker that exited unsuccessfully: its
/// (trimmed) standard error, or its exit code when that is empty.
pub open spec fn worker_failure_text(operation: Seq<char>, stderr_trimmed: Seq<char>, code: Option<i32>) -> Seq<char> {
    "Worker '"@ + operation + "' failed: "@ + if stderr_trimmed.len() == 0 {
        "exit code: "@ + exit_code_text(code)
    } else {
        stderr_trimmed
    }
}

/// The error message of a worker killed for running out of time.
pub open spec fn worker_timeout_text(timeout_seconds: u64) -> Seq<char> {
    "Worker timed out after "@ + decimal(timeout_seconds as nat) + "s"@
}

/// Renders a signed integer as `{}` does.
fn push_signed(out: &mut String, n: i32)
    ensures
        final(out)@ == old(out)@ + signed_decimal(n),
{
    if n < 0 {
        out.append("-");
        let magnitude: u64 = (0 - (n as i64)) as u64;
        push_decimal(out, magnitude);
        proof {
            reveal_strlit("-");
            assert(final(out)@ =~= old(out)@ + signed_decimal(n));
        }
    } else {
        push_decimal(out, n as u64);
    }
}

/// The error message of a worker that exited unsuccessfully with the given
/// (trimmed) standard error and exit code.
pub fn worker_failure_message(operation: &str, stderr_trimmed: &str, code: Option<i32>) -> (m: String)
    ensures
        m@ == worker_failure_text(operation@, stderr_trimmed@, code),
{
    let mut m = String::from_str("Worker '");
    m.append(operation);
    m.append("' failed: ");
    if stderr_trimmed.is_empty() {
        m.append("exit code: ");
        match code {
            Some(n) => {
                m.append("Some(");
                push_signed(&mut m, n);
                m.append(")");
            },
            None => {
                m.append("None");
            },
        }
    } else {
        m.append(stderr_trimmed);
    }
    proof {
        assert(m@ =~= worker_failure_text(operation@, stderr_trimmed@, code));
    }
    m
}

/// The error message of a worker killed after `timeout_seconds`.
pub fn worker_timeout_message(timeout_seconds: u64) -> (m: String)
    ensures
        m@ == worker_timeout_text(timeout_seconds),
{
    let mut m = String::from_str("Worker timed out after ");
    push_decimal(&mut m, timeout_seconds);
    m.append("s");
    proof {
        assert(m@ =~= worker_timeout_text(timeout_seconds));
    }
    m
}

/// How often the parent looks at a running worker, in milliseconds.
pub const POLL_INTERVAL_MILLIS: u64 = 50;

/// What the parent does after looking at a running worker.
#[derive(Debug, PartialEq, Eq, Structural)]
pub enum WaitStep {
    /// The worker has exited: collect its output.
    Collect,
    /// The worker is still running and its time is up: kill it.
    Kill,
    /// The worker is still running: look again after the poll interval.
    Sleep,
}

impl Sandbox {
    /// Creates a new sandbox.
    pub fn new(config: SandboxConfig) -> (s: Self)
        ensures
            s@ == config,
    {
        Sandbox { config }
    }

    /// The sandbox's configuration.
    pub fn config(&self) -> (c: &SandboxConfig)
        ensures
            *c == self@,
    {
        &self.config
    }

    /// What running `operation` on `input` in this sandbox amounts to: the
    /// input itself when the sandbox is disabled, else the configured worker
    /// program (`cryptotrace-worker` when none is configured) spawned with
    /// `--operation <operation> --input-len <input length>` under the
    /// configured timeout.
    pub fn plan_worker(&self, operation: &str, input: &[u8]) -> (r: WorkerRun)
        ensures
            !self@.enabled ==> (r matches WorkerRun::Passthrough(out) && out@ == input@),
            self@.enabled ==> (r matches WorkerRun::Spawn { program, args, timeout_seconds }
                && program == worker_program(self@) && args@.map_values(|a: String| a@) == worker_args(
                operation@,
                input@.len(),
            ) && timeout_seconds == self@.timeout_seconds),
    {
        if !self.config.enabled {
            return WorkerRun::Passthrough(vstd::slice::slice_to_vec(input));
        }
        let program = match &self.config.worker_path {
            Some(p) => clone_path(p),
            None => path_from_text("cryptotrace-worker"),
        };
        let mut args: Vec<String> = Vec::new();
        args.push(String::from_str("--operation"));
        args.push(String::from_str(operation));
        args.push(String::from_str("--input-len"));
        args.push(format_u64(input.len() as u64));
        proof {
            assert(args@.map_values(|a: String| a@) =~= worker_args(operation@, input@.len()));
        }
        WorkerRun::Spawn { program, args, timeout_seconds: self.config.timeout_seconds }
    }

    /// One step of waiting for the worker under this sandbox's timeout:
    /// collect an exited worker; kill a running one once at least
    /// `timeout_seconds` have elapsed (`elapsed_nanos` since it was
    /// spawned); otherwise keep waiting.
    pub fn wait_step(&self, exited: bool, elapsed_nanos: u64) -> (step: WaitStep)
        ensures
            exited ==> step == WaitStep::Collect,
            !exited && elapsed_nanos >= self@.timeout_seconds * 1_000_000_000 ==> step == WaitStep::Kill,
            !exited && elapsed_nanos < self@.timeout_seconds * 1_000_000_000 ==> step == WaitStep::Sleep,
    {
        if exited {
            WaitStep::Collect
        } else if elapsed_nanos / 1_000_000_000 >= self.config.timeout_seconds {
            WaitStep::Kill
        } else {
            WaitStep::Sleep
        }
    }
}

/// A classic BPF instruction (`struct sock_filter`).
#[derive(Debug, Clone, Copy, PartialEq, Eq, Structural)]
pub struct FilterInsn {
    pub code: u16,
    pub jt: u8,
    pub jf: u8,
    pub k: u32,
}

/// `BPF_LD | BPF_W | BPF_ABS`: load the word at offset `k` of the input.
pub const BPF_LD_W_ABS: u16 = 0x20;

/// `BPF_JMP | BPF_JEQ | BPF_K`: skip `jt` instructions if the accumulator
/// equals `k`, else `jf`.
pub const BPF_JEQ_K: u16 = 0x15;

/// `BPF_RET | BPF_K`: end with verdict `k`.
pub const BPF_RET_K: u16 = 0x06;

/// Filter result that allows the system call.
pub const SECCOMP_RET_ALLOW: u32 = 0x7fff_0000;

/// Filter result that kills the calling process.
pub const SECCOMP_RET_KILL: u32 = 0x0000_0000;

/// The system calls (x86_64 numbers) the worker may not make: process
/// creation and execution (clone, fork, vfork, execve, execveat, clone3),
/// signalling other processes (kill, tgkill), networking (socket, connect,
/// bind, listen, accept, accept4), tracing and personality changes (ptrace,
/// personality), kernel modules (init_module, finit_module, delete_module),
/// other processes' memory (process_vm_readv, process_vm_writev) and port
/// I/O (iopl, ioperm).
pub open spec fn blocked_syscalls() -> Seq<u32> {
    seq![56, 57, 58, 59, 62, 234, 322, 335, 41, 42, 49, 50, 43, 288, 101, 135, 175, 176, 179, 246, 247, 172, 173]
}

/// Whether the worker may not make system call `nr` (x86_64 numbers):
/// clone (56), fork (57), vfork (58), execve (59), kill (62), tgkill (234),
/// execveat (322), clone3 (335), socket (41), connect (42), bind (49),
/// listen (50), accept (43), accept4 (288), ptrace (101), personality (135),
/// init_module (175), finit_module (176), delete_module (179),
/// process_vm_readv (246), process_vm_writev (247), iopl (172) and
/// ioperm (173). Every other system call is allowed.
pub open spec fn denied_syscall(nr: u32) -> bool {
    ||| nr == 56 || nr == 57 || nr == 58 || nr == 59 || nr == 62 || nr == 234 || nr == 322 || nr == 335
    ||| nr == 41 || nr == 42 || nr == 49 || nr == 50 || nr == 43 || nr == 288
    ||| nr == 101 || nr == 135
    ||| nr == 175 || nr == 176 || nr == 179
    ||| nr == 246 || nr == 247
    ||| nr == 172 || nr == 173
}

/// The filter program that kills the process on any system call in
/// `blocked` and lets every other through: load the system call number,
/// compare it with each blocked number in turn (jumping to the kill verdict
/// on a match), then allow.
pub open spec fn blacklist_program(blocked: Seq<u32>) -> Seq<FilterInsn> {
    let n = blocked.len();
    seq![FilterInsn { code: BPF_LD_W_ABS, jt: 0, jf: 0, k: 0 }] + Seq::new(
        n,
        |j: int| FilterInsn { code: BPF_JEQ_K, jt: (n - j) as u8, jf: 0, k: blocked[j] },
    ) + seq![
        FilterInsn { code: BPF_RET_K, jt: 0, jf: 0, k: SECCOMP_RET_ALLOW },
        FilterInsn { code: BPF_RET_K, jt: 0, jf: 0, k: SECCOMP_RET_KILL },
    ]
}

/// The verdict of a classic BPF program made of the instructions above, run
/// from instruction `pc` with accumulator `acc` on a system call whose number
/// (the word at offset 0 of the seccomp data) is `nr`. `None` when the run
/// leaves the program or meets another instruction.
pub open spec fn filter_verdict(prog: Seq<FilterInsn>, pc: int, acc: u32, nr: u32) -> Option<u32>
    decreases prog.len() - pc,
{
    if pc < 0 || pc >= prog.len() {
        None
    } else {
        let insn = prog[pc];
        if insn.code == BPF_LD_W_ABS && insn.k == 0 {
            filter_verdict(prog, pc + 1, nr, nr)
        } else if insn.code == BPF_JEQ_K {
            let skip: int = if acc == insn.k {
                insn.jt as int
            } else {
                insn.jf as int
            };
            if pc + 1 + skip >= prog.len() {
                None
            } else {
                filter_verdict(prog, pc + 1 + skip, acc, nr)
            }
        } else if insn.code == BPF_RET_K {
            Some(insn.k)
        } else {
            None
        }
    }
}

/// From the comparison with `blocked[j]` on, the program kills exactly the
/// calls numbered like one of `blocked[j..]` and allows the others.
proof fn lemma_verdict_from(blocked: Seq<u32>, j: int, nr: u32)
    requires
        0 <= j <= blocked.len(),
        blocked.len() < 256,
    ensures
        filter_verdict(blacklist_program(blocked), 1 + j, nr, nr) == Some(
            if blocked.subrange(j, blocked.len() as int).contains(nr) {
                SECCOMP_RET_KILL
            } else {
                SECCOMP_RET_ALLOW
            },
        ),
    decreases blocked.len() - j,
{
    let prog = blacklist_program(blocked);
    let n = blocked.len() as int;
    assert(prog.len() == n + 3);
    if j == n {
        assert(prog[1 + n].code == BPF_RET_K);
        assert(blocked.subrange(j, n) =~= Seq::<u32>::empty());
    } else {
        let insn = prog[1 + j];
        assert(insn == FilterInsn { code: BPF_JEQ_K, jt: (n - j) as u8, jf: 0, k: blocked[j] });
        let rest = blocked.subrange(j, n);
        assert(rest.drop_first() =~= blocked.subrange(j + 1, n));
        assert(rest[0] == blocked[j]);
        if nr == blocked[j] {
            assert(prog[n + 2].code == BPF_RET_K);
            assert(prog[n + 2].k == SECCOMP_RET_KILL);
            assert(rest.contains(nr));
            assert(filter_verdict(prog, 1 + j, nr, nr) == filter_verdict(prog, n + 2, nr, nr));
        } else {
            lemma_verdict_from(blocked, j + 1, nr);
            if rest.contains(nr) {
                let q = choose|q: int| 0 <= q < rest.len() && rest[q] == nr;
                assert(blocked.subrange(j + 1, n)[q - 1] == nr);
            }
            let tail = blocked.subrange(j + 1, n);
            if tail.contains(nr) {
                let q = choose|q: int| 0 <= q < tail.len() && tail[q] == nr;
                assert(rest[q + 1] == nr);
            }
        }
    }
}

/// The worker's seccomp filter kills the process on exactly the blocked
/// system calls and lets every other system call through.
pub proof fn lemma_blacklist_verdict(nr: u32)
    ensures
        filter_verdict(blacklist_program(blocked_syscalls()), 0, 0, nr) == Some(
            if blocked_syscalls().contains(nr) {
                SECCOMP_RET_KILL
            } else {
                SECCOMP_RET_ALLOW
            },
        ),
{
    let b = blocked_syscalls();
    let prog = blacklist_program(b);
    assert(prog[0] == FilterInsn { code: BPF_LD_W_ABS, jt: 0, jf: 0, k: 0 });
    lemma_verdict_from(b, 0, nr);
    assert(b.subrange(0, b.len() as int) =~= b);
}

/// The blocked system calls are exactly the denied ones.
proof fn lemma_blocked_are_denied(nr: u32)
    ensures
        blocked_syscalls().contains(nr) <==> denied_syscall(nr),
{
    let b = blocked_syscalls();
    assert(b.len() == 23);
    assert(b[0] == 56 && b[1] == 57 && b[2] == 58 && b[3] == 59 && b[4] == 62 && b[5] == 234);
    assert(b[6] == 322 && b[7] == 335 && b[8] == 41 && b[9] == 42 && b[10] == 49 && b[11] == 50);
    assert(b[12] == 43 && b[13] == 288 && b[14] == 101 && b[15] == 135 && b[16] == 175);
    assert(b[17] == 176 && b[18] == 179 && b[19] == 246 && b[20] == 247 && b[21] == 172);
    assert(b[22] == 173);
    if b.contains(nr) {
        let i = choose|i: int| 0 <= i < b.len() && b[i] == nr;
        assert(i == 0 || i == 1 || i == 2 || i == 3 || i == 4 || i == 5 || i == 6 || i == 7 || i == 8 || i == 9
            || i == 10 || i == 11 || i == 12 || i == 13 || i == 14 || i == 15 || i == 16 || i == 17 || i == 18
            || i == 19 || i == 20 || i == 21 || i == 22);
    }
}

/// The worker's filter kills the process on exactly the denied system
/// calls (`denied_syscall`) and lets every other system call through.
pub proof fn lemma_filter_kills_exactly_denied(nr: u32)
    ensures
        filter_verdict(blacklist_program(blocked_syscalls()), 0, 0, nr) == Some(
            if denied_syscall(nr) {
                SECCOMP_RET_KILL
            } else {
                SECCOMP_RET_ALLOW
            },
        ),
{
    lemma_blacklist_verdict(nr);
    lemma_blocked_are_denied(nr);
}

/// The blocked system call numbers, in filter order.
pub fn blocked_syscall_numbers() -> (v: Vec<u32>)
    ensures
        v@ == blocked_syscalls(),
        forall|nr: u32| v@.contains(nr) <==> denied_syscall(nr),
{
    let v: Vec<u32> = vec![56, 57, 58, 59, 62, 234, 322, 335, 41, 42, 49, 50, 43, 288, 101, 135, 175, 176, 179, 246, 247, 172, 173];
    proof {
        assert(v@ =~= blocked_syscalls());
        assert forall|nr: u32| v@.contains(nr) <==> denied_syscall(nr) by {
            lemma_blocked_are_denied(nr);
        }
    }
    v
}

/// The seccomp filter the Linux worker installs: `blacklist_program` over
/// the blocked system calls.
pub fn seccomp_blacklist_program() -> (prog: Vec<FilterInsn>)
    ensures
        prog@ == blacklist_program(blocked_syscalls()),
        forall|nr: u32|
            filter_verdict(prog@, 0, 0, nr) == Some(
                if denied_syscall(nr) {
                    SECCOMP_RET_KILL
                } else {
                    SECCOMP_RET_ALLOW
                },
            ),
{
    let blocked = blocked_syscall_numbers();
    let n = blocked.len();
    let mut prog: Vec<FilterInsn> = Vec::new();
    prog.push(FilterInsn { code: BPF_LD_W_ABS, jt: 0, jf: 0, k: 0 });
    for j in 0..n
        invariant
            n == blocked@.len() == 23,
            blocked@ == blocked_syscalls(),
            prog@.len() == 1 + j,
            prog@[0] == (FilterInsn { code: BPF_LD_W_ABS, jt: 0, jf: 0, k: 0 }),
            forall|q: int|
                0 <= q < j ==> prog@[1 + q] == (FilterInsn {
                    code: BPF_JEQ_K,
                    jt: (n - q) as u8,
                    jf: 0,
                    k: blocked@[q],
                }),
    {
        prog.push(FilterInsn { code: BPF_JEQ_K, jt: (n - j) as u8, jf: 0, k: blocked[j] });
    }
    prog.push(FilterInsn { code: BPF_RET_K, jt: 0, jf: 0, k: SECCOMP_RET_ALLOW });
    prog.push(FilterInsn { code: BPF_RET_K, jt: 0, jf: 0, k: SECCOMP_RET_KILL });
    proof {
        assert(prog@ =~= blacklist_program(blocked_syscalls()));
        assert forall|nr: u32|
            filter_verdict(prog@, 0, 0, nr) == Some(
                if denied_syscall(nr) {
                    SECCOMP_RET_KILL
                } else {
                    SECCOMP_RET_ALLOW
                },
            ) by {
            lemma_filter_kills_exactly_denied(nr);
        }
    }
    prog
}

} // verus!
