# cryptotrace (verified core)

The service layer of CryptoTrace — rate limiting and API-key checks, the
asynchronous job table, sandboxed worker planning and the worker's seccomp
filter — written in Verus, with its behaviour stated in contracts and proved.

Layout:

- `src/` — the verified library.
  - `api/auth.rs` — sliding-window `RateLimiter` and the request admission
    decision (rate limit, then `Authorization: Bearer` / `X-API-Key`).
  - `api/routes.rs` — `AppState`, `AnalyzeRequest` and its defaults, detection
    context and input source of a request, base64 input decoding.
  - `jobs.rs` — `JobQueue`: submission, polling, cancellation, removal,
    dispatch under a concurrency limit, completion, expiry, recovery after a
    restart, and the `job_<id>.json` file names.
  - `sanitization/sandbox.rs` — `SandboxConfig`, `Sandbox`, the worker plan,
    the wait/kill decision and the seccomp filter program.
  - `workers.rs` — `WorkerPool` and the sandbox of an isolated run.
  - `timestamp.rs`, `decimal.rs`, `text.rs` — clocks, `"<secs>.<millis>"`
    timestamps, decimal text, character helpers.
- `tests/` — tests of the library.
- `app/` — the shell: the axum router, middleware and handlers, the shared persistent job
  queue with its background tasks, and the worker subprocess.
