//! Verified core of CryptoTrace's service layer: the request rate limiter and
//! API-key gate, the job table behind the asynchronous job API, the worker
//! sandbox planning (including the seccomp filter program), and the textual
//! formats (timestamps, job file names) that tie them together.

pub mod decimal;
pub mod timestamp;
pub mod api;
pub mod jobs;
pub mod sanitization;
pub mod text;
pub mod workers;
