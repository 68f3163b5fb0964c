//! Isolation of risky parsing work.

pub mod sandbox;
