//! The REST API's decisions: request admission and request interpretation.

pub mod auth;
pub mod errors;
pub mod routes;
