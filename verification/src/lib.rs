//! Waiting-queue membership core: rank assignment, the held-first ordering
//! rule, and an in-memory membership store that upholds them.

pub mod account;
pub mod auth;
mod clock;
pub mod domain;
pub mod laws;
pub mod models;
pub mod ordering;
pub mod req;
pub mod store;

pub use domain::Id;
pub use req::true_value;
