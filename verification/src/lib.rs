//! Core of a threshold-signature daemon: a reservation-disciplined key-value
//! store for secret-share material, a per-ceremony message router, a
//! round-driven protocol session, and a share-recovery coordinator.
//!
//! The cryptographic engine itself is an external collaborator: it is reached
//! only through narrow trusted wrappers, and everything around those calls is
//! verified.

pub mod engine;
pub mod kv;
pub mod message;
pub mod recover;
pub mod router;
pub mod service;
pub mod session;
