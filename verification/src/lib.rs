//! The offline sync engine of a mesh payment device: it queues and signs a device's own
//! payments while offline, detects and resolves double spends from relay evidence, and
//! tracks every payment until it settles.
//!
//! Contracts are stated over mathematical views of the data. Everything the library
//! takes from outside crates stands behind small wrappers whose contracts name what the
//! outside function returns.
pub mod bytes;
pub mod cli;
pub mod clock;
pub mod conflict;
pub mod encryption;
pub mod engine;
pub mod envelope;
pub mod errors;
pub mod ffi;
pub mod hashing;
pub mod keys;
pub mod maps;
pub mod message;
pub mod metrics;
pub mod natural;
pub mod queue;
pub mod settlement;
pub mod sim;
pub mod stellar_address;
pub mod storage;
pub mod text;
