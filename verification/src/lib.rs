//! A paste store: byte payloads kept under generated identifiers, a registry of
//! users who may own them, and the repair pass that keeps the two consistent.
//!
//! The store and the registry live in memory. Whoever persists them hands the
//! service what was found on disk when it starts, and writes through what each
//! operation reports. The store in memory stands for the directory: where the
//! directory was changed from outside, the service is to be made anew from
//! what is found there. The random bytes of which identifiers are made are
//! drawn by the caller.

pub mod blob_store;
pub mod error;
pub mod guarantees;
pub mod identifier;
pub mod model;
pub mod service;
pub mod state;
pub mod text;
pub mod user;

pub use blob_store::BlobStore;
pub use error::Error;
pub use service::Service;
pub use state::State;
pub use user::User;
