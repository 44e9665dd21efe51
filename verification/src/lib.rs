//! An offline-first project store with deterministic cloud synchronization.
//!
//! `store` holds the local table of project records (create, read, update,
//! soft-delete, snapshot). `remote` models the remote collaborator that a
//! sync pass reconciles against. `sync` carries out one reconciliation pass
//! with last-writer-wins conflict resolution and a per-project report.
//! `laws` states and proves the library's global properties.

pub mod store;
pub mod remote;
pub mod sync;
pub mod laws;
