//! Core of a folder / object-store synchronisation engine.
//!
//! The crate reconciles a snapshot of a local directory tree against a
//! snapshot of a remote object-store prefix: it normalises and compares
//! content fingerprints, plans which entries must be uploaded, downloaded or
//! skipped, accumulates paginated remote listings, and tracks concurrently
//! running keep-in-sync sessions in a registry that enforces one active
//! session per local path.  All transport (object-store calls, file reads,
//! filesystem watching) is left to the caller, which hands plain snapshot
//! values in and carries planned actions out.

pub mod config;
pub mod fingerprint;
pub mod reconcile;
pub mod registry;
pub mod store;
pub mod text;
