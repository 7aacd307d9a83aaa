//! One-shot directory synchronisation between a local tree and a cloud-drive
//! folder, with optional client-side encryption of file contents and names.
//!
//! This crate holds the decisions and the data formats: the streaming cipher
//! and its chunk framing, the passbook that wraps the data key, the filtering
//! of remote listings, and the reconciliation plans for both directions.
//! Everything that touches the network or the file system lives outside it
//! and hands this crate plain values.

pub mod common;
pub mod config;
pub mod convergence;
pub mod custom_crypto;
pub mod digest;
pub mod reconcile;
pub mod transfer;
pub mod uri;
