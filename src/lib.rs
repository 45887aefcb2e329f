//! Reconciliation of a local mod-pack directory against its declared manifest:
//! the sorted-set differ, the sync planner, the content verifier and the
//! MurmurHash2 fingerprint they rely on.

pub mod artifact;
pub mod bump;
pub mod commands;
pub mod compare;
pub mod instance;
pub mod integrity;
pub mod json;
pub mod manifest;
pub mod murmur;
pub mod plan;
pub mod report;
pub mod version;
