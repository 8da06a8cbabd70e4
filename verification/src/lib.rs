//! Naming, sanitizing and reporting of discarded attachments that are
//! offloaded to object storage.
pub mod config;
pub mod hints;
pub mod offload;
pub mod paths;
pub mod text;
