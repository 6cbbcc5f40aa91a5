//! Management logic for named WireGuard-style tunnel profiles: deriving
//! interface names and configuration paths, normalizing and checking
//! configuration text, deciding connection status from tool reports,
//! extracting profile catalogs from directory listings, and modelling the
//! persistence and key-provisioning fallback policies.
//!
//! All functions here are pure: every interaction with the filesystem and
//! with the external tunnel tooling happens outside the library, which only
//! receives the plain values those interactions produced.

pub mod catalog;
pub mod config;
pub mod host;
pub mod invoke;
pub mod keys;
pub mod profile;
pub mod status;
pub mod store;
pub mod text;
