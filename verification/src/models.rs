//! Transport-neutral request and reply shapes, and catalog enumerations.
//!
//! These are plain data: the facade validates raw inputs into them and the
//! surrounding service serializes them at its edges.

pub mod admin;
pub mod auth;
pub mod delegate;
pub mod market;
pub mod metadata;
pub mod status;
