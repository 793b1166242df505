//! Leveled, targeted log records carried from guest code inside a contract to
//! its host.
//!
//! The guest side filters a log call against per-module thresholds, frames it
//! as a wire record and names the host operation to invoke. The host side
//! decodes the record, validates its text and routes it to one call of the
//! host's own logging sink. Outside any contract a record is rendered as a
//! console line instead.

pub mod bridge;
pub mod level;
pub mod logger;
pub mod off_chain;
pub mod runtime;
pub mod text;
pub mod transport;
pub mod wire;
