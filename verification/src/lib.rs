//! Formatting of raw system readouts into human-readable display strings:
//! uptime humanization, battery-state derivation, memory and CPU lines, and
//! machine-identity de-duplication.

pub mod error;
pub mod format;
pub mod readouts;
pub mod strnum;
pub mod strops;

pub use error::ReadoutError;
