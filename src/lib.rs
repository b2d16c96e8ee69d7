//! Deploys a project tree onto a CircuitPython board under layered
//! ignore / force-include rules, with incremental change detection,
//! failure containment and backups.
//!
//! Everything here is pure: the file system is read and written by the
//! caller, which hands this library plain records and outcomes.

pub mod error;
pub mod text;
pub mod ignore;
pub mod sync;
pub mod file_ops;
pub mod board;
pub mod cli;
