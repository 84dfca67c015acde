//! A file-selection engine: filesystem entries are normalized into
//! metadata snapshots, a composable predicate built from presets and a
//! tiny query language accepts or rejects each one, and the accepted paths
//! feed downstream file-organizing actions.
//!
//! Everything here is pure: snapshots are built from plain metadata
//! values, and every function carries a contract stating exactly what it
//! computes. Walking directories, reading metadata and performing actions
//! belong to the surrounding binary.

pub mod cmdargs;
pub mod file;
pub mod find;
pub mod input;
pub mod filter;
pub mod pathinfo;
pub mod text;
pub mod util;
