//! Order-independent snapshots of a directory tree and their comparison.
//!
//! Each file is identified by a short, root-independent chunk key built from
//! its trailing path segments; an index maps chunk keys to file records, and
//! two indexes are compared to find files that went missing or changed size.
pub mod chunk;
pub mod db;
pub mod error;
pub mod path;
pub mod walker;
