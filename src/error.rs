use vstd::prelude::*;

use crate::path::{debug_of, path_debug};

verus! {

/// Why a chunk key could not be derived, or why an entry was refused by an index.
#[derive(Debug, PartialEq, Eq)]
pub enum ChunkError {
    /// A parent directory that the key needs has no name of its own.
    NoParent,
    /// The path has no final file name.
    NoFileName,
    /// An entry with the same chunk key is already indexed; holds the refused
    /// entry's path.
    DuplicateChunk(String),
}

/// Why two indexes cannot be compared.
#[derive(Debug, PartialEq, Eq)]
pub enum DiffError {
    /// The indexes were built with different chunk depths.
    MismatchedChunks,
}

impl ChunkError {
    /// A human-readable description of the error.
    pub fn message(&self) -> (r: String)
        ensures
            r@ == match self {
                ChunkError::NoParent => "Parent directory does not exist"@,
                ChunkError::NoFileName => "File name does not exist"@,
                ChunkError::DuplicateChunk(path) => "Duplicate chunk: "@ + debug_of(path@),
            },
    {
        match self {
            ChunkError::NoParent => "Parent directory does not exist".to_string(),
            ChunkError::NoFileName => "File name does not exist".to_string(),
            ChunkError::DuplicateChunk(path) => {
                let mut s = "Duplicate chunk: ".to_string();
                let shown = path_debug(path.as_str());
                s.append(shown.as_str());
                s
            },
        }
    }
}

impl DiffError {
    /// A human-readable description of the error.
    pub fn message(&self) -> (r: String)
        ensures
            r@ == "Diff files have different chunk size"@,
    {
        match self {
            DiffError::MismatchedChunks => "Diff files have different chunk size".to_string(),
        }
    }
}

} // verus!
