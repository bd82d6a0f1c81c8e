//! Which items of a directory walk become index entries. The traversal itself
//! is left to the caller, which hands each item over as plain values.
use vstd::prelude::*;

use crate::chunk::{chunk_of, SIGNIFICANT_CHUNKS};
use crate::db::{Entry, EntryView};
use crate::path::{file_name_of, path_file_name};

verus! {

/// How a directory walk is done.
#[derive(Debug)]
pub struct WalkerConfig {
    /// File names to leave out, matched exactly against a file's own name.
    pub exclude: Vec<String>,
    /// The depth that chunk keys are derived at; an index that the walk
    /// fills should be made with the same depth.
    pub depth: usize,
}

impl Default for WalkerConfig {
    fn default() -> (r: WalkerConfig)
        ensures
            r.exclude@.len() == 0,
            r.depth == SIGNIFICANT_CHUNKS,
    {
        WalkerConfig { exclude: Vec::new(), depth: SIGNIFICANT_CHUNKS }
    }
}

/// `name` is one of the excluded file names.
pub open spec fn excludes(exclude: Seq<String>, name: Seq<char>) -> bool {
    exists|i: int| 0 <= i < exclude.len() && exclude[i]@ == name
}

/// The entry that a walk yields for an item at `path`, if any: only regular
/// files whose name is not excluded, whose size could be read, and whose
/// chunk key can be derived at `depth`.
pub open spec fn walk_entry_of(
    exclude: Seq<String>,
    depth: nat,
    path: Seq<char>,
    is_file: bool,
    size: Option<u64>,
) -> Option<EntryView> {
    if !is_file {
        None
    } else {
        match file_name_of(path) {
            None => None,
            Some(name) => if excludes(exclude, name) {
                None
            } else {
                match (size, chunk_of(path, depth)) {
                    (Some(len), Ok(chunk)) => Some(
                        EntryView { relative_path: path, chunk, size: len },
                    ),
                    _ => None,
                }
            },
        }
    }
}

impl WalkerConfig {
    /// Whether `name` is one of the excluded file names.
    pub fn is_excluded(&self, name: &String) -> (r: bool)
        ensures
            r == excludes(self.exclude@, name@),
    {
        for i in 0..self.exclude.len()
            invariant
                forall|j: int| 0 <= j < i ==> self.exclude@[j]@ != name@,
        {
            if self.exclude[i] == *name {
                return true;
            }
        }
        false
    }
}

/// The entry that a walk yields for the item at `path`: `is_file` tells
/// whether it is a regular file, `size` holds its length if its metadata could
/// be read. Items that are not files, whose name is excluded, or whose size or
/// chunk key cannot be had are dropped.
pub fn walk_entry(cfg: &WalkerConfig, path: &str, is_file: bool, size: Option<u64>) -> (r: Option<
    Entry,
>)
    ensures
        match walk_entry_of(cfg.exclude@, cfg.depth as nat, path@, is_file, size) {
            Some(v) => r is Some && r->Some_0@ == v,
            None => r is None,
        },
        r is Some ==> file_name_of(path@) is Some && !excludes(
            cfg.exclude@,
            file_name_of(path@)->Some_0,
        ),
{
    if !is_file {
        return None;
    }
    let name = match path_file_name(path) {
        Some(n) => n,
        None => {
            return None;
        },
    };
    if cfg.is_excluded(&name) {
        return None;
    }
    let len = match size {
        Some(len) => len,
        None => {
            return None;
        },
    };
    match Entry::from_path(path, len, cfg.depth) {
        Ok(e) => Some(e),
        Err(_) => None,
    }
}

} // verus!
