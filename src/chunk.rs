//! Chunk keys: the root-independent identity of a file, made of the names of
//! up to `depth` parent directories followed by the file's own name.
use vstd::prelude::*;

use crate::error::ChunkError;
use crate::path::{file_name_of, opt_view, parent_of, path_file_name, path_parent};

verus! {

/// The chunk depth that indexes and walks use unless told otherwise.
pub const SIGNIFICANT_CHUNKS: usize = 2;

/// The characters of each segment of a chunk key.
pub open spec fn segs(v: Seq<String>) -> Seq<Seq<char>> {
    v.map_values(|s: String| s@)
}

/// The names of up to `depth` ancestors of `p`, outermost first. The walk up
/// stops early where an ancestor has no parent; it fails (`None`) where a
/// parent that is needed has no name of its own.
pub open spec fn ancestor_names(p: Seq<char>, depth: nat) -> Option<Seq<Seq<char>>>
    decreases depth,
{
    if depth == 0 {
        Some(Seq::empty())
    } else {
        match parent_of(p) {
            None => Some(Seq::empty()),
            Some(par) => match file_name_of(par) {
                None => None,
                Some(name) => match ancestor_names(par, (depth - 1) as nat) {
                    None => None,
                    Some(outer) => Some(outer.push(name)),
                },
            },
        }
    }
}

/// The chunk key of `p` at the given depth, or the error that deriving it gives.
pub open spec fn chunk_of(p: Seq<char>, depth: nat) -> Result<Seq<Seq<char>>, ChunkError> {
    match ancestor_names(p, depth) {
        None => Err(ChunkError::NoParent),
        Some(names) => match file_name_of(p) {
            None => Err(ChunkError::NoFileName),
            Some(name) => Ok(names.push(name)),
        },
    }
}

/// The `n`th ancestor of `p`: `p` itself for `n == 0`, its parent for `n == 1`.
pub open spec fn nth_ancestor(p: Seq<char>, n: nat) -> Option<Seq<char>>
    decreases n,
{
    if n == 0 {
        Some(p)
    } else {
        match parent_of(p) {
            None => None,
            Some(par) => nth_ancestor(par, (n - 1) as nat),
        }
    }
}

/// A chunk key result seen through the characters of its segments.
pub open spec fn chunk_result_view(r: Result<Vec<String>, ChunkError>) -> Result<
    Seq<Seq<char>>,
    ChunkError,
> {
    match r {
        Ok(v) => Ok(segs(v@)),
        Err(e) => Err(e),
    }
}

/// The characters of each optional name.
pub open spec fn names_view(v: Seq<Option<String>>) -> Seq<Option<Seq<char>>> {
    v.map_values(|o: Option<String>| opt_view(o))
}

/// Some ancestor in the list has no name.
pub open spec fn has_nameless(ancestors: Seq<Option<Seq<char>>>) -> bool {
    exists|i: int| 0 <= i < ancestors.len() && ancestors[i] is None
}

/// The names of a list of ancestors given innermost first, read back
/// outermost first.
pub open spec fn outermost_first(ancestors: Seq<Option<Seq<char>>>) -> Seq<Seq<char>> {
    Seq::new(ancestors.len(), |i: int| ancestors[ancestors.len() - 1 - i]->Some_0)
}

/// The chunk key made of the names of the ancestors that were walked through
/// (innermost first) and the file name: `NoParent` if an ancestor has no
/// name, else `NoFileName` if the file has none.
pub open spec fn chunk_from_names_of(
    ancestors: Seq<Option<Seq<char>>>,
    file_name: Option<Seq<char>>,
) -> Result<Seq<Seq<char>>, ChunkError> {
    if has_nameless(ancestors) {
        Err(ChunkError::NoParent)
    } else {
        match file_name {
            None => Err(ChunkError::NoFileName),
            Some(name) => Ok(outermost_first(ancestors).push(name)),
        }
    }
}

/// Assembles a chunk key from the names of the ancestors that were walked
/// through, innermost first, and the file's own name.
pub fn chunk_from_names(ancestors: &Vec<Option<String>>, file_name: &Option<String>) -> (r: Result<
    Vec<String>,
    ChunkError,
>)
    ensures
        chunk_result_view(r) == chunk_from_names_of(names_view(ancestors@), opt_view(*file_name)),
{
    let ghost a = names_view(ancestors@);
    let n = ancestors.len();
    let mut out: Vec<String> = Vec::new();
    for j in 0..n
        invariant
            n == ancestors@.len(),
            a == names_view(ancestors@),
            segs(out@) == Seq::new(j as nat, |i: int| a[a.len() - 1 - i]->Some_0),
            forall|k: int| n - j <= k < n ==> (#[trigger] a[k]) is Some,
    {
        let ghost before = out@;
        match &ancestors[n - 1 - j] {
            None => {
                assert(a[n - 1 - j] is None);
                return Err(ChunkError::NoParent);
            },
            Some(name) => {
                assert(a[n - 1 - j] == Some(name@));
                out.push(name.clone());
                assert(segs(out@) =~= segs(before).push(name@));
            },
        }
        assert(segs(out@) =~= Seq::new((j + 1) as nat, |i: int| a[a.len() - 1 - i]->Some_0));
    }
    assert(!has_nameless(a));
    assert(segs(out@) =~= outermost_first(a));
    match file_name {
        None => Err(ChunkError::NoFileName),
        Some(name) => {
            let ghost before = out@;
            out.push(name.clone());
            assert(segs(out@) =~= segs(before).push(name@));
            Ok(out)
        },
    }
}

/// Derives the chunk key of `path`: the names of up to `depth` parent
/// directories, outermost first, then the file name. A key always has one
/// segment per level of depth, and one for the file.
pub fn create_chunk(path: &str, depth: usize) -> (r: Result<Vec<String>, ChunkError>)
    ensures
        chunk_result_view(r) == chunk_of(path@, depth as nat),
        r is Ok ==> r->Ok_0@.len() == depth + 1,
{
    let file = path_file_name(path);
    let mut ancestors: Vec<Option<String>> = Vec::new();
    let mut cur: String = path.to_string();
    let mut i: usize = 0;
    while i < depth
        invariant_except_break
            ancestors@.len() == i,
            !has_nameless(names_view(ancestors@)),
            ancestor_names(path@, depth as nat) == match ancestor_names(
                cur@,
                (depth - i) as nat,
            ) {
                None => None,
                Some(outer) => Some(outer + outermost_first(names_view(ancestors@))),
            },
        invariant
            i <= depth,
            i == 0 ==> cur@ == path@,
            i > 0 ==> file_name_of(cur@) is Some && parent_of(cur@) is Some,
            opt_view(file) == file_name_of(path@),
            file is Some ==> parent_of(path@) is Some,
        ensures
            ancestor_names(path@, depth as nat) == if has_nameless(names_view(ancestors@)) {
                None::<Seq<Seq<char>>>
            } else {
                Some(outermost_first(names_view(ancestors@)))
            },
            file is Some && !has_nameless(names_view(ancestors@)) ==> ancestors@.len() == depth,
        decreases depth - i,
    {
        let ghost before = names_view(ancestors@);
        let parent = match path_parent(cur.as_str()) {
            Some(par) => par,
            None => {
                assert(outermost_first(before) =~= Seq::<Seq<char>>::empty() + outermost_first(
                    before,
                ));
                break;
            },
        };
        match path_file_name(parent.as_str()) {
            None => {
                ancestors.push(None);
                assert(names_view(ancestors@)[i as int] is None);
                break;
            },
            Some(name) => {
                let ghost nm = name@;
                ancestors.push(Some(name));
                let ghost after = names_view(ancestors@);
                assert(after =~= before.push(Some(nm)));
                assert(outermost_first(after) =~= seq![nm] + outermost_first(before));
                assert(!has_nameless(after)) by {
                    assert forall|k: int| 0 <= k < after.len() implies after[k] is Some by {
                        if k < before.len() {
                            assert(after[k] == before[k]);
                        }
                    }
                }
                proof {
                    match ancestor_names(parent@, (depth - i - 1) as nat) {
                        None => {},
                        Some(outer) => {
                            assert(outer.push(nm) + outermost_first(before) =~= outer + (seq![nm]
                                + outermost_first(before)));
                        },
                    }
                }
            },
        }
        cur = parent;
        i = i + 1;
        if i == depth {
            assert(Seq::<Seq<char>>::empty() + outermost_first(names_view(ancestors@))
                =~= outermost_first(names_view(ancestors@)));
        }
    }
    let r = chunk_from_names(&ancestors, &file);
    proof {
        if r is Ok {
            assert(segs(r->Ok_0@) == outermost_first(names_view(ancestors@)).push(
                file_name_of(path@)->Some_0,
            ));
        }
    }
    r
}

/// A path one of whose first `depth` ancestors is a root (an ancestor with no
/// name of its own) has no chunk key at that depth: deriving it fails with
/// `NoParent` rather than settling for a shorter key.
pub proof fn lemma_root_within_depth_has_no_chunk(p: Seq<char>, depth: nat, k: nat)
    requires
        1 <= k <= depth,
        nth_ancestor(p, k) is Some,
        file_name_of(nth_ancestor(p, k)->Some_0) is None,
    ensures
        chunk_of(p, depth) == Err::<Seq<Seq<char>>, ChunkError>(ChunkError::NoParent),
{
    lemma_root_within_depth_stops_ancestors(p, depth, k);
}

proof fn lemma_root_within_depth_stops_ancestors(p: Seq<char>, depth: nat, k: nat)
    requires
        1 <= k <= depth,
        nth_ancestor(p, k) is Some,
        file_name_of(nth_ancestor(p, k)->Some_0) is None,
    ensures
        ancestor_names(p, depth) is None,
    decreases k,
{
    assert(parent_of(p) is Some);
    let par = parent_of(p)->Some_0;
    assert(nth_ancestor(p, k) == nth_ancestor(par, (k - 1) as nat));
    if file_name_of(par) is Some {
        if k == 1 {
            assert(nth_ancestor(par, 0) == Some(par));
        } else {
            lemma_root_within_depth_stops_ancestors(par, (depth - 1) as nat, (k - 1) as nat);
        }
    }
}

} // verus!
