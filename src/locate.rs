use vstd::prelude::*;

use crate::error::GitError;
use crate::path::{ancestor_chain, PathView, RepoPath};

verus! {

/// The probe for candidate `i` reported a metadata directory there. A probe
/// that is missing counts as one that found nothing.
pub open spec fn probed(found: Seq<bool>, i: int) -> bool {
    0 <= i < found.len() && found[i]
}

/// Candidate `i` of the walk up from `start` is the nearest one for which
/// the probe found a metadata directory.
pub open spec fn is_first_found(start: PathView, found: Seq<bool>, i: int) -> bool {
    0 <= i < ancestor_chain(start).len() && probed(found, i) && forall|j: int|
        0 <= j < i ==> !#[trigger] probed(found, j)
}

/// Some candidate of the walk up from `start` holds a metadata directory.
pub open spec fn any_found(start: PathView, found: Seq<bool>) -> bool {
    exists|i: int| 0 <= i < ancestor_chain(start).len() && #[trigger] probed(found, i)
}

/// Picks the root of the repository that holds `start`. The candidates are
/// `start.ancestors()`, nearest first; `found[i]` says whether candidate `i`
/// is a directory that holds `.git`. The result is the first candidate for
/// which that holds; where none does, the error carries `start` itself.
pub fn find_repo(start: &RepoPath, found: &Vec<bool>) -> (r: Result<RepoPath, GitError>)
    ensures
        r is Ok <==> any_found(start@, found@),
        match r {
            Ok(p) => exists|i: int|
                is_first_found(start@, found@, i) && p@ == #[trigger] ancestor_chain(start@)[i],
            Err(GitError::NotAGitRepo(q)) => q@ == start@,
            Err(_) => false,
        },
        probed(found@, 0) ==> (r matches Ok(p) && p@ == start@),
{
    let candidates = start.ancestors();
    let ghost chain = ancestor_chain(start@);
    assert(candidates@.len() == chain.len()) by {
        assert(candidates@.map_values(|a: RepoPath| a@).len() == chain.len());
    }
    let mut i: usize = 0;
    while i < candidates.len()
        invariant
            0 <= i <= candidates.len(),
            candidates@.len() == chain.len(),
            candidates@.map_values(|a: RepoPath| a@) == chain,
            chain == ancestor_chain(start@),
            forall|j: int| 0 <= j < i ==> !#[trigger] probed(found@, j),
        decreases candidates.len() - i,
    {
        if i < found.len() && found[i] {
            let p = candidates[i].duplicate();
            assert(p@ == chain[i as int]) by {
                assert(candidates@.map_values(|a: RepoPath| a@)[i as int] == candidates@[i as int]@);
            }
            assert(is_first_found(start@, found@, i as int));
            proof {
                if probed(found@, 0) {
                    assert(i == 0);
                    assert(chain[0].components =~= start@.components);
                }
            }
            return Ok(p);
        }
        i = i + 1;
    }
    Err(GitError::NotAGitRepo(start.duplicate()))
}

} // verus!
