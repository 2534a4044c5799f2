//! A rebase that is under way is recorded in the repository itself: by two
//! temporary branches, named after the branch that is rebased and after its
//! start marker. This module names them and reads the names back.

use vstd::prelude::*;
use crate::branch::{
    decode, full_name, lead_of, parse_branch, start_name, starts_tag, BranchId, ParsedBranch,
};
use crate::config::SavedConfig;
use crate::error::StackError;
use crate::gateway::text_of;
use crate::text::{append_chars, has_prefix, matches_at, same_chars, slice_chars, to_chars, to_text};

verus! {

/// The text `_tmp_-` that marks a temporary branch.
pub open spec fn tmp_marker() -> Seq<char> {
    seq!['_', 't', 'm', 'p', '_', '-']
}

/// The name of the temporary branch that stands for `branch`.
#[verifier::opaque]
pub open spec fn tmp_name(branch: Seq<char>) -> Seq<char> {
    tmp_marker() + branch
}

/// A temporary name carries the marker, and what follows the marker is the
/// name it stands for.
pub proof fn lemma_unmarked_tmp_name(branch: Seq<char>)
    ensures
        unmarked(tmp_name(branch)) == Some(branch),
{
    reveal(tmp_name);
    assert(tmp_name(branch).subrange(0, 6) =~= tmp_marker());
    assert(tmp_name(branch).skip(6) =~= branch);
}

/// The name of the branch that the temporary branch `branch` stands for;
/// nothing if `branch` does not carry the marker.
pub open spec fn unmarked(branch: Seq<char>) -> Option<Seq<char>> {
    if has_prefix(branch, tmp_marker()) {
        Some(branch.skip(tmp_marker().len() as int))
    } else {
        None
    }
}

/// The branch whose rebase the temporary branch `name` records. It is an
/// error for `name` not to carry the marker, and for what follows the marker
/// not to be a name as this library writes it.
pub open spec fn recorded_branch(name: Seq<char>, prefix: Seq<char>, sep: Seq<char>) -> Result<
    BranchId,
    StackError,
> {
    match unmarked(name) {
        None => Err(StackError::NotInTransaction),
        Some(original) => if full_name(decode(original, prefix, sep), sep) == original {
            Ok(decode(original, prefix, sep))
        } else {
            Err(StackError::MalformedTransactionMarker)
        },
    }
}

proof fn lemma_no_s_in_marked(whole: Seq<char>, lead: Seq<char>, k: int)
    requires
        whole == tmp_marker() + lead,
        whole == lead + starts_tag(),
        0 <= k < whole.len(),
    ensures
        whole[k] != 's',
    decreases k,
{
    if k >= 6 {
        assert(whole[k] == lead[k - 6]);
        assert(lead[k - 6] == whole[k - 6]);
        lemma_no_s_in_marked(whole, lead, k - 6);
    } else {
        assert(whole[k] == tmp_marker()[k]);
    }
}

/// The four names of a rebase are four different names: the branch, its
/// start marker, and the temporary branch of each.
pub proof fn lemma_names_differ(b: BranchId, sep: Seq<char>)
    ensures
        full_name(b, sep) != start_name(b, sep),
        tmp_name(full_name(b, sep)) != full_name(b, sep),
        tmp_name(start_name(b, sep)) != start_name(b, sep),
        tmp_name(full_name(b, sep)) != tmp_name(start_name(b, sep)),
        tmp_name(start_name(b, sep)) != full_name(b, sep),
        tmp_name(full_name(b, sep)) != start_name(b, sep),
{
    reveal(full_name);
    reveal(start_name);
    reveal(tmp_name);
    let full = full_name(b, sep);
    let start = start_name(b, sep);
    assert(start.len() == full.len() + 6 + sep.len());
    assert(tmp_name(full).len() == full.len() + 6);
    assert(tmp_name(start).len() == start.len() + 6);
    if sep.len() == 0 && tmp_name(full) == start {
        let lead = lead_of(b, sep);
        let n = lead.len() + 6;
        let whole = tmp_marker() + lead;
        assert(tmp_name(full).take(n as int) =~= whole);
        assert(start.take(n as int) =~= lead + starts_tag());
        lemma_no_s_in_marked(whole, lead, n - 1);
        assert((lead + starts_tag())[n - 1] == starts_tag()[5]);
    }
}

fn tmp_marker_chars() -> (v: Vec<char>)
    ensures
        v@ == tmp_marker(),
{
    let mut v: Vec<char> = Vec::new();
    v.push('_');
    v.push('t');
    v.push('m');
    v.push('p');
    v.push('_');
    v.push('-');
    assert(v@ =~= tmp_marker());
    v
}

/// The name of the temporary branch that stands for `branch`.
pub fn tmp_for_branch_name(branch: &str) -> (name: String)
    ensures
        name@ == tmp_name(branch@),
{
    proof {
        reveal(tmp_name);
    }
    let mut v = tmp_marker_chars();
    append_chars(&mut v, &to_chars(branch));
    to_text(&v)
}

/// The name of the branch that the temporary branch `branch` stands for.
pub fn branch_from_tmp(branch: &str) -> (original: Option<String>)
    ensures
        text_of(original) == unmarked(branch@),
{
    let name = to_chars(branch);
    let marker = tmp_marker_chars();
    if matches_at(&name, &marker, 0) {
        Some(to_text(&slice_chars(&name, marker.len(), name.len())))
    } else {
        None
    }
}

/// Whether two refs point to the same commit, given the hashes of both.
pub fn branches_are_equivalent(hash1: &str, hash2: &str) -> (same: bool)
    ensures
        same == (hash1@ == hash2@),
{
    same_chars(&to_chars(hash1), &to_chars(hash2))
}

/// A branch together with the names of the temporary branches that record
/// its rebase.
#[derive(Debug, PartialEq, Eq)]
pub struct TmpBranchWrapper {
    pub inner: ParsedBranch,
}

impl View for TmpBranchWrapper {
    type V = BranchId;

    open spec fn view(&self) -> BranchId {
        self.inner@
    }
}

impl TmpBranchWrapper {
    /// The record of the rebase that the temporary branch `branch` stands
    /// for.
    pub fn new_from_tmp_branch(branch: &str, cfg: &SavedConfig) -> (record: Result<
        TmpBranchWrapper,
        StackError,
    >)
        ensures
            match record {
                Ok(w) => recorded_branch(branch@, cfg.branch_prefix@, cfg.branch_split@) == Ok::<
                    BranchId,
                    StackError,
                >(w@),
                Err(e) => recorded_branch(branch@, cfg.branch_prefix@, cfg.branch_split@) == Err::<
                    BranchId,
                    StackError,
                >(e),
            },
    {
        match branch_from_tmp(branch) {
            None => Err(StackError::NotInTransaction),
            Some(original) => {
                let parsed = parse_branch(original.as_str(), cfg);
                let written = parsed.full(cfg);
                if written == original {
                    Ok(TmpBranchWrapper::new(parsed))
                } else {
                    Err(StackError::MalformedTransactionMarker)
                }
            },
        }
    }

    /// The record of a rebase of `p`.
    pub fn new(p: ParsedBranch) -> (record: TmpBranchWrapper)
        ensures
            record@ == p@,
    {
        TmpBranchWrapper { inner: p }
    }

    /// The name of the temporary branch that stands for the branch itself.
    pub fn tmp_branch_name(&self, cfg: &SavedConfig) -> (name: String)
        ensures
            name@ == tmp_name(full_name(self@, cfg.branch_split@)),
    {
        tmp_for_branch_name(self.inner.full(cfg).as_str())
    }

    /// The name of the temporary branch that stands for the start marker.
    pub fn tmp_start_branch_name(&self, cfg: &SavedConfig) -> (name: String)
        ensures
            name@ == tmp_name(start_name(self@, cfg.branch_split@)),
    {
        tmp_for_branch_name(self.inner.start(cfg).as_str())
    }
}

} // verus!
