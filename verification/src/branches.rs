//! The list of branches that the branch view shows: each branch that is no
//! start marker, with whether it is checked out, whether its start marker
//! exists, and its pull request.

use vstd::prelude::*;
use crate::branch::{decode, is_start_branch, parse_branch, start_name, starts_tag};
use crate::config::SavedConfig;
use crate::pr::{prs_of, Pr, PrView};
use crate::text::has_prefix;

verus! {

/// A branch as git lists it.
#[derive(Debug, PartialEq, Eq)]
pub struct BranchInfo {
    pub name: String,
    pub date_created: i64,
}

/// The mathematical value of a `BranchInfo`.
pub struct BranchInfoView {
    pub name: Seq<char>,
    pub date_created: i64,
}

impl View for BranchInfo {
    type V = BranchInfoView;

    open spec fn view(&self) -> BranchInfoView {
        BranchInfoView { name: self.name@, date_created: self.date_created }
    }
}

/// A branch with what the branch view shows of it.
#[derive(Debug, PartialEq, Eq)]
pub struct BranchWithInfo {
    pub branch: String,
    pub date_created: i64,
    pub current: bool,
    pub has_start: bool,
    pub pr: Option<Pr>,
}

/// The mathematical value of a `BranchWithInfo`.
pub struct RowView {
    pub branch: Seq<char>,
    pub date_created: i64,
    pub current: bool,
    pub has_start: bool,
    pub pr: Option<PrView>,
}

impl View for BranchWithInfo {
    type V = RowView;

    open spec fn view(&self) -> RowView {
        RowView {
            branch: self.branch@,
            date_created: self.date_created,
            current: self.current,
            has_start: self.has_start,
            pr: match self.pr {
                Some(p) => Some(p@),
                None => None,
            },
        }
    }
}

impl BranchWithInfo {
    /// Sets the pull request of the branch.
    pub fn set_pr(&mut self, pr: Option<Pr>)
        ensures
            final(self)@ == (RowView {
                pr: match pr {
                    Some(p) => Some(p@),
                    None => None,
                },
                ..old(self)@
            }),
    {
        self.pr = pr;
    }
}

/// The values of a list of branches.
pub open spec fn infos_of(branches: Seq<BranchInfo>) -> Seq<BranchInfoView> {
    Seq::new(branches.len(), |i: int| branches[i]@)
}

/// The values of a list of rows.
pub open spec fn rows_of(rows: Seq<BranchWithInfo>) -> Seq<RowView> {
    Seq::new(rows.len(), |i: int| rows[i]@)
}

/// Whether a branch of the given name is listed.
pub open spec fn is_listed(branches: Seq<BranchInfoView>, name: Seq<char>) -> bool {
    exists|i: int| 0 <= i < branches.len() && (#[trigger] branches[i]).name == name
}

/// Whether a row of the given branch is there.
pub open spec fn has_row(rows: Seq<RowView>, name: Seq<char>) -> bool {
    exists|i: int| 0 <= i < rows.len() && (#[trigger] rows[i]).branch == name
}

/// The last pull request of the given branch.
pub open spec fn last_pr_of(prs: Seq<PrView>, name: Seq<char>) -> Option<PrView>
    decreases prs.len(),
{
    if prs.len() == 0 {
        None
    } else if prs.last().branch == name {
        Some(prs.last())
    } else {
        last_pr_of(prs.drop_last(), name)
    }
}

/// The rows of the first branches of `all`, those in `upto`. A start marker
/// has no row. A branch is the current one if it has the name of the
/// checked-out branch; it has a start marker if the name of its start marker
/// is listed; its pull request is the last one of its name, unless a row
/// before it has taken that one.
pub open spec fn rows_for(
    upto: Seq<BranchInfoView>,
    all: Seq<BranchInfoView>,
    current: Seq<char>,
    prs: Seq<PrView>,
    prefix: Seq<char>,
    sep: Seq<char>,
) -> Seq<RowView>
    decreases upto.len(),
{
    if upto.len() == 0 {
        Seq::empty()
    } else {
        let before = rows_for(upto.drop_last(), all, current, prs, prefix, sep);
        let b = upto.last();
        if has_prefix(b.name, prefix + sep + starts_tag()) {
            before
        } else {
            before.push(
                RowView {
                    branch: b.name,
                    date_created: b.date_created,
                    current: b.name == current,
                    has_start: is_listed(all, start_name(decode(b.name, prefix, sep), sep)),
                    pr: if has_row(before, b.name) {
                        None
                    } else {
                        last_pr_of(prs, b.name)
                    },
                },
            )
        }
    }
}

fn listed(branches: &Vec<BranchInfo>, name: &String) -> (found: bool)
    ensures
        found == is_listed(infos_of(branches@), name@),
{
    let mut i: usize = 0;
    while i < branches.len()
        invariant
            i <= branches.len(),
            forall|k: int| 0 <= k < i ==> (#[trigger] infos_of(branches@)[k]).name != name@,
        decreases branches.len() - i,
    {
        if branches[i].name == *name {
            assert(infos_of(branches@)[i as int].name == name@);
            return true;
        }
        i += 1;
    }
    false
}

fn row_there(rows: &Vec<BranchWithInfo>, name: &String) -> (found: bool)
    ensures
        found == has_row(rows_of(rows@), name@),
{
    let mut i: usize = 0;
    while i < rows.len()
        invariant
            i <= rows.len(),
            forall|k: int| 0 <= k < i ==> (#[trigger] rows_of(rows@)[k]).branch != name@,
        decreases rows.len() - i,
    {
        if rows[i].branch == *name {
            assert(rows_of(rows@)[i as int].branch == name@);
            return true;
        }
        i += 1;
    }
    false
}

fn last_pr(prs: &Vec<Pr>, name: &String) -> (found: Option<Pr>)
    ensures
        match found {
            Some(p) => last_pr_of(prs_of(prs@), name@) == Some(p@),
            None => last_pr_of(prs_of(prs@), name@) is None,
        },
{
    let mut i: usize = prs.len();
    assert(prs_of(prs@).take(i as int) =~= prs_of(prs@));
    while i > 0
        invariant
            i <= prs.len(),
            last_pr_of(prs_of(prs@), name@) == last_pr_of(prs_of(prs@).take(i as int), name@),
        decreases i,
    {
        assert(prs_of(prs@).take(i as int).drop_last() =~= prs_of(prs@).take(i - 1));
        assert(prs_of(prs@).take(i as int).last() == prs@[i - 1]@);
        if prs[i - 1].branch == *name {
            return Some(prs[i - 1].clone());
        }
        i -= 1;
    }
    None
}

/// Puts together what the branch view shows: see `rows_for`.
pub fn load_branch_infos(
    branches: &Vec<BranchInfo>,
    current_branch: &String,
    prs: &Vec<Pr>,
    cfg: &SavedConfig,
) -> (rows: Vec<BranchWithInfo>)
    ensures
        rows_of(rows@) == rows_for(
            infos_of(branches@),
            infos_of(branches@),
            current_branch@,
            prs_of(prs@),
            cfg.branch_prefix@,
            cfg.branch_split@,
        ),
{
    let mut rows: Vec<BranchWithInfo> = Vec::new();
    let mut i: usize = 0;
    proof {
        assert(infos_of(branches@).take(0) =~= Seq::<BranchInfoView>::empty());
        assert(rows_of(rows@) =~= Seq::<RowView>::empty());
    }
    while i < branches.len()
        invariant
            i <= branches.len(),
            rows_of(rows@) == rows_for(
                infos_of(branches@).take(i as int),
                infos_of(branches@),
                current_branch@,
                prs_of(prs@),
                cfg.branch_prefix@,
                cfg.branch_split@,
            ),
        decreases branches.len() - i,
    {
        proof {
            let upto = infos_of(branches@).take(i + 1);
            assert(upto.drop_last() =~= infos_of(branches@).take(i as int));
            assert(upto.last() == branches@[i as int]@);
        }
        let b = &branches[i];
        if !is_start_branch(b.name.as_str(), cfg) {
            let parsed = parse_branch(b.name.as_str(), cfg);
            let start = parsed.start(cfg);
            let pr = if row_there(&rows, &b.name) {
                None
            } else {
                last_pr(prs, &b.name)
            };
            let row = BranchWithInfo {
                branch: b.name.clone(),
                date_created: b.date_created,
                current: b.name == *current_branch,
                has_start: listed(branches, &start),
                pr,
            };
            let ghost before = rows_of(rows@);
            let ghost added = row@;
            rows.push(row);
            assert(rows_of(rows@) =~= before.push(added));
        }
        i += 1;
    }
    assert(infos_of(branches@).take(branches.len() as int) =~= infos_of(branches@));
    rows
}

} // verus!
