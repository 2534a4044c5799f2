//! A model of the repository, against which the state machine is proved to
//! do what it is for. The model is small: a branch is a name that points to
//! a commit, and a commit is written as the changes that lead to it, one
//! character for each, so that two refs have the same hash exactly when
//! they point to the same commit.

use vstd::prelude::*;
use crate::branch::origin_lead;
use crate::error::StackError;
use crate::gateway::{CallView, OutcomeView};
use crate::machine::{advance, MachineView, Report, StepView};

verus! {

/// The state of a repository, of its remote, and of the hooks memo.
pub struct Repo {
    /// The refs of the repository, local and remote-tracking, by name.
    pub branches: Map<Seq<char>, Seq<char>>,
    /// The branches of the remote, by name.
    pub remote: Map<Seq<char>, Seq<char>>,
    /// The ref that is checked out.
    pub head: Seq<char>,
    /// The configured hooks path; empty if none is set.
    pub hooks: Seq<char>,
    /// What the hooks memo holds, if there is one.
    pub memo: Option<Seq<char>>,
    /// The changes of a cherry-pick that stopped, if one is under way.
    pub paused: Option<Seq<char>>,
    /// Whether the next cherry-pick stops on a conflict.
    pub clash: bool,
    /// What a listing of the branches answers.
    pub listed: Seq<Seq<char>>,
    /// The author timestamp of each commit.
    pub stamp: spec_fn(Seq<char>) -> i64,
}

/// Whether `r` is a ref of the repository.
pub open spec fn is_ref(repo: Repo, r: Seq<char>) -> bool {
    repo.branches.dom().contains(r)
}

/// The repository with `name` pointing to `commit`.
pub open spec fn pointing(repo: Repo, name: Seq<char>, commit: Seq<char>) -> Repo {
    Repo { branches: repo.branches.insert(name, commit), ..repo }
}

/// The repository without the ref `name`.
pub open spec fn without(repo: Repo, name: Seq<char>) -> Repo {
    Repo { branches: repo.branches.remove(name), ..repo }
}

/// What a call does to the repository, and what comes of it. A call that
/// cannot be done fails and changes nothing. A branch is moved by force
/// wherever it is, checked out or not. A cherry-pick takes the changes that
/// its second ref has after its first, which has to be an ancestor; whether
/// it stops on a conflict is for `clash` to say, and while it is stopped
/// nothing has been replayed. The listing answers with `listed`, which the
/// model does not tie to the branches. The calls that no state machine
/// makes, a rebase by git itself, a log and the top directory, are not
/// modelled: they fail.
pub open spec fn respond(repo: Repo, call: CallView) -> (Repo, OutcomeView) {
    match call {
        CallView::CurrentBranch => (repo, OutcomeView::Text(repo.head)),
        CallView::ListBranches => (repo, OutcomeView::Lines(repo.listed)),
        CallView::CommitHash(r) => if is_ref(repo, r) {
            (repo, OutcomeView::Text(repo.branches[r]))
        } else {
            (repo, OutcomeView::Failed)
        },
        CallView::CommitTimestamp(r) => if is_ref(repo, r) {
            (repo, OutcomeView::Number((repo.stamp)(repo.branches[r])))
        } else {
            (repo, OutcomeView::Failed)
        },
        CallView::Checkout(r) => if is_ref(repo, r) {
            (Repo { head: r, ..repo }, OutcomeView::Done)
        } else {
            (repo, OutcomeView::Failed)
        },
        CallView::CreateBranch(name) => if is_ref(repo, repo.head) && !is_ref(repo, name) {
            (
                Repo { head: name, ..pointing(repo, name, repo.branches[repo.head]) },
                OutcomeView::Done,
            )
        } else {
            (repo, OutcomeView::Failed)
        },
        CallView::Reset { target, hard } => if is_ref(repo, repo.head) && is_ref(repo, target) {
            (pointing(repo, repo.head, repo.branches[target]), OutcomeView::Done)
        } else {
            (repo, OutcomeView::Failed)
        },
        CallView::ForceBranch { branch, target } => if is_ref(repo, target) {
            (pointing(repo, branch, repo.branches[target]), OutcomeView::Done)
        } else {
            (repo, OutcomeView::Failed)
        },
        CallView::DeleteLocal(name) => if is_ref(repo, name) && name != repo.head {
            (without(repo, name), OutcomeView::Done)
        } else {
            (repo, OutcomeView::Failed)
        },
        CallView::DeleteRemote(name) => if repo.remote.dom().contains(name) {
            (Repo { remote: repo.remote.remove(name), ..repo }, OutcomeView::Done)
        } else {
            (repo, OutcomeView::Failed)
        },
        CallView::DeleteTracking(name) => if is_ref(repo, origin_lead() + name) {
            (without(repo, origin_lead() + name), OutcomeView::Done)
        } else {
            (repo, OutcomeView::Failed)
        },
        CallView::CherryPick { from, to, strategy } => if is_ref(repo, repo.head) && is_ref(repo, from)
            && is_ref(repo, to) && repo.branches[from].is_prefix_of(repo.branches[to])
            && repo.paused is None {
            let changes = repo.branches[to].skip(repo.branches[from].len() as int);
            if repo.clash {
                (Repo { paused: Some(changes), ..repo }, OutcomeView::Conflict)
            } else {
                (
                    pointing(repo, repo.head, repo.branches[repo.head] + changes),
                    OutcomeView::Done,
                )
            }
        } else {
            (repo, OutcomeView::Failed)
        },
        CallView::CherryAbort => if repo.paused is Some {
            (Repo { paused: None, ..repo }, OutcomeView::Done)
        } else {
            (repo, OutcomeView::Failed)
        },
        CallView::CherryContinue => if repo.paused is Some && is_ref(repo, repo.head) {
            (
                Repo {
                    paused: None,
                    ..pointing(repo, repo.head, repo.branches[repo.head] + repo.paused->0)
                },
                OutcomeView::Done,
            )
        } else {
            (repo, OutcomeView::Failed)
        },
        CallView::Fetch(name) => if repo.remote.dom().contains(name) {
            (pointing(repo, origin_lead() + name, repo.remote[name]), OutcomeView::Done)
        } else {
            (repo, OutcomeView::Failed)
        },
        CallView::Push { branch, force } => if is_ref(repo, branch) {
            (
                Repo { remote: repo.remote.insert(branch, repo.branches[branch]), ..repo },
                OutcomeView::Done,
            )
        } else {
            (repo, OutcomeView::Failed)
        },
        CallView::Rebase { onto, interactive } => (repo, OutcomeView::Failed),
        CallView::Diff { from, until } => (repo, OutcomeView::Done),
        CallView::Rename { old_name, new_name } => if is_ref(repo, old_name) && !is_ref(
            repo,
            new_name,
        ) {
            (
                Repo {
                    branches: repo.branches.remove(old_name).insert(
                        new_name,
                        repo.branches[old_name],
                    ),
                    head: if repo.head == old_name {
                        new_name
                    } else {
                        repo.head
                    },
                    ..repo
                },
                OutcomeView::Done,
            )
        } else {
            (repo, OutcomeView::Failed)
        },
        CallView::Log(base) => (repo, OutcomeView::Failed),
        CallView::RepoRoot => (repo, OutcomeView::Failed),
        CallView::GetHooksPath => (repo, OutcomeView::Text(repo.hooks)),
        CallView::SetHooksPath(path) => (Repo { hooks: path, ..repo }, OutcomeView::Done),
        CallView::UnsetHooksPath => (Repo { hooks: Seq::empty(), ..repo }, OutcomeView::Done),
        CallView::SaveHooksPath(path) => (Repo { memo: Some(path), ..repo }, OutcomeView::Done),
        CallView::LoadHooksPath => match repo.memo {
            Some(path) => (repo, OutcomeView::Text(path)),
            None => (repo, OutcomeView::Failed),
        },
        CallView::DropHooksPath => if repo.memo is Some {
            (Repo { memo: None, ..repo }, OutcomeView::Done)
        } else {
            (repo, OutcomeView::Failed)
        },
    }
}

/// How a run of the machine ended.
pub struct Run {
    /// The result, if the machine came to an end within the calls allowed.
    pub result: Option<Result<Report, StackError>>,
    /// The repository as the run left it.
    pub repo: Repo,
    /// How many cherry-picks were begun.
    pub picks: nat,
}

/// One turn of a run: the repository after a call, the machine after it was
/// handed what came of the call, and the machine's answer.
pub struct Turn {
    pub machine: MachineView,
    pub step: StepView,
    pub repo: Repo,
}

/// The turn in which `call` is done on `repo` and its outcome handed to `m`.
pub open spec fn turn(
    m: MachineView,
    call: CallView,
    repo: Repo,
    prefix: Seq<char>,
    sep: Seq<char>,
) -> Turn {
    Turn {
        machine: advance(m, respond(repo, call).1, prefix, sep).0,
        step: advance(m, respond(repo, call).1, prefix, sep).1,
        repo: respond(repo, call).0,
    }
}

/// 1 for a call that begins a cherry-pick, 0 for any other.
pub open spec fn picks_in(call: CallView) -> nat {
    if call is CherryPick {
        1
    } else {
        0
    }
}

/// The run of the machine `m`, which waits for what comes of `call`, on the
/// repository `repo`: each call is done as `respond` says and its outcome is
/// handed to the machine, for at most `calls` calls.
pub open spec fn run(
    m: MachineView,
    call: CallView,
    repo: Repo,
    prefix: Seq<char>,
    sep: Seq<char>,
    calls: nat,
) -> Run
    decreases calls,
{
    if calls == 0 {
        Run { result: None, repo, picks: 0 }
    } else {
        let t = turn(m, call, repo, prefix, sep);
        match t.step {
            StepView::Done(result) => Run {
                result: Some(result),
                repo: t.repo,
                picks: picks_in(call),
            },
            StepView::Call(c) => {
                let rest = run(t.machine, c, t.repo, prefix, sep, (calls - 1) as nat);
                Run { picks: rest.picks + picks_in(call), ..rest }
            },
        }
    }
}

/// A run is its first turn and the run from there.
pub proof fn lemma_run_turn(
    m: MachineView,
    call: CallView,
    repo: Repo,
    prefix: Seq<char>,
    sep: Seq<char>,
    calls: nat,
)
    requires
        calls > 0,
    ensures
        run(m, call, repo, prefix, sep, calls) == match turn(m, call, repo, prefix, sep).step {
            StepView::Done(result) => Run {
                result: Some(result),
                repo: turn(m, call, repo, prefix, sep).repo,
                picks: picks_in(call),
            },
            StepView::Call(c) => Run {
                picks: run(
                    turn(m, call, repo, prefix, sep).machine,
                    c,
                    turn(m, call, repo, prefix, sep).repo,
                    prefix,
                    sep,
                    (calls - 1) as nat,
                ).picks + picks_in(call),
                ..run(
                    turn(m, call, repo, prefix, sep).machine,
                    c,
                    turn(m, call, repo, prefix, sep).repo,
                    prefix,
                    sep,
                    (calls - 1) as nat,
                )
            },
        },
{
}

} // verus!
