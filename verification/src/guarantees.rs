//! What a run of the state machine does to a repository, proved against the
//! model of the repository.

use vstd::prelude::*;
use crate::branch::{decode, full_name, lead_of, origin_lead, start_name, starts_tag, BranchId};
use crate::error::StackError;
use crate::gateway::{CallView, OutcomeView};
use crate::machine::{advance, fresh, no_hooks, MachineView, Phase, Report, StepView};
use crate::model::{is_ref, lemma_run_turn, run, turn, Repo, Run};
use crate::stack::{index_of_position, siblings};
use crate::text::has_prefix;
use crate::transaction::{
    lemma_names_differ, lemma_unmarked_tmp_name, recorded_branch, tmp_marker, tmp_name,
};

verus! {

/// A rebase of a branch without commits of its own replays nothing: if the
/// start marker and the checked-out branch are the same commit, the run
/// begins no cherry-pick and ends with both pointing to the commit of the
/// new base; nothing else in the repository changes.
#[verifier::rlimit(60)]
pub proof fn lemma_rebase_without_commits(
    repo: Repo,
    onto: Seq<char>,
    strategy: Option<Seq<char>>,
    prefix: Seq<char>,
    sep: Seq<char>,
)
    requires
        is_ref(repo, onto),
        is_ref(repo, full_name(decode(repo.head, prefix, sep), sep)),
        is_ref(repo, start_name(decode(repo.head, prefix, sep), sep)),
        repo.branches[start_name(decode(repo.head, prefix, sep), sep)]
            == repo.branches[full_name(decode(repo.head, prefix, sep), sep)],
    ensures
        ({
            let target = decode(repo.head, prefix, sep);
            let end = run(
                fresh(Phase::StartCurrent, Some(onto), strategy, false, false),
                CallView::CurrentBranch,
                repo,
                prefix,
                sep,
                6,
            );
            &&& end.result == Some(Ok::<Report, StackError>(Report::Completed))
            &&& end.picks == 0
            &&& end.repo.branches[full_name(target, sep)] == repo.branches[onto]
            &&& end.repo.branches[start_name(target, sep)] == repo.branches[onto]
            &&& end.repo == Repo {
                branches: repo.branches.insert(full_name(target, sep), repo.branches[onto]).insert(
                    start_name(target, sep),
                    repo.branches[onto],
                ),
                ..repo
            }
        }),
{
    let target = decode(repo.head, prefix, sep);
    let full = full_name(target, sep);
    let start = start_name(target, sep);
    let tf = tmp_name(full);
    let ts = tmp_name(start);
    let m0 = fresh(Phase::StartCurrent, Some(onto), strategy, false, false);
    let c0 = CallView::CurrentBranch;
    let c1 = CallView::CommitHash(onto);
    let m1 = MachineView { phase: Phase::StartOntoHash, target, onto, ..m0 };
    let r1 = repo;
    assert(run(m0, c0, repo, prefix, sep, 6) == run(m1, c1, r1, prefix, sep, 5)) by {
        lemma_run_turn(m0, c0, repo, prefix, sep, 6);
        let t = turn(m0, c0, repo, prefix, sep);
        assert(t.repo.branches =~= r1.branches);
        assert(t.repo.remote =~= r1.remote);
        assert(t.repo.hooks =~= r1.hooks);
        assert(t.repo == r1);
        assert(t.machine == m1);
        assert(t.step == StepView::Call(c1));
    }
    let c2 = CallView::CommitHash(start);
    let m2 = MachineView { phase: Phase::StartStartHash, ..m1 };
    let r2 = repo;
    assert(run(m1, c1, r1, prefix, sep, 5) == run(m2, c2, r2, prefix, sep, 4)) by {
        lemma_run_turn(m1, c1, r1, prefix, sep, 5);
        let t = turn(m1, c1, r1, prefix, sep);
        assert(t.repo.branches =~= r2.branches);
        assert(t.repo.remote =~= r2.remote);
        assert(t.repo.hooks =~= r2.hooks);
        assert(t.repo == r2);
        assert(t.machine == m2);
        assert(t.step == StepView::Call(c2));
    }
    let c3 = CallView::CommitHash(full);
    let m3 = MachineView { phase: Phase::StartFullHash, start_hash: repo.branches[start], ..m1 };
    let r3 = repo;
    assert(run(m2, c2, r2, prefix, sep, 4) == run(m3, c3, r3, prefix, sep, 3)) by {
        lemma_run_turn(m2, c2, r2, prefix, sep, 4);
        let t = turn(m2, c2, r2, prefix, sep);
        assert(t.repo.branches =~= r3.branches);
        assert(t.repo.remote =~= r3.remote);
        assert(t.repo.hooks =~= r3.hooks);
        assert(t.repo == r3);
        assert(t.machine == m3);
        assert(t.step == StepView::Call(c3));
    }
    let c4 = CallView::ForceBranch { branch: full, target: onto };
    let m4 = MachineView { phase: Phase::FastFull, ..m3 };
    let r4 = repo;
    assert(run(m3, c3, r3, prefix, sep, 3) == run(m4, c4, r4, prefix, sep, 2)) by {
        lemma_run_turn(m3, c3, r3, prefix, sep, 3);
        let t = turn(m3, c3, r3, prefix, sep);
        assert(t.repo.branches =~= r4.branches);
        assert(t.repo.remote =~= r4.remote);
        assert(t.repo.hooks =~= r4.hooks);
        assert(t.repo == r4);
        assert(t.machine == m4);
        assert(t.step == StepView::Call(c4));
    }
    let c5 = CallView::ForceBranch { branch: start, target: onto };
    let m5 = MachineView { phase: Phase::FastStart, ..m3 };
    let r5 = Repo { branches: repo.branches.insert(full, repo.branches[onto]), ..repo };
    assert(run(m4, c4, r4, prefix, sep, 2) == run(m5, c5, r5, prefix, sep, 1)) by {
        lemma_run_turn(m4, c4, r4, prefix, sep, 2);
        let t = turn(m4, c4, r4, prefix, sep);
        assert(t.repo.branches =~= r5.branches);
        assert(t.repo.remote =~= r5.remote);
        assert(t.repo.hooks =~= r5.hooks);
        assert(t.repo == r5);
        assert(t.machine == m5);
        assert(t.step == StepView::Call(c5));
    }
    let r6 = Repo { branches: r5.branches.insert(start, repo.branches[onto]), ..r5 };
    assert(run(m5, c5, r5, prefix, sep, 1) == (Run { result: Some(Ok::<Report, StackError>(Report::Completed)), repo: r6, picks: 0 })) by {
        lemma_run_turn(m5, c5, r5, prefix, sep, 1);
        let t = turn(m5, c5, r5, prefix, sep);
        assert(t.repo.branches =~= r6.branches);
        assert(t.repo.remote =~= r6.remote);
        assert(t.repo.hooks =~= r6.hooks);
        assert(t.repo == r6);
        assert(t.step == StepView::Done(Ok::<Report, StackError>(Report::Completed)));
    }
}

/// The machine of a rebase onto `onto` that waits for its cherry-pick.
spec fn picking(
    repo: Repo,
    onto: Seq<char>,
    strategy: Option<Seq<char>>,
    prefix: Seq<char>,
    sep: Seq<char>,
) -> MachineView {
    MachineView {
        phase: Phase::Picked,
        target: decode(repo.head, prefix, sep),
        onto,
        start_hash: repo.branches[start_name(decode(repo.head, prefix, sep), sep)],
        ..fresh(Phase::StartCurrent, Some(onto), strategy, false, false)
    }
}

/// The repository of a rebase onto `onto` that is about to cherry-pick.
spec fn opened(repo: Repo, onto: Seq<char>, prefix: Seq<char>, sep: Seq<char>) -> Repo {
    Repo {
        branches: repo.branches.insert(
            tmp_name(start_name(decode(repo.head, prefix, sep), sep)),
            repo.branches[onto],
        ).insert(tmp_name(full_name(decode(repo.head, prefix, sep), sep)), repo.branches[onto]),
        head: tmp_name(full_name(decode(repo.head, prefix, sep), sep)),
        hooks: no_hooks(),
        memo: Some(repo.hooks),
        ..repo
    }
}

/// The first twelve calls of a rebase that replays commits: the refs are
/// looked up, the way is found clear, the hooks path is saved and pointed
/// to nowhere, and the temporary branches are made at the new base. The
/// run goes on from there with the cherry-pick.
#[verifier::rlimit(60)]
proof fn lemma_opening(
    repo: Repo,
    onto: Seq<char>,
    strategy: Option<Seq<char>>,
    prefix: Seq<char>,
    sep: Seq<char>,
    calls: nat,
)
    requires
        calls > 12,
        is_ref(repo, onto),
        is_ref(repo, full_name(decode(repo.head, prefix, sep), sep)),
        is_ref(repo, start_name(decode(repo.head, prefix, sep), sep)),
        repo.branches[start_name(decode(repo.head, prefix, sep), sep)]
            != repo.branches[full_name(decode(repo.head, prefix, sep), sep)],
        !is_ref(repo, tmp_name(full_name(decode(repo.head, prefix, sep), sep))),
        !is_ref(repo, tmp_name(start_name(decode(repo.head, prefix, sep), sep))),
    ensures
        run(
            fresh(Phase::StartCurrent, Some(onto), strategy, false, false),
            CallView::CurrentBranch,
            repo,
            prefix,
            sep,
            calls,
        ) == run(
            picking(repo, onto, strategy, prefix, sep),
            CallView::CherryPick {
                from: start_name(decode(repo.head, prefix, sep), sep),
                to: full_name(decode(repo.head, prefix, sep), sep),
                strategy,
            },
            opened(repo, onto, prefix, sep),
            prefix,
            sep,
            (calls - 12) as nat,
        ),
{
    let target = decode(repo.head, prefix, sep);
    let full = full_name(target, sep);
    let start = start_name(target, sep);
    let tf = tmp_name(full);
    let ts = tmp_name(start);
    lemma_names_differ(target, sep);
    let mp = picking(repo, onto, strategy, prefix, sep);
    let m0 = fresh(Phase::StartCurrent, Some(onto), strategy, false, false);
    let c0 = CallView::CurrentBranch;
    let c1 = CallView::CommitHash(onto);
    let m1 = MachineView { phase: Phase::StartOntoHash, start_hash: Seq::empty(), ..mp };
    let r1 = repo;
    assert(run(m0, c0, repo, prefix, sep, calls) == run(m1, c1, r1, prefix, sep, (calls - 1) as nat)) by {
        lemma_run_turn(m0, c0, repo, prefix, sep, calls);
        let t = turn(m0, c0, repo, prefix, sep);
        assert(t.repo.branches =~= r1.branches);
        assert(t.repo.remote =~= r1.remote);
        assert(t.repo.hooks =~= r1.hooks);
        assert(t.repo == r1);
        assert(t.machine == m1);
        assert(t.step == StepView::Call(c1));
    }
    let c2 = CallView::CommitHash(start);
    let m2 = MachineView { phase: Phase::StartStartHash, start_hash: Seq::empty(), ..mp };
    let r2 = repo;
    assert(run(m1, c1, r1, prefix, sep, (calls - 1) as nat) == run(m2, c2, r2, prefix, sep, ((calls - 1) as nat - 1) as nat)) by {
        lemma_run_turn(m1, c1, r1, prefix, sep, (calls - 1) as nat);
        let t = turn(m1, c1, r1, prefix, sep);
        assert(t.repo.branches =~= r2.branches);
        assert(t.repo.remote =~= r2.remote);
        assert(t.repo.hooks =~= r2.hooks);
        assert(t.repo == r2);
        assert(t.machine == m2);
        assert(t.step == StepView::Call(c2));
    }
    let c3 = CallView::CommitHash(full);
    let m3 = MachineView { phase: Phase::StartFullHash, ..mp };
    let r3 = repo;
    assert(run(m2, c2, r2, prefix, sep, ((calls - 1) as nat - 1) as nat) == run(m3, c3, r3, prefix, sep, (((calls - 1) as nat - 1) as nat - 1) as nat)) by {
        lemma_run_turn(m2, c2, r2, prefix, sep, ((calls - 1) as nat - 1) as nat);
        let t = turn(m2, c2, r2, prefix, sep);
        assert(t.repo.branches =~= r3.branches);
        assert(t.repo.remote =~= r3.remote);
        assert(t.repo.hooks =~= r3.hooks);
        assert(t.repo == r3);
        assert(t.machine == m3);
        assert(t.step == StepView::Call(c3));
    }
    let c4 = CallView::CommitHash(tf);
    let m4 = MachineView { phase: Phase::GuardFull, ..mp };
    let r4 = repo;
    assert(run(m3, c3, r3, prefix, sep, (((calls - 1) as nat - 1) as nat - 1) as nat) == run(m4, c4, r4, prefix, sep, ((((calls - 1) as nat - 1) as nat - 1) as nat - 1) as nat)) by {
        lemma_run_turn(m3, c3, r3, prefix, sep, (((calls - 1) as nat - 1) as nat - 1) as nat);
        let t = turn(m3, c3, r3, prefix, sep);
        assert(t.repo.branches =~= r4.branches);
        assert(t.repo.remote =~= r4.remote);
        assert(t.repo.hooks =~= r4.hooks);
        assert(t.repo == r4);
        assert(t.machine == m4);
        assert(t.step == StepView::Call(c4));
    }
    let c5 = CallView::CommitHash(ts);
    let m5 = MachineView { phase: Phase::GuardStart, ..mp };
    let r5 = repo;
    assert(run(m4, c4, r4, prefix, sep, ((((calls - 1) as nat - 1) as nat - 1) as nat - 1) as nat) == run(m5, c5, r5, prefix, sep, (((((calls - 1) as nat - 1) as nat - 1) as nat - 1) as nat - 1) as nat)) by {
        lemma_run_turn(m4, c4, r4, prefix, sep, ((((calls - 1) as nat - 1) as nat - 1) as nat - 1) as nat);
        let t = turn(m4, c4, r4, prefix, sep);
        assert(t.repo.branches =~= r5.branches);
        assert(t.repo.remote =~= r5.remote);
        assert(t.repo.hooks =~= r5.hooks);
        assert(t.repo == r5);
        assert(t.machine == m5);
        assert(t.step == StepView::Call(c5));
    }
    let c6 = CallView::GetHooksPath;
    let m6 = MachineView { phase: Phase::HooksRead, ..mp };
    let r6 = repo;
    assert(run(m5, c5, r5, prefix, sep, (((((calls - 1) as nat - 1) as nat - 1) as nat - 1) as nat - 1) as nat) == run(m6, c6, r6, prefix, sep, ((((((calls - 1) as nat - 1) as nat - 1) as nat - 1) as nat - 1) as nat - 1) as nat)) by {
        lemma_run_turn(m5, c5, r5, prefix, sep, (((((calls - 1) as nat - 1) as nat - 1) as nat - 1) as nat - 1) as nat);
        let t = turn(m5, c5, r5, prefix, sep);
        assert(t.repo.branches =~= r6.branches);
        assert(t.repo.remote =~= r6.remote);
        assert(t.repo.hooks =~= r6.hooks);
        assert(t.repo == r6);
        assert(t.machine == m6);
        assert(t.step == StepView::Call(c6));
    }
    let c7 = CallView::SaveHooksPath(repo.hooks);
    let m7 = MachineView { phase: Phase::HooksSaved, ..mp };
    let r7 = repo;
    assert(run(m6, c6, r6, prefix, sep, ((((((calls - 1) as nat - 1) as nat - 1) as nat - 1) as nat - 1) as nat - 1) as nat) == run(m7, c7, r7, prefix, sep, (((((((calls - 1) as nat - 1) as nat - 1) as nat - 1) as nat - 1) as nat - 1) as nat - 1) as nat)) by {
        lemma_run_turn(m6, c6, r6, prefix, sep, ((((((calls - 1) as nat - 1) as nat - 1) as nat - 1) as nat - 1) as nat - 1) as nat);
        let t = turn(m6, c6, r6, prefix, sep);
        assert(t.repo.branches =~= r7.branches);
        assert(t.repo.remote =~= r7.remote);
        assert(t.repo.hooks =~= r7.hooks);
        assert(t.repo == r7);
        assert(t.machine == m7);
        assert(t.step == StepView::Call(c7));
    }
    let c8 = CallView::SetHooksPath(no_hooks());
    let m8 = MachineView { phase: Phase::HooksOff, ..mp };
    let r8 = Repo { memo: Some(repo.hooks), ..repo };
    assert(run(m7, c7, r7, prefix, sep, (((((((calls - 1) as nat - 1) as nat - 1) as nat - 1) as nat - 1) as nat - 1) as nat - 1) as nat) == run(m8, c8, r8, prefix, sep, ((((((((calls - 1) as nat - 1) as nat - 1) as nat - 1) as nat - 1) as nat - 1) as nat - 1) as nat - 1) as nat)) by {
        lemma_run_turn(m7, c7, r7, prefix, sep, (((((((calls - 1) as nat - 1) as nat - 1) as nat - 1) as nat - 1) as nat - 1) as nat - 1) as nat);
        let t = turn(m7, c7, r7, prefix, sep);
        assert(t.repo.branches =~= r8.branches);
        assert(t.repo.remote =~= r8.remote);
        assert(t.repo.hooks =~= r8.hooks);
        assert(t.repo == r8);
        assert(t.machine == m8);
        assert(t.step == StepView::Call(c8));
    }
    let c9 = CallView::Checkout(onto);
    let m9 = MachineView { phase: Phase::OntoCheckedOut, ..mp };
    let r9 = Repo { hooks: no_hooks(), ..r8 };
    assert(run(m8, c8, r8, prefix, sep, ((((((((calls - 1) as nat - 1) as nat - 1) as nat - 1) as nat - 1) as nat - 1) as nat - 1) as nat - 1) as nat) == run(m9, c9, r9, prefix, sep, (((((((((calls - 1) as nat - 1) as nat - 1) as nat - 1) as nat - 1) as nat - 1) as nat - 1) as nat - 1) as nat - 1) as nat)) by {
        lemma_run_turn(m8, c8, r8, prefix, sep, ((((((((calls - 1) as nat - 1) as nat - 1) as nat - 1) as nat - 1) as nat - 1) as nat - 1) as nat - 1) as nat);
        let t = turn(m8, c8, r8, prefix, sep);
        assert(t.repo.branches =~= r9.branches);
        assert(t.repo.remote =~= r9.remote);
        assert(t.repo.hooks =~= r9.hooks);
        assert(t.repo == r9);
        assert(t.machine == m9);
        assert(t.step == StepView::Call(c9));
    }
    let c10 = CallView::CreateBranch(ts);
    let m10 = MachineView { phase: Phase::TmpStartCreated, ..mp };
    let r10 = Repo { head: onto, ..r9 };
    assert(run(m9, c9, r9, prefix, sep, (((((((((calls - 1) as nat - 1) as nat - 1) as nat - 1) as nat - 1) as nat - 1) as nat - 1) as nat - 1) as nat - 1) as nat) == run(m10, c10, r10, prefix, sep, ((((((((((calls - 1) as nat - 1) as nat - 1) as nat - 1) as nat - 1) as nat - 1) as nat - 1) as nat - 1) as nat - 1) as nat - 1) as nat)) by {
        lemma_run_turn(m9, c9, r9, prefix, sep, (((((((((calls - 1) as nat - 1) as nat - 1) as nat - 1) as nat - 1) as nat - 1) as nat - 1) as nat - 1) as nat - 1) as nat);
        let t = turn(m9, c9, r9, prefix, sep);
        assert(t.repo.branches =~= r10.branches);
        assert(t.repo.remote =~= r10.remote);
        assert(t.repo.hooks =~= r10.hooks);
        assert(t.repo == r10);
        assert(t.machine == m10);
        assert(t.step == StepView::Call(c10));
    }
    let c11 = CallView::CreateBranch(tf);
    let m11 = MachineView { phase: Phase::TmpFullCreated, ..mp };
    let r11 = Repo { head: ts, branches: repo.branches.insert(ts, repo.branches[onto]), ..r10 };
    assert(run(m10, c10, r10, prefix, sep, ((((((((((calls - 1) as nat - 1) as nat - 1) as nat - 1) as nat - 1) as nat - 1) as nat - 1) as nat - 1) as nat - 1) as nat - 1) as nat) == run(m11, c11, r11, prefix, sep, (((((((((((calls - 1) as nat - 1) as nat - 1) as nat - 1) as nat - 1) as nat - 1) as nat - 1) as nat - 1) as nat - 1) as nat - 1) as nat - 1) as nat)) by {
        lemma_run_turn(m10, c10, r10, prefix, sep, ((((((((((calls - 1) as nat - 1) as nat - 1) as nat - 1) as nat - 1) as nat - 1) as nat - 1) as nat - 1) as nat - 1) as nat - 1) as nat);
        let t = turn(m10, c10, r10, prefix, sep);
        assert(t.repo.branches =~= r11.branches);
        assert(t.repo.remote =~= r11.remote);
        assert(t.repo.hooks =~= r11.hooks);
        assert(t.repo == r11);
        assert(t.machine == m11);
        assert(t.step == StepView::Call(c11));
    }
    let c12 = CallView::CherryPick { from: start, to: full, strategy };
    let m12 = MachineView { phase: Phase::Picked, ..mp };
    let r12 = Repo { head: tf, branches: repo.branches.insert(ts, repo.branches[onto]).insert(tf, repo.branches[onto]), ..r11 };
    assert(run(m11, c11, r11, prefix, sep, (((((((((((calls - 1) as nat - 1) as nat - 1) as nat - 1) as nat - 1) as nat - 1) as nat - 1) as nat - 1) as nat - 1) as nat - 1) as nat - 1) as nat) == run(m12, c12, r12, prefix, sep, ((((((((((((calls - 1) as nat - 1) as nat - 1) as nat - 1) as nat - 1) as nat - 1) as nat - 1) as nat - 1) as nat - 1) as nat - 1) as nat - 1) as nat - 1) as nat)) by {
        lemma_run_turn(m11, c11, r11, prefix, sep, (((((((((((calls - 1) as nat - 1) as nat - 1) as nat - 1) as nat - 1) as nat - 1) as nat - 1) as nat - 1) as nat - 1) as nat - 1) as nat - 1) as nat);
        let t = turn(m11, c11, r11, prefix, sep);
        assert(t.repo.branches =~= r12.branches);
        assert(t.repo.remote =~= r12.remote);
        assert(t.repo.hooks =~= r12.hooks);
        assert(t.repo == r12);
        assert(t.machine == m12);
        assert(t.step == StepView::Call(c12));
    }
    assert(m12 == mp);
    assert(r12 == opened(repo, onto, prefix, sep));
}

/// The finish of a rebase, from the checkout of the start marker on: nine
/// calls, after which the branch and its start marker stand where their
/// temporary branches stood, the temporary branches are gone, the hooks path
/// is what the memo held, and the memo is gone.
#[verifier::rlimit(60)]
proof fn lemma_finish(m: MachineView, repo: Repo, prefix: Seq<char>, sep: Seq<char>, calls: nat)
    requires
        calls >= 9,
        m.phase == Phase::FinStartCheckedOut,
        !m.spreading,
        !m.all,
        is_ref(repo, full_name(m.target, sep)),
        is_ref(repo, start_name(m.target, sep)),
        is_ref(repo, tmp_name(full_name(m.target, sep))),
        is_ref(repo, tmp_name(start_name(m.target, sep))),
        repo.memo is Some,
    ensures
        ({
            let full = full_name(m.target, sep);
            let start = start_name(m.target, sep);
            let end = run(m, CallView::Checkout(start), repo, prefix, sep, calls);
            &&& end.result == Some(Ok::<Report, StackError>(Report::Completed))
            &&& end.picks == 0
            &&& end.repo.branches == repo.branches.insert(
                start,
                repo.branches[tmp_name(start)],
            ).insert(full, repo.branches[tmp_name(full)]).remove(tmp_name(full)).remove(
                tmp_name(start),
            )
            &&& end.repo.head == full
            &&& end.repo.hooks == repo.memo->0
            &&& end.repo.memo is None
            &&& end.repo.remote == repo.remote
            &&& end.repo.paused == repo.paused
        }),
{
    let full = full_name(m.target, sep);
    let start = start_name(m.target, sep);
    let tf = tmp_name(full);
    let ts = tmp_name(start);
    lemma_names_differ(m.target, sep);
    let c0 = CallView::Checkout(start);
    let restore = if repo.memo->0.len() == 0 {
        CallView::UnsetHooksPath
    } else {
        CallView::SetHooksPath(repo.memo->0)
    };
    let c1 = CallView::Reset { target: ts, hard: true };
    let m1 = MachineView { phase: Phase::FinStartReset, ..m };
    let r1 = Repo { head: start, ..repo };
    assert(run(m, c0, repo, prefix, sep, calls) == run(m1, c1, r1, prefix, sep, (calls - 1) as nat)) by {
        lemma_run_turn(m, c0, repo, prefix, sep, calls);
        let t = turn(m, c0, repo, prefix, sep);
        assert(t.repo.branches =~= r1.branches);
        assert(t.repo.remote =~= r1.remote);
        assert(t.repo.hooks =~= r1.hooks);
        assert(t.repo == r1);
        assert(t.machine == m1);
        assert(t.step == StepView::Call(c1));
    }
    let c2 = CallView::Checkout(full);
    let m2 = MachineView { phase: Phase::FinFullCheckedOut, ..m };
    let r2 = Repo { branches: repo.branches.insert(start, repo.branches[ts]), ..r1 };
    assert(run(m1, c1, r1, prefix, sep, (calls - 1) as nat) == run(m2, c2, r2, prefix, sep, ((calls - 1) as nat - 1) as nat)) by {
        lemma_run_turn(m1, c1, r1, prefix, sep, (calls - 1) as nat);
        let t = turn(m1, c1, r1, prefix, sep);
        assert(t.repo.branches =~= r2.branches);
        assert(t.repo.remote =~= r2.remote);
        assert(t.repo.hooks =~= r2.hooks);
        assert(t.repo == r2);
        assert(t.machine == m2);
        assert(t.step == StepView::Call(c2));
    }
    let c3 = CallView::Reset { target: tf, hard: true };
    let m3 = MachineView { phase: Phase::FinFullReset, ..m };
    let r3 = Repo { head: full, ..r2 };
    assert(run(m2, c2, r2, prefix, sep, ((calls - 1) as nat - 1) as nat) == run(m3, c3, r3, prefix, sep, (((calls - 1) as nat - 1) as nat - 1) as nat)) by {
        lemma_run_turn(m2, c2, r2, prefix, sep, ((calls - 1) as nat - 1) as nat);
        let t = turn(m2, c2, r2, prefix, sep);
        assert(t.repo.branches =~= r3.branches);
        assert(t.repo.remote =~= r3.remote);
        assert(t.repo.hooks =~= r3.hooks);
        assert(t.repo == r3);
        assert(t.machine == m3);
        assert(t.step == StepView::Call(c3));
    }
    let c4 = CallView::DeleteLocal(tf);
    let m4 = MachineView { phase: Phase::FinTmpFullDeleted, ..m };
    let r4 = Repo { branches: r3.branches.insert(full, repo.branches[tf]), ..r3 };
    assert(run(m3, c3, r3, prefix, sep, (((calls - 1) as nat - 1) as nat - 1) as nat) == run(m4, c4, r4, prefix, sep, ((((calls - 1) as nat - 1) as nat - 1) as nat - 1) as nat)) by {
        lemma_run_turn(m3, c3, r3, prefix, sep, (((calls - 1) as nat - 1) as nat - 1) as nat);
        let t = turn(m3, c3, r3, prefix, sep);
        assert(t.repo.branches =~= r4.branches);
        assert(t.repo.remote =~= r4.remote);
        assert(t.repo.hooks =~= r4.hooks);
        assert(t.repo == r4);
        assert(t.machine == m4);
        assert(t.step == StepView::Call(c4));
    }
    let c5 = CallView::DeleteLocal(ts);
    let m5 = MachineView { phase: Phase::FinTmpStartDeleted, ..m };
    let r5 = Repo { branches: r4.branches.remove(tf), ..r4 };
    assert(run(m4, c4, r4, prefix, sep, ((((calls - 1) as nat - 1) as nat - 1) as nat - 1) as nat) == run(m5, c5, r5, prefix, sep, (((((calls - 1) as nat - 1) as nat - 1) as nat - 1) as nat - 1) as nat)) by {
        lemma_run_turn(m4, c4, r4, prefix, sep, ((((calls - 1) as nat - 1) as nat - 1) as nat - 1) as nat);
        let t = turn(m4, c4, r4, prefix, sep);
        assert(t.repo.branches =~= r5.branches);
        assert(t.repo.remote =~= r5.remote);
        assert(t.repo.hooks =~= r5.hooks);
        assert(t.repo == r5);
        assert(t.machine == m5);
        assert(t.step == StepView::Call(c5));
    }
    let c6 = CallView::LoadHooksPath;
    let m6 = MachineView { phase: Phase::FinMemoRead, ..m };
    let r6 = Repo { branches: r5.branches.remove(ts), ..r5 };
    assert(run(m5, c5, r5, prefix, sep, (((((calls - 1) as nat - 1) as nat - 1) as nat - 1) as nat - 1) as nat) == run(m6, c6, r6, prefix, sep, ((((((calls - 1) as nat - 1) as nat - 1) as nat - 1) as nat - 1) as nat - 1) as nat)) by {
        lemma_run_turn(m5, c5, r5, prefix, sep, (((((calls - 1) as nat - 1) as nat - 1) as nat - 1) as nat - 1) as nat);
        let t = turn(m5, c5, r5, prefix, sep);
        assert(t.repo.branches =~= r6.branches);
        assert(t.repo.remote =~= r6.remote);
        assert(t.repo.hooks =~= r6.hooks);
        assert(t.repo == r6);
        assert(t.machine == m6);
        assert(t.step == StepView::Call(c6));
    }
    let c7 = restore;
    let m7 = MachineView { phase: Phase::FinHooksRestored, ..m };
    let r7 = r6;
    assert(run(m6, c6, r6, prefix, sep, ((((((calls - 1) as nat - 1) as nat - 1) as nat - 1) as nat - 1) as nat - 1) as nat) == run(m7, c7, r7, prefix, sep, (((((((calls - 1) as nat - 1) as nat - 1) as nat - 1) as nat - 1) as nat - 1) as nat - 1) as nat)) by {
        lemma_run_turn(m6, c6, r6, prefix, sep, ((((((calls - 1) as nat - 1) as nat - 1) as nat - 1) as nat - 1) as nat - 1) as nat);
        let t = turn(m6, c6, r6, prefix, sep);
        assert(t.repo.branches =~= r7.branches);
        assert(t.repo.remote =~= r7.remote);
        assert(t.repo.hooks =~= r7.hooks);
        assert(t.repo == r7);
        assert(t.machine == m7);
        assert(t.step == StepView::Call(c7));
    }
    let c8 = CallView::DropHooksPath;
    let m8 = MachineView { phase: Phase::FinMemoDropped, ..m };
    let r8 = Repo { hooks: repo.memo->0, ..r7 };
    assert(run(m7, c7, r7, prefix, sep, (((((((calls - 1) as nat - 1) as nat - 1) as nat - 1) as nat - 1) as nat - 1) as nat - 1) as nat) == run(m8, c8, r8, prefix, sep, ((((((((calls - 1) as nat - 1) as nat - 1) as nat - 1) as nat - 1) as nat - 1) as nat - 1) as nat - 1) as nat)) by {
        lemma_run_turn(m7, c7, r7, prefix, sep, (((((((calls - 1) as nat - 1) as nat - 1) as nat - 1) as nat - 1) as nat - 1) as nat - 1) as nat);
        let t = turn(m7, c7, r7, prefix, sep);
        assert(t.repo.branches =~= r8.branches);
        assert(t.repo.remote =~= r8.remote);
        assert(t.repo.hooks =~= r8.hooks);
        assert(t.repo == r8);
        assert(t.machine == m8);
        assert(t.step == StepView::Call(c8));
    }
    let r9 = Repo { memo: None, ..r8 };
    assert(run(m8, c8, r8, prefix, sep, ((((((((calls - 1) as nat - 1) as nat - 1) as nat - 1) as nat - 1) as nat - 1) as nat - 1) as nat - 1) as nat) == (Run { result: Some(Ok::<Report, StackError>(Report::Completed)), repo: r9, picks: 0 })) by {
        lemma_run_turn(m8, c8, r8, prefix, sep, ((((((((calls - 1) as nat - 1) as nat - 1) as nat - 1) as nat - 1) as nat - 1) as nat - 1) as nat - 1) as nat);
        let t = turn(m8, c8, r8, prefix, sep);
        assert(t.repo.branches =~= r9.branches);
        assert(t.repo.remote =~= r9.remote);
        assert(t.repo.hooks =~= r9.hooks);
        assert(t.repo == r9);
        assert(t.step == StepView::Done(Ok::<Report, StackError>(Report::Completed)));
    }
    assert(r9.branches =~= repo.branches.insert(start, repo.branches[ts]).insert(
        full,
        repo.branches[tf],
    ).remove(tf).remove(ts));
}

/// A rebase replays the commits of a branch on the new base. If the start
/// marker is an ancestor of the checked-out branch and no earlier rebase is
/// open, and the cherry-pick meets no conflict, the run ends with the start
/// marker at the commit of the new base and the branch at that commit with
/// its own changes after it; one cherry-pick was begun; no temporary branch
/// is left and no other branch has changed; the hooks path is what it was,
/// and the memo is gone.
pub proof fn lemma_rebase_replays_commits(
    repo: Repo,
    onto: Seq<char>,
    strategy: Option<Seq<char>>,
    prefix: Seq<char>,
    sep: Seq<char>,
)
    requires
        is_ref(repo, onto),
        is_ref(repo, full_name(decode(repo.head, prefix, sep), sep)),
        is_ref(repo, start_name(decode(repo.head, prefix, sep), sep)),
        repo.branches[start_name(decode(repo.head, prefix, sep), sep)].is_prefix_of(
            repo.branches[full_name(decode(repo.head, prefix, sep), sep)],
        ),
        repo.branches[start_name(decode(repo.head, prefix, sep), sep)]
            != repo.branches[full_name(decode(repo.head, prefix, sep), sep)],
        !is_ref(repo, tmp_name(full_name(decode(repo.head, prefix, sep), sep))),
        !is_ref(repo, tmp_name(start_name(decode(repo.head, prefix, sep), sep))),
        repo.paused is None,
        !repo.clash,
    ensures
        ({
            let target = decode(repo.head, prefix, sep);
            let full = full_name(target, sep);
            let start = start_name(target, sep);
            let base = repo.branches[onto];
            let changes = repo.branches[full].skip(repo.branches[start].len() as int);
            let end = run(
                fresh(Phase::StartCurrent, Some(onto), strategy, false, false),
                CallView::CurrentBranch,
                repo,
                prefix,
                sep,
                22,
            );
            &&& end.result == Some(Ok::<Report, StackError>(Report::Completed))
            &&& end.picks == 1
            &&& end.repo.branches == repo.branches.insert(start, base).insert(full, base + changes)
            &&& !is_ref(end.repo, tmp_name(full))
            &&& !is_ref(end.repo, tmp_name(start))
            &&& end.repo.hooks == repo.hooks
            &&& end.repo.memo is None
            &&& end.repo.head == full
        }),
{
    let target = decode(repo.head, prefix, sep);
    let full = full_name(target, sep);
    let start = start_name(target, sep);
    let tf = tmp_name(full);
    let ts = tmp_name(start);
    let base = repo.branches[onto];
    let changes = repo.branches[full].skip(repo.branches[start].len() as int);
    lemma_names_differ(target, sep);
    lemma_opening(repo, onto, strategy, prefix, sep, 22);
    let m12 = picking(repo, onto, strategy, prefix, sep);
    let r12 = opened(repo, onto, prefix, sep);
    let c12 = CallView::CherryPick { from: start, to: full, strategy };
    let c13 = CallView::Checkout(start);
    let m13 = MachineView { phase: Phase::FinStartCheckedOut, ..m12 };
    let r13 = Repo { branches: r12.branches.insert(tf, base + changes), ..r12 };
    let rest = run(m13, c13, r13, prefix, sep, 9);
    assert(run(m12, c12, r12, prefix, sep, 10) == (Run { picks: rest.picks + 1, ..rest })) by {
        lemma_run_turn(m12, c12, r12, prefix, sep, 10);
        let t = turn(m12, c12, r12, prefix, sep);
        assert(t.repo.branches =~= r13.branches);
        assert(t.repo == r13);
        assert(t.machine == m13);
        assert(t.step == StepView::Call(c13));
    }
    lemma_finish(m13, r13, prefix, sep, 9);
    assert(rest.repo.branches =~= repo.branches.insert(start, base).insert(full, base + changes));
}

/// The abort of a rebase that stopped on the temporary branch of the
/// checked-out branch of `repo`: nine calls, after which both temporary
/// branches are gone and the branch is checked out again.
#[verifier::rlimit(60)]
proof fn lemma_abort(repo: Repo, stopped: Repo, prefix: Seq<char>, sep: Seq<char>)
    requires
        full_name(decode(repo.head, prefix, sep), sep) == repo.head,
        stopped.head == tmp_name(repo.head),
        stopped.paused is Some,
        is_ref(stopped, tmp_name(repo.head)),
        is_ref(stopped, tmp_name(start_name(decode(repo.head, prefix, sep), sep))),
        is_ref(stopped, repo.head),
        stopped.branches[repo.head] == repo.branches[repo.head],
        stopped.branches[start_name(decode(repo.head, prefix, sep), sep)]
            == repo.branches[start_name(decode(repo.head, prefix, sep), sep)],
    ensures
        ({
            let full = repo.head;
            let start = start_name(decode(repo.head, prefix, sep), sep);
            let back = run(
                fresh(Phase::AbortCurrent, None, None, false, false),
                CallView::CurrentBranch,
                stopped,
                prefix,
                sep,
                9,
            );
            &&& back.result == Some(Ok::<Report, StackError>(Report::Completed))
            &&& !is_ref(back.repo, tmp_name(full))
            &&& !is_ref(back.repo, tmp_name(start))
            &&& back.repo.head == full
            &&& back.repo.branches[full] == repo.branches[full]
            &&& back.repo.branches[start] == repo.branches[start]
        }),
{
    let target = decode(repo.head, prefix, sep);
    let full = full_name(target, sep);
    let start = start_name(target, sep);
    let tf = tmp_name(full);
    let ts = tmp_name(start);
    lemma_names_differ(target, sep);
    lemma_tracked_names_differ(target, sep);
    let m0 = fresh(Phase::AbortCurrent, None, None, false, false);
    let c0 = CallView::CurrentBranch;
    let c1 = CallView::CherryAbort;
    let m1 = MachineView { phase: Phase::Aborted, target, ..m0 };
    let r1 = stopped;
    assert(run(m0, c0, stopped, prefix, sep, 9) == run(m1, c1, r1, prefix, sep, 8)) by {
        lemma_unmarked_tmp_name(full);
        assert(recorded_branch(tf, prefix, sep) == Ok::<BranchId, StackError>(target));
        lemma_run_turn(m0, c0, stopped, prefix, sep, 9);
        let t = turn(m0, c0, stopped, prefix, sep);
        assert(t.repo.branches =~= r1.branches);
        assert(t.repo.remote =~= r1.remote);
        assert(t.repo.hooks =~= r1.hooks);
        assert(t.repo == r1);
        assert(t.machine == m1);
        assert(t.step == StepView::Call(c1));
    }
    let c2 = CallView::Checkout(full);
    let m2 = MachineView { phase: Phase::AbortCheckedOut, target, ..m0 };
    let r2 = Repo { paused: None, ..stopped };
    assert(run(m1, c1, r1, prefix, sep, 8) == run(m2, c2, r2, prefix, sep, 7)) by {
        lemma_run_turn(m1, c1, r1, prefix, sep, 8);
        let t = turn(m1, c1, r1, prefix, sep);
        assert(t.repo.branches =~= r2.branches);
        assert(t.repo.remote =~= r2.remote);
        assert(t.repo.hooks =~= r2.hooks);
        assert(t.repo == r2);
        assert(t.machine == m2);
        assert(t.step == StepView::Call(c2));
    }
    let c3 = CallView::DeleteRemote(tf);
    let m3 = MachineView { phase: Phase::AbortRemoteFull, target, ..m0 };
    let r3 = Repo { head: full, ..r2 };
    assert(run(m2, c2, r2, prefix, sep, 7) == run(m3, c3, r3, prefix, sep, 6)) by {
        lemma_run_turn(m2, c2, r2, prefix, sep, 7);
        let t = turn(m2, c2, r2, prefix, sep);
        assert(t.repo.branches =~= r3.branches);
        assert(t.repo.remote =~= r3.remote);
        assert(t.repo.hooks =~= r3.hooks);
        assert(t.repo == r3);
        assert(t.machine == m3);
        assert(t.step == StepView::Call(c3));
    }
    let c4 = CallView::DeleteLocal(tf);
    let m4 = MachineView { phase: Phase::AbortLocalFull, target, ..m0 };
    let r4 = Repo { remote: r3.remote.remove(tf), ..r3 };
    assert(run(m3, c3, r3, prefix, sep, 6) == run(m4, c4, r4, prefix, sep, 5)) by {
        lemma_run_turn(m3, c3, r3, prefix, sep, 6);
        let t = turn(m3, c3, r3, prefix, sep);
        assert(t.repo.branches =~= r4.branches);
        assert(t.repo.remote =~= r4.remote);
        assert(t.repo.hooks =~= r4.hooks);
        assert(t.repo == r4);
        assert(t.machine == m4);
        assert(t.step == StepView::Call(c4));
    }
    let c5 = CallView::DeleteTracking(tf);
    let m5 = MachineView { phase: Phase::AbortTrackingFull, target, ..m0 };
    let r5 = Repo { branches: r4.branches.remove(tf), ..r4 };
    assert(run(m4, c4, r4, prefix, sep, 5) == run(m5, c5, r5, prefix, sep, 4)) by {
        lemma_run_turn(m4, c4, r4, prefix, sep, 5);
        let t = turn(m4, c4, r4, prefix, sep);
        assert(t.repo.branches =~= r5.branches);
        assert(t.repo.remote =~= r5.remote);
        assert(t.repo.hooks =~= r5.hooks);
        assert(t.repo == r5);
        assert(t.machine == m5);
        assert(t.step == StepView::Call(c5));
    }
    let c6 = CallView::DeleteRemote(ts);
    let m6 = MachineView { phase: Phase::AbortRemoteStart, target, ..m0 };
    let r6 = Repo { branches: r5.branches.remove(origin_lead() + tf), ..r5 };
    assert(run(m5, c5, r5, prefix, sep, 4) == run(m6, c6, r6, prefix, sep, 3)) by {
        lemma_run_turn(m5, c5, r5, prefix, sep, 4);
        let t = turn(m5, c5, r5, prefix, sep);
        assert(t.repo.branches =~= r6.branches);
        assert(t.repo.remote =~= r6.remote);
        assert(t.repo.hooks =~= r6.hooks);
        assert(t.repo == r6);
        assert(t.machine == m6);
        assert(t.step == StepView::Call(c6));
    }
    let c7 = CallView::DeleteLocal(ts);
    let m7 = MachineView { phase: Phase::AbortLocalStart, target, ..m0 };
    let r7 = Repo { remote: r6.remote.remove(ts), ..r6 };
    assert(run(m6, c6, r6, prefix, sep, 3) == run(m7, c7, r7, prefix, sep, 2)) by {
        lemma_run_turn(m6, c6, r6, prefix, sep, 3);
        let t = turn(m6, c6, r6, prefix, sep);
        assert(t.repo.branches =~= r7.branches);
        assert(t.repo.remote =~= r7.remote);
        assert(t.repo.hooks =~= r7.hooks);
        assert(t.repo == r7);
        assert(t.machine == m7);
        assert(t.step == StepView::Call(c7));
    }
    let c8 = CallView::DeleteTracking(ts);
    let m8 = MachineView { phase: Phase::AbortTrackingStart, target, ..m0 };
    let r8 = Repo { branches: r7.branches.remove(ts), ..r7 };
    assert(run(m7, c7, r7, prefix, sep, 2) == run(m8, c8, r8, prefix, sep, 1)) by {
        lemma_run_turn(m7, c7, r7, prefix, sep, 2);
        let t = turn(m7, c7, r7, prefix, sep);
        assert(t.repo.branches =~= r8.branches);
        assert(t.repo.remote =~= r8.remote);
        assert(t.repo.hooks =~= r8.hooks);
        assert(t.repo == r8);
        assert(t.machine == m8);
        assert(t.step == StepView::Call(c8));
    }
    let r9 = Repo { branches: r8.branches.remove(origin_lead() + ts), ..r8 };
    assert(run(m8, c8, r8, prefix, sep, 1) == (Run { result: Some(Ok::<Report, StackError>(Report::Completed)), repo: r9, picks: 0 })) by {
        lemma_run_turn(m8, c8, r8, prefix, sep, 1);
        let t = turn(m8, c8, r8, prefix, sep);
        assert(t.repo.branches =~= r9.branches);
        assert(t.repo.remote =~= r9.remote);
        assert(t.repo.hooks =~= r9.hooks);
        assert(t.repo == r9);
        assert(t.step == StepView::Done(Ok::<Report, StackError>(Report::Completed)));
    }
}

/// A rebase that meets a conflict stops with the work kept. Under the
/// conditions of `lemma_rebase_replays_commits`, but with a cherry-pick that
/// stops, the run ends with the conflict reported, the temporary branch
/// checked out, and the two temporary branches, at the commit of the new
/// base, as the only change to the branches. If the checked-out branch had a
/// name as this library writes it, an abort run from there ends well, with
/// both temporary branches gone, the branch checked out again, and the branch
/// and its start marker where they were.
pub proof fn lemma_rebase_stops_on_conflict(
    repo: Repo,
    onto: Seq<char>,
    strategy: Option<Seq<char>>,
    prefix: Seq<char>,
    sep: Seq<char>,
)
    requires
        is_ref(repo, onto),
        is_ref(repo, full_name(decode(repo.head, prefix, sep), sep)),
        is_ref(repo, start_name(decode(repo.head, prefix, sep), sep)),
        repo.branches[start_name(decode(repo.head, prefix, sep), sep)].is_prefix_of(
            repo.branches[full_name(decode(repo.head, prefix, sep), sep)],
        ),
        repo.branches[start_name(decode(repo.head, prefix, sep), sep)]
            != repo.branches[full_name(decode(repo.head, prefix, sep), sep)],
        !is_ref(repo, tmp_name(full_name(decode(repo.head, prefix, sep), sep))),
        !is_ref(repo, tmp_name(start_name(decode(repo.head, prefix, sep), sep))),
        repo.paused is None,
        repo.clash,
    ensures
        ({
            let target = decode(repo.head, prefix, sep);
            let full = full_name(target, sep);
            let start = start_name(target, sep);
            let base = repo.branches[onto];
            let end = run(
                fresh(Phase::StartCurrent, Some(onto), strategy, false, false),
                CallView::CurrentBranch,
                repo,
                prefix,
                sep,
                13,
            );
            let back = run(
                fresh(Phase::AbortCurrent, None, None, false, false),
                CallView::CurrentBranch,
                end.repo,
                prefix,
                sep,
                9,
            );
            &&& end.result == Some(Err::<Report, StackError>(StackError::CherryPickConflict))
            &&& end.picks == 1
            &&& end.repo.head == tmp_name(full)
            &&& end.repo.branches == repo.branches.insert(tmp_name(start), base).insert(
                tmp_name(full),
                base,
            )
            &&& full == repo.head ==> {
                &&& back.result == Some(Ok::<Report, StackError>(Report::Completed))
                &&& !is_ref(back.repo, tmp_name(full))
                &&& !is_ref(back.repo, tmp_name(start))
                &&& back.repo.head == full
                &&& back.repo.branches[full] == repo.branches[full]
                &&& back.repo.branches[start] == repo.branches[start]
            }
        }),
{
    let target = decode(repo.head, prefix, sep);
    let full = full_name(target, sep);
    let start = start_name(target, sep);
    let tf = tmp_name(full);
    let ts = tmp_name(start);
    let base = repo.branches[onto];
    let changes = repo.branches[full].skip(repo.branches[start].len() as int);
    lemma_names_differ(target, sep);
    lemma_opening(repo, onto, strategy, prefix, sep, 13);
    let m12 = picking(repo, onto, strategy, prefix, sep);
    let r12 = opened(repo, onto, prefix, sep);
    let c12 = CallView::CherryPick { from: start, to: full, strategy };
    let stopped = Repo { paused: Some(changes), ..r12 };
    assert(run(m12, c12, r12, prefix, sep, 1) == (Run {
        result: Some(Err::<Report, StackError>(StackError::CherryPickConflict)),
        repo: stopped,
        picks: 1,
    })) by {
        lemma_run_turn(m12, c12, r12, prefix, sep, 1);
        let t = turn(m12, c12, r12, prefix, sep);
        assert(t.repo == stopped);
        assert(t.step == StepView::Done(
            Err::<Report, StackError>(StackError::CherryPickConflict),
        ));
    }
    if full == repo.head {
        lemma_abort(repo, stopped, prefix, sep);
    }
}

/// No remote-tracking name of a rebase is one of its local names.
proof fn lemma_tracked_names_differ(b: BranchId, sep: Seq<char>)
    ensures
        origin_lead() + tmp_name(full_name(b, sep)) != full_name(b, sep),
        origin_lead() + tmp_name(start_name(b, sep)) != full_name(b, sep),
        origin_lead() + tmp_name(start_name(b, sep)) != start_name(b, sep),
        origin_lead() + tmp_name(full_name(b, sep)) != start_name(b, sep),
        origin_lead() + tmp_name(full_name(b, sep)) != tmp_name(full_name(b, sep)),
        origin_lead() + tmp_name(full_name(b, sep)) != tmp_name(start_name(b, sep)),
        origin_lead() + tmp_name(start_name(b, sep)) != tmp_name(full_name(b, sep)),
        origin_lead() + tmp_name(start_name(b, sep)) != tmp_name(start_name(b, sep)),
        origin_lead() + full_name(b, sep) != full_name(b, sep),
        origin_lead() + start_name(b, sep) != full_name(b, sep),
        origin_lead() + start_name(b, sep) != start_name(b, sep),
        origin_lead() + full_name(b, sep) != origin_lead() + start_name(b, sep),
{
    reveal(full_name);
    reveal(start_name);
    reveal(tmp_name);
    let full = full_name(b, sep);
    let start = start_name(b, sep);
    assert(start.len() == full.len() + 6 + sep.len());
    assert(tmp_name(full).len() == full.len() + 6);
    assert(tmp_name(start).len() == start.len() + 6);
    assert((origin_lead() + full).len() == full.len() + 7);
    assert((origin_lead() + start).len() == start.len() + 7);
    assert((origin_lead() + tmp_name(full))[0] == 'o');
    assert((origin_lead() + tmp_name(start))[0] == 'o');
    assert(tmp_name(full)[0] == '_');
    assert(tmp_name(start)[0] == '_');
    let marked = origin_lead() + tmp_name(full);
    if sep.len() == 7 && marked == start {
        let lead = lead_of(b, sep);
        let n = lead.len() + 13;
        let front = origin_lead() + tmp_marker();
        let whole = front + lead;
        assert(marked.take(n as int) =~= whole);
        assert(start.take(n as int) =~= lead + (starts_tag() + sep));
        lemma_no_s_behind(whole, front, lead, starts_tag() + sep, lead.len() as int);
        assert((lead + (starts_tag() + sep))[lead.len() as int] == starts_tag()[0]);
    }
}

/// A text that begins with `front` and goes on as it began, `front` again
/// and again, holds no `s` if `front` holds none.
proof fn lemma_no_s_behind(
    whole: Seq<char>,
    front: Seq<char>,
    lead: Seq<char>,
    back: Seq<char>,
    k: int,
)
    requires
        whole == front + lead,
        whole == lead + back,
        front.len() > 0,
        forall|i: int| 0 <= i < front.len() ==> front[i] != 's',
        0 <= k < whole.len(),
    ensures
        whole[k] != 's',
    decreases k,
{
    if k >= front.len() {
        assert(whole[k] == lead[k - front.len()]);
        assert(lead[k - front.len()] == whole[k - front.len()]);
        lemma_no_s_behind(whole, front, lead, back, k - front.len());
    } else {
        assert(whole[k] == front[k]);
    }
}

/// A synchronisation without force leaves a local branch alone that is not
/// older than the remote one: the run reports that the local branch is
/// newer, and only remote-tracking refs have changed.
#[verifier::rlimit(60)]
pub proof fn lemma_sync_keeps_newer_local(repo: Repo, prefix: Seq<char>, sep: Seq<char>)
    requires
        full_name(decode(repo.head, prefix, sep), sep) == repo.head,
        is_ref(repo, repo.head),
        repo.remote.dom().contains(repo.head),
        repo.remote.dom().contains(start_name(decode(repo.head, prefix, sep), sep)),
        (repo.stamp)(repo.branches[repo.head]) >= (repo.stamp)(repo.remote[repo.head]),
    ensures
        ({
            let end = run(
                fresh(Phase::SyncCurrent, None, None, false, false),
                CallView::CurrentBranch,
                repo,
                prefix,
                sep,
                5,
            );
            &&& end.result == Some(Ok::<Report, StackError>(Report::LocalIsNewer))
            &&& end.repo.head == repo.head
            &&& forall|name: Seq<char>|
                !has_prefix(name, origin_lead()) ==> is_ref(end.repo, name) == is_ref(repo, name)
                    && end.repo.branches[name] == repo.branches[name]
        }),
{
    let target = decode(repo.head, prefix, sep);
    let full = full_name(target, sep);
    let start = start_name(target, sep);
    let tf = tmp_name(full);
    let ts = tmp_name(start);
    lemma_names_differ(target, sep);
    lemma_tracked_names_differ(target, sep);
    let m0 = fresh(Phase::SyncCurrent, None, None, false, false);
    let ms = MachineView { target, ..m0 };
    let c0 = CallView::CurrentBranch;
    let c1 = CallView::Fetch(full);
    let m1 = MachineView { phase: Phase::SyncFetchedFull, ..ms };
    let r1 = repo;
    assert(run(m0, c0, repo, prefix, sep, 5) == run(m1, c1, r1, prefix, sep, 4)) by {
        lemma_run_turn(m0, c0, repo, prefix, sep, 5);
        let t = turn(m0, c0, repo, prefix, sep);
        assert(t.repo.branches =~= r1.branches);
        assert(t.repo.remote =~= r1.remote);
        assert(t.repo.hooks =~= r1.hooks);
        assert(t.repo == r1);
        assert(t.machine == m1);
        assert(t.step == StepView::Call(c1));
    }
    let c2 = CallView::Fetch(start);
    let m2 = MachineView { phase: Phase::SyncFetchedStart, ..ms };
    let r2 = Repo { branches: repo.branches.insert(origin_lead() + full, repo.remote[full]), ..repo };
    assert(run(m1, c1, r1, prefix, sep, 4) == run(m2, c2, r2, prefix, sep, 3)) by {
        lemma_run_turn(m1, c1, r1, prefix, sep, 4);
        let t = turn(m1, c1, r1, prefix, sep);
        assert(t.repo.branches =~= r2.branches);
        assert(t.repo.remote =~= r2.remote);
        assert(t.repo.hooks =~= r2.hooks);
        assert(t.repo == r2);
        assert(t.machine == m2);
        assert(t.step == StepView::Call(c2));
    }
    let c3 = CallView::CommitTimestamp(full);
    let m3 = MachineView { phase: Phase::SyncLocalStamp, ..ms };
    let r3 = Repo { branches: r2.branches.insert(origin_lead() + start, repo.remote[start]), ..r2 };
    assert(run(m2, c2, r2, prefix, sep, 3) == run(m3, c3, r3, prefix, sep, 2)) by {
        lemma_run_turn(m2, c2, r2, prefix, sep, 3);
        let t = turn(m2, c2, r2, prefix, sep);
        assert(t.repo.branches =~= r3.branches);
        assert(t.repo.remote =~= r3.remote);
        assert(t.repo.hooks =~= r3.hooks);
        assert(t.repo == r3);
        assert(t.machine == m3);
        assert(t.step == StepView::Call(c3));
    }
    let c4 = CallView::CommitTimestamp(origin_lead() + full);
    let m4 = MachineView { phase: Phase::SyncRemoteStamp, local_stamp: (repo.stamp)(repo.branches[full]), ..ms };
    let r4 = r3;
    assert(run(m3, c3, r3, prefix, sep, 2) == run(m4, c4, r4, prefix, sep, 1)) by {
        lemma_run_turn(m3, c3, r3, prefix, sep, 2);
        let t = turn(m3, c3, r3, prefix, sep);
        assert(t.repo.branches =~= r4.branches);
        assert(t.repo.remote =~= r4.remote);
        assert(t.repo.hooks =~= r4.hooks);
        assert(t.repo == r4);
        assert(t.machine == m4);
        assert(t.step == StepView::Call(c4));
    }
    let r5 = r3;
    assert(run(m4, c4, r4, prefix, sep, 1) == (Run { result: Some(Ok::<Report, StackError>(Report::LocalIsNewer)), repo: r5, picks: 0 })) by {
        lemma_run_turn(m4, c4, r4, prefix, sep, 1);
        let t = turn(m4, c4, r4, prefix, sep);
        assert(t.repo.branches =~= r5.branches);
        assert(t.repo.remote =~= r5.remote);
        assert(t.repo.hooks =~= r5.hooks);
        assert(t.repo == r5);
        assert(t.step == StepView::Done(Ok::<Report, StackError>(Report::LocalIsNewer)));
    }
    assert forall|name: Seq<char>| !has_prefix(name, origin_lead()) implies is_ref(r5, name)
        == is_ref(repo, name) && r5.branches[name] == repo.branches[name] by {
        assert((origin_lead() + full).subrange(0, 7) =~= origin_lead());
        assert((origin_lead() + start).subrange(0, 7) =~= origin_lead());
    }
}

/// A synchronisation with force, or of a local branch that is older than
/// the remote one, ends with the branch at the commit of the remote branch
/// and the start marker at the commit of the remote start marker.
#[verifier::rlimit(60)]
pub proof fn lemma_sync_takes_remote(repo: Repo, force: bool, prefix: Seq<char>, sep: Seq<char>)
    requires
        full_name(decode(repo.head, prefix, sep), sep) == repo.head,
        is_ref(repo, repo.head),
        repo.remote.dom().contains(repo.head),
        repo.remote.dom().contains(start_name(decode(repo.head, prefix, sep), sep)),
        force || (repo.stamp)(repo.branches[repo.head]) < (repo.stamp)(repo.remote[repo.head]),
    ensures
        ({
            let start = start_name(decode(repo.head, prefix, sep), sep);
            let end = run(
                fresh(Phase::SyncCurrent, None, None, false, force),
                CallView::CurrentBranch,
                repo,
                prefix,
                sep,
                7,
            );
            &&& end.result == Some(Ok::<Report, StackError>(Report::Completed))
            &&& end.repo.head == repo.head
            &&& end.repo.branches[repo.head] == repo.remote[repo.head]
            &&& end.repo.branches[start] == repo.remote[start]
        }),
{
    let target = decode(repo.head, prefix, sep);
    let full = full_name(target, sep);
    let start = start_name(target, sep);
    let tf = tmp_name(full);
    let ts = tmp_name(start);
    lemma_names_differ(target, sep);
    lemma_tracked_names_differ(target, sep);
    let m0 = fresh(Phase::SyncCurrent, None, None, false, force);
    let ms = MachineView { target, ..m0 };
    let c0 = CallView::CurrentBranch;
    let c1 = CallView::Fetch(full);
    let m1 = MachineView { phase: Phase::SyncFetchedFull, ..ms };
    let r1 = repo;
    assert(run(m0, c0, repo, prefix, sep, 7) == run(m1, c1, r1, prefix, sep, 6)) by {
        lemma_run_turn(m0, c0, repo, prefix, sep, 7);
        let t = turn(m0, c0, repo, prefix, sep);
        assert(t.repo.branches =~= r1.branches);
        assert(t.repo.remote =~= r1.remote);
        assert(t.repo.hooks =~= r1.hooks);
        assert(t.repo == r1);
        assert(t.machine == m1);
        assert(t.step == StepView::Call(c1));
    }
    let c2 = CallView::Fetch(start);
    let m2 = MachineView { phase: Phase::SyncFetchedStart, ..ms };
    let r2 = Repo { branches: repo.branches.insert(origin_lead() + full, repo.remote[full]), ..repo };
    assert(run(m1, c1, r1, prefix, sep, 6) == run(m2, c2, r2, prefix, sep, 5)) by {
        lemma_run_turn(m1, c1, r1, prefix, sep, 6);
        let t = turn(m1, c1, r1, prefix, sep);
        assert(t.repo.branches =~= r2.branches);
        assert(t.repo.remote =~= r2.remote);
        assert(t.repo.hooks =~= r2.hooks);
        assert(t.repo == r2);
        assert(t.machine == m2);
        assert(t.step == StepView::Call(c2));
    }
    let c3 = CallView::CommitTimestamp(full);
    let m3 = MachineView { phase: Phase::SyncLocalStamp, ..ms };
    let r3 = Repo { branches: r2.branches.insert(origin_lead() + start, repo.remote[start]), ..r2 };
    assert(run(m2, c2, r2, prefix, sep, 5) == run(m3, c3, r3, prefix, sep, 4)) by {
        lemma_run_turn(m2, c2, r2, prefix, sep, 5);
        let t = turn(m2, c2, r2, prefix, sep);
        assert(t.repo.branches =~= r3.branches);
        assert(t.repo.remote =~= r3.remote);
        assert(t.repo.hooks =~= r3.hooks);
        assert(t.repo == r3);
        assert(t.machine == m3);
        assert(t.step == StepView::Call(c3));
    }
    let c4 = CallView::CommitTimestamp(origin_lead() + full);
    let m4 = MachineView { phase: Phase::SyncRemoteStamp, local_stamp: (repo.stamp)(repo.branches[full]), ..ms };
    let r4 = r3;
    assert(run(m3, c3, r3, prefix, sep, 4) == run(m4, c4, r4, prefix, sep, 3)) by {
        lemma_run_turn(m3, c3, r3, prefix, sep, 4);
        let t = turn(m3, c3, r3, prefix, sep);
        assert(t.repo.branches =~= r4.branches);
        assert(t.repo.remote =~= r4.remote);
        assert(t.repo.hooks =~= r4.hooks);
        assert(t.repo == r4);
        assert(t.machine == m4);
        assert(t.step == StepView::Call(c4));
    }
    let c5 = CallView::Reset { target: origin_lead() + full, hard: true };
    let m5 = MachineView { phase: Phase::SyncReset, local_stamp: (repo.stamp)(repo.branches[full]), ..ms };
    let r5 = r3;
    assert(run(m4, c4, r4, prefix, sep, 3) == run(m5, c5, r5, prefix, sep, 2)) by {
        lemma_run_turn(m4, c4, r4, prefix, sep, 3);
        let t = turn(m4, c4, r4, prefix, sep);
        assert(t.repo.branches =~= r5.branches);
        assert(t.repo.remote =~= r5.remote);
        assert(t.repo.hooks =~= r5.hooks);
        assert(t.repo == r5);
        assert(t.machine == m5);
        assert(t.step == StepView::Call(c5));
    }
    let c6 = CallView::ForceBranch { branch: start, target: origin_lead() + start };
    let m6 = MachineView { phase: Phase::SyncStartMoved, local_stamp: (repo.stamp)(repo.branches[full]), ..ms };
    let r6 = Repo { branches: r3.branches.insert(full, repo.remote[full]), ..r3 };
    assert(run(m5, c5, r5, prefix, sep, 2) == run(m6, c6, r6, prefix, sep, 1)) by {
        lemma_run_turn(m5, c5, r5, prefix, sep, 2);
        let t = turn(m5, c5, r5, prefix, sep);
        assert(t.repo.branches =~= r6.branches);
        assert(t.repo.remote =~= r6.remote);
        assert(t.repo.hooks =~= r6.hooks);
        assert(t.repo == r6);
        assert(t.machine == m6);
        assert(t.step == StepView::Call(c6));
    }
    let r7 = Repo { branches: r6.branches.insert(start, repo.remote[start]), ..r6 };
    assert(run(m6, c6, r6, prefix, sep, 1) == (Run { result: Some(Ok::<Report, StackError>(Report::Completed)), repo: r7, picks: 0 })) by {
        lemma_run_turn(m6, c6, r6, prefix, sep, 1);
        let t = turn(m6, c6, r6, prefix, sep);
        assert(t.repo.branches =~= r7.branches);
        assert(t.repo.remote =~= r7.remote);
        assert(t.repo.hooks =~= r7.hooks);
        assert(t.repo == r7);
        assert(t.step == StepView::Done(Ok::<Report, StackError>(Report::Completed)));
    }
}

/// A rebase that stopped on a conflict is finished by a continue: run on
/// the temporary branch of a branch `name` that has a name as this library
/// writes it, with the cherry-pick waiting, the run ends with the branch at
/// the commit of its temporary branch and the waiting changes after it, the
/// start marker at the commit of its temporary branch, both temporary
/// branches gone, the hooks path as the memo held it, and the memo gone.
#[verifier::rlimit(60)]
pub proof fn lemma_continue_finishes(repo: Repo, name: Seq<char>, prefix: Seq<char>, sep: Seq<char>)
    requires
        full_name(decode(name, prefix, sep), sep) == name,
        repo.head == tmp_name(name),
        repo.paused is Some,
        repo.memo is Some,
        is_ref(repo, name),
        is_ref(repo, start_name(decode(name, prefix, sep), sep)),
        is_ref(repo, tmp_name(name)),
        is_ref(repo, tmp_name(start_name(decode(name, prefix, sep), sep))),
    ensures
        ({
            let start = start_name(decode(name, prefix, sep), sep);
            let end = run(
                fresh(Phase::ContinueCurrent, None, None, false, false),
                CallView::CurrentBranch,
                repo,
                prefix,
                sep,
                11,
            );
            &&& end.result == Some(Ok::<Report, StackError>(Report::Completed))
            &&& end.repo.branches[name] == repo.branches[tmp_name(name)] + repo.paused->0
            &&& end.repo.branches[start] == repo.branches[tmp_name(start)]
            &&& !is_ref(end.repo, tmp_name(name))
            &&& !is_ref(end.repo, tmp_name(start))
            &&& end.repo.head == name
            &&& end.repo.hooks == repo.memo->0
            &&& end.repo.memo is None
            &&& end.repo.paused is None
        }),
{
    let target = decode(name, prefix, sep);
    let full = name;
    let start = start_name(target, sep);
    let tf = tmp_name(full);
    let ts = tmp_name(start);
    lemma_names_differ(target, sep);
    lemma_unmarked_tmp_name(full);
    assert(recorded_branch(tf, prefix, sep) == Ok::<BranchId, StackError>(target));
    let m0 = fresh(Phase::ContinueCurrent, None, None, false, false);
    let c0 = CallView::CurrentBranch;
    let c1 = CallView::CherryContinue;
    let m1 = MachineView { phase: Phase::Continued, target, ..m0 };
    assert(run(m0, c0, repo, prefix, sep, 11) == run(m1, c1, repo, prefix, sep, 10)) by {
        lemma_run_turn(m0, c0, repo, prefix, sep, 11);
        let t = turn(m0, c0, repo, prefix, sep);
        assert(t.repo == repo);
        assert(t.machine == m1);
        assert(t.step == StepView::Call(c1));
    }
    let c2 = CallView::Checkout(start);
    let m2 = MachineView { phase: Phase::FinStartCheckedOut, ..m1 };
    let r2 = Repo {
        paused: None,
        branches: repo.branches.insert(tf, repo.branches[tf] + repo.paused->0),
        ..repo
    };
    assert(run(m1, c1, repo, prefix, sep, 10) == run(m2, c2, r2, prefix, sep, 9)) by {
        lemma_run_turn(m1, c1, repo, prefix, sep, 10);
        let t = turn(m1, c1, repo, prefix, sep);
        assert(t.repo.branches =~= r2.branches);
        assert(t.repo == r2);
        assert(t.machine == m2);
        assert(t.step == StepView::Call(c2));
    }
    lemma_finish(m2, r2, prefix, sep, 9);
}

/// A rebase does not begin while the temporary branches of an earlier one
/// are there: if the branch has commits of its own and one of its temporary
/// branches exists, the run ends with that reported, and nothing in the
/// repository has changed.
#[verifier::rlimit(60)]
pub proof fn lemma_rebase_refuses_a_second_transaction(
    repo: Repo,
    onto: Seq<char>,
    strategy: Option<Seq<char>>,
    prefix: Seq<char>,
    sep: Seq<char>,
)
    requires
        is_ref(repo, onto),
        is_ref(repo, full_name(decode(repo.head, prefix, sep), sep)),
        is_ref(repo, start_name(decode(repo.head, prefix, sep), sep)),
        repo.branches[start_name(decode(repo.head, prefix, sep), sep)]
            != repo.branches[full_name(decode(repo.head, prefix, sep), sep)],
        is_ref(repo, tmp_name(full_name(decode(repo.head, prefix, sep), sep))) || is_ref(
            repo,
            tmp_name(start_name(decode(repo.head, prefix, sep), sep)),
        ),
    ensures
        ({
            let end = run(
                fresh(Phase::StartCurrent, Some(onto), strategy, false, false),
                CallView::CurrentBranch,
                repo,
                prefix,
                sep,
                6,
            );
            &&& end.result == Some(Err::<Report, StackError>(StackError::TransactionOpen))
            &&& end.repo == repo
            &&& end.picks == 0
        }),
{
    let target = decode(repo.head, prefix, sep);
    let full = full_name(target, sep);
    let start = start_name(target, sep);
    let tf = tmp_name(full);
    let ts = tmp_name(start);
    let mp = picking(repo, onto, strategy, prefix, sep);
    let m0 = fresh(Phase::StartCurrent, Some(onto), strategy, false, false);
    let c0 = CallView::CurrentBranch;
    let c1 = CallView::CommitHash(onto);
    let m1 = MachineView { phase: Phase::StartOntoHash, start_hash: Seq::empty(), ..mp };
    let r1 = repo;
    assert(run(m0, c0, repo, prefix, sep, 6) == run(m1, c1, r1, prefix, sep, 5)) by {
        lemma_run_turn(m0, c0, repo, prefix, sep, 6);
        let t = turn(m0, c0, repo, prefix, sep);
        assert(t.repo.branches =~= r1.branches);
        assert(t.repo.remote =~= r1.remote);
        assert(t.repo.hooks =~= r1.hooks);
        assert(t.repo == r1);
        assert(t.machine == m1);
        assert(t.step == StepView::Call(c1));
    }
    let c2 = CallView::CommitHash(start);
    let m2 = MachineView { phase: Phase::StartStartHash, start_hash: Seq::empty(), ..mp };
    let r2 = repo;
    assert(run(m1, c1, r1, prefix, sep, 5) == run(m2, c2, r2, prefix, sep, 4)) by {
        lemma_run_turn(m1, c1, r1, prefix, sep, 5);
        let t = turn(m1, c1, r1, prefix, sep);
        assert(t.repo.branches =~= r2.branches);
        assert(t.repo.remote =~= r2.remote);
        assert(t.repo.hooks =~= r2.hooks);
        assert(t.repo == r2);
        assert(t.machine == m2);
        assert(t.step == StepView::Call(c2));
    }
    let c3 = CallView::CommitHash(full);
    let m3 = MachineView { phase: Phase::StartFullHash, ..mp };
    let r3 = repo;
    assert(run(m2, c2, r2, prefix, sep, 4) == run(m3, c3, r3, prefix, sep, 3)) by {
        lemma_run_turn(m2, c2, r2, prefix, sep, 4);
        let t = turn(m2, c2, r2, prefix, sep);
        assert(t.repo.branches =~= r3.branches);
        assert(t.repo.remote =~= r3.remote);
        assert(t.repo.hooks =~= r3.hooks);
        assert(t.repo == r3);
        assert(t.machine == m3);
        assert(t.step == StepView::Call(c3));
    }
    let c4 = CallView::CommitHash(tf);
    let m4 = MachineView { phase: Phase::GuardFull, ..mp };
    let r4 = repo;
    assert(run(m3, c3, r3, prefix, sep, 3) == run(m4, c4, r4, prefix, sep, 2)) by {
        lemma_run_turn(m3, c3, r3, prefix, sep, 3);
        let t = turn(m3, c3, r3, prefix, sep);
        assert(t.repo.branches =~= r4.branches);
        assert(t.repo.remote =~= r4.remote);
        assert(t.repo.hooks =~= r4.hooks);
        assert(t.repo == r4);
        assert(t.machine == m4);
        assert(t.step == StepView::Call(c4));
    }
    let refused = Run {
        result: Some(Err::<Report, StackError>(StackError::TransactionOpen)),
        repo,
        picks: 0,
    };
    if is_ref(repo, tf) {
        assert(run(m4, c4, repo, prefix, sep, 2) == refused) by {
            lemma_run_turn(m4, c4, repo, prefix, sep, 2);
        }
    } else {
        let c5 = CallView::CommitHash(ts);
        let m5 = MachineView { phase: Phase::GuardStart, ..mp };
        assert(run(m4, c4, repo, prefix, sep, 2) == run(m5, c5, repo, prefix, sep, 1)) by {
            lemma_run_turn(m4, c4, repo, prefix, sep, 2);
        }
        assert(run(m5, c5, repo, prefix, sep, 1) == refused) by {
            lemma_run_turn(m5, c5, repo, prefix, sep, 1);
        }
    }
}

/// A rebase that lacks a ref changes nothing: if the new base, the start
/// marker or the branch does not exist, the run ends with that reported and
/// the repository as it was.
#[verifier::rlimit(60)]
pub proof fn lemma_rebase_needs_its_refs(
    repo: Repo,
    onto: Seq<char>,
    strategy: Option<Seq<char>>,
    prefix: Seq<char>,
    sep: Seq<char>,
)
    requires
        !is_ref(repo, onto) || !is_ref(repo, full_name(decode(repo.head, prefix, sep), sep))
            || !is_ref(repo, start_name(decode(repo.head, prefix, sep), sep)),
    ensures
        ({
            let end = run(
                fresh(Phase::StartCurrent, Some(onto), strategy, false, false),
                CallView::CurrentBranch,
                repo,
                prefix,
                sep,
                4,
            );
            &&& end.result == Some(Err::<Report, StackError>(StackError::RefNotFound))
            &&& end.repo == repo
            &&& end.picks == 0
        }),
{
    let target = decode(repo.head, prefix, sep);
    let full = full_name(target, sep);
    let start = start_name(target, sep);
    let tf = tmp_name(full);
    let ts = tmp_name(start);
    let m0 = fresh(Phase::StartCurrent, Some(onto), strategy, false, false);
    let c0 = CallView::CurrentBranch;
    let c1 = CallView::CommitHash(onto);
    let m1 = MachineView { phase: Phase::StartOntoHash, target, onto, ..m0 };
    let c2 = CallView::CommitHash(start);
    let m2 = MachineView { phase: Phase::StartStartHash, ..m1 };
    let c3 = CallView::CommitHash(full);
    let m3 = MachineView { phase: Phase::StartFullHash, start_hash: repo.branches[start], ..m1 };
    let missing = Run {
        result: Some(Err::<Report, StackError>(StackError::RefNotFound)),
        repo,
        picks: 0,
    };
    assert(run(m0, c0, repo, prefix, sep, 4) == run(m1, c1, repo, prefix, sep, 3)) by {
        lemma_run_turn(m0, c0, repo, prefix, sep, 4);
    }
    if !is_ref(repo, onto) {
        assert(run(m1, c1, repo, prefix, sep, 3) == missing) by {
            lemma_run_turn(m1, c1, repo, prefix, sep, 3);
        }
    } else {
        assert(run(m1, c1, repo, prefix, sep, 3) == run(m2, c2, repo, prefix, sep, 2)) by {
            lemma_run_turn(m1, c1, repo, prefix, sep, 3);
        }
        if !is_ref(repo, start) {
            assert(run(m2, c2, repo, prefix, sep, 2) == missing) by {
                lemma_run_turn(m2, c2, repo, prefix, sep, 2);
            }
        } else {
            assert(run(m2, c2, repo, prefix, sep, 2) == run(m3, c3, repo, prefix, sep, 1)) by {
                lemma_run_turn(m2, c2, repo, prefix, sep, 2);
            }
            assert(run(m3, c3, repo, prefix, sep, 1) == missing) by {
                lemma_run_turn(m3, c3, repo, prefix, sep, 1);
            }
        }
    }
}

/// A rebase whose conflicts were resolved and committed by hand is finished
/// by a fixup: run on the temporary branch of a branch `name` that has a
/// name as this library writes it, the run ends with the branch and its
/// start marker at the commits of their temporary branches, both temporary
/// branches gone, the hooks path as the memo held it, and the memo gone; no
/// cherry-pick is touched.
#[verifier::rlimit(60)]
pub proof fn lemma_fixup_finishes(repo: Repo, name: Seq<char>, prefix: Seq<char>, sep: Seq<char>)
    requires
        full_name(decode(name, prefix, sep), sep) == name,
        repo.head == tmp_name(name),
        repo.memo is Some,
        is_ref(repo, name),
        is_ref(repo, start_name(decode(name, prefix, sep), sep)),
        is_ref(repo, tmp_name(name)),
        is_ref(repo, tmp_name(start_name(decode(name, prefix, sep), sep))),
    ensures
        ({
            let start = start_name(decode(name, prefix, sep), sep);
            let end = run(
                fresh(Phase::FixupCurrent, None, None, false, false),
                CallView::CurrentBranch,
                repo,
                prefix,
                sep,
                10,
            );
            &&& end.result == Some(Ok::<Report, StackError>(Report::Completed))
            &&& end.repo.branches[name] == repo.branches[tmp_name(name)]
            &&& end.repo.branches[start] == repo.branches[tmp_name(start)]
            &&& !is_ref(end.repo, tmp_name(name))
            &&& !is_ref(end.repo, tmp_name(start))
            &&& end.repo.head == name
            &&& end.repo.hooks == repo.memo->0
            &&& end.repo.memo is None
            &&& end.repo.paused == repo.paused
            &&& end.picks == 0
        }),
{
    let target = decode(name, prefix, sep);
    let start = start_name(target, sep);
    let tf = tmp_name(name);
    lemma_names_differ(target, sep);
    lemma_unmarked_tmp_name(name);
    assert(recorded_branch(tf, prefix, sep) == Ok::<BranchId, StackError>(target));
    let m0 = fresh(Phase::FixupCurrent, None, None, false, false);
    let c0 = CallView::CurrentBranch;
    let c1 = CallView::Checkout(start);
    let m1 = MachineView { phase: Phase::FinStartCheckedOut, target, ..m0 };
    assert(run(m0, c0, repo, prefix, sep, 10) == run(m1, c1, repo, prefix, sep, 9)) by {
        lemma_run_turn(m0, c0, repo, prefix, sep, 10);
        let t = turn(m0, c0, repo, prefix, sep);
        assert(t.repo == repo);
        assert(t.machine == m1);
        assert(t.step == StepView::Call(c1));
    }
    lemma_finish(m1, repo, prefix, sep, 9);
}

/// Whether the machine is at work on one branch only, past its first reply:
/// it carries nothing through a stack.
pub open spec fn on_one_branch(m: MachineView) -> bool {
    !m.all && !m.spreading && m.phase != Phase::StartCurrent && m.phase != Phase::SpreadCurrent
        && m.phase != Phase::SpreadListing && m.phase != Phase::ChildCheckedOut
}

proof fn lemma_named_base_is_read_once(
    m: MachineView,
    named: Option<Seq<char>>,
    o: OutcomeView,
    prefix: Seq<char>,
    sep: Seq<char>,
)
    requires
        on_one_branch(m),
    ensures
        advance(MachineView { onto_arg: named, ..m }, o, prefix, sep).1 == advance(
            m,
            o,
            prefix,
            sep,
        ).1,
        advance(MachineView { onto_arg: named, ..m }, o, prefix, sep).0 == (MachineView {
            onto_arg: named,
            ..advance(m, o, prefix, sep).0
        }),
        on_one_branch(advance(m, o, prefix, sep).0),
{
}

proof fn lemma_run_reads_named_base_once(
    m: MachineView,
    named: Option<Seq<char>>,
    call: CallView,
    repo: Repo,
    prefix: Seq<char>,
    sep: Seq<char>,
    calls: nat,
)
    requires
        on_one_branch(m),
    ensures
        run(MachineView { onto_arg: named, ..m }, call, repo, prefix, sep, calls) == run(
            m,
            call,
            repo,
            prefix,
            sep,
            calls,
        ),
    decreases calls,
{
    if calls > 0 {
        let other = MachineView { onto_arg: named, ..m };
        let o = crate::model::respond(repo, call).1;
        lemma_named_base_is_read_once(m, named, o, prefix, sep);
        lemma_run_turn(m, call, repo, prefix, sep, calls);
        lemma_run_turn(other, call, repo, prefix, sep, calls);
        let t = turn(m, call, repo, prefix, sep);
        match t.step {
            StepView::Call(c) => {
                lemma_run_reads_named_base_once(
                    t.machine,
                    named,
                    c,
                    t.repo,
                    prefix,
                    sep,
                    (calls - 1) as nat,
                );
            },
            StepView::Done(_) => {},
        }
    }
}

/// A rebase without a named base is the rebase onto the branch before: if
/// the checked-out branch is found in its stack, as the listing shows it,
/// and is not the first there, the run is, after one call more for the
/// listing, the run of the rebase onto the branch that stands before it.
pub proof fn lemma_rebase_onto_the_branch_before(
    repo: Repo,
    strategy: Option<Seq<char>>,
    prefix: Seq<char>,
    sep: Seq<char>,
    calls: nat,
)
    requires
        calls > 0,
        index_of_position(
            siblings(repo.listed, prefix, sep, decode(repo.head, prefix, sep).base),
            decode(repo.head, prefix, sep).position,
        ) matches Some(i) && i >= 1,
    ensures
        ({
            let target = decode(repo.head, prefix, sep);
            let stack = siblings(repo.listed, prefix, sep, target.base);
            let before = stack[index_of_position(stack, target.position)->0 - 1];
            run(
                fresh(Phase::StartCurrent, None, strategy, false, false),
                CallView::CurrentBranch,
                repo,
                prefix,
                sep,
                calls + 1,
            ) == run(
                fresh(Phase::StartCurrent, Some(full_name(before, sep)), strategy, false, false),
                CallView::CurrentBranch,
                repo,
                prefix,
                sep,
                calls,
            )
        }),
{
    let target = decode(repo.head, prefix, sep);
    let stack = siblings(repo.listed, prefix, sep, target.base);
    let onto = full_name(stack[index_of_position(stack, target.position)->0 - 1], sep);
    let unnamed = fresh(Phase::StartCurrent, None, strategy, false, false);
    let named = fresh(Phase::StartCurrent, Some(onto), strategy, false, false);
    let c0 = CallView::CurrentBranch;
    let listing = MachineView { phase: Phase::StartListing, target, ..unnamed };
    let c1 = CallView::CommitHash(onto);
    let m1 = MachineView { phase: Phase::StartOntoHash, target, onto, ..unnamed };
    let n1 = MachineView { phase: Phase::StartOntoHash, target, onto, ..named };
    assert(run(unnamed, c0, repo, prefix, sep, calls + 1) == run(
        listing,
        CallView::ListBranches,
        repo,
        prefix,
        sep,
        calls,
    )) by {
        lemma_run_turn(unnamed, c0, repo, prefix, sep, calls + 1);
    }
    assert(run(listing, CallView::ListBranches, repo, prefix, sep, calls) == run(
        m1,
        c1,
        repo,
        prefix,
        sep,
        (calls - 1) as nat,
    )) by {
        lemma_run_turn(listing, CallView::ListBranches, repo, prefix, sep, calls);
    }
    assert(run(named, c0, repo, prefix, sep, calls) == run(
        n1,
        c1,
        repo,
        prefix,
        sep,
        (calls - 1) as nat,
    )) by {
        lemma_run_turn(named, c0, repo, prefix, sep, calls);
    }
    assert(n1 == MachineView { onto_arg: Some(onto), ..m1 });
    lemma_run_reads_named_base_once(m1, Some(onto), c1, repo, prefix, sep, (calls - 1) as nat);
}

/// The machine does not clear up after itself. Once it has given a result
/// it makes no further call; and where a call fails whose failure is
/// neither passed over nor looked for, it gives its result at once, so that
/// what the run has made so far stays as it is.
pub proof fn lemma_a_failure_ends_the_run(
    m: MachineView,
    o: OutcomeView,
    prefix: Seq<char>,
    sep: Seq<char>,
)
    ensures
        advance(m, o, prefix, sep).1 is Done ==> advance(m, o, prefix, sep).0.phase
            == Phase::Finished,
        m.phase == Phase::Finished ==> advance(m, o, prefix, sep).1 is Done,
        o is Failed && !passes_over_failure(m.phase) ==> advance(m, o, prefix, sep).1 matches StepView::Done(
            Err(_),
        ),
{
}

/// The phases in which a failed call does not end the run: the probes for
/// the temporary branches of an earlier rebase, which have to fail, and the
/// deletions on the remote, which may.
pub open spec fn passes_over_failure(phase: Phase) -> bool {
    phase == Phase::GuardFull || phase == Phase::GuardStart || phase == Phase::AbortRemoteFull
        || phase == Phase::AbortTrackingFull || phase == Phase::AbortRemoteStart || phase
        == Phase::AbortTrackingStart
}

} // verus!
