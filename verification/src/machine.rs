//! The rebase of a stack segment, the carrying of a rebase through the rest
//! of a stack, and the synchronisation with the remote, as one state machine.
//!
//! The machine makes no call itself. It is handed what came of the last call
//! and answers with the next one, or with the result. Whoever drives it
//! performs the calls: nothing but the repository holds state between two
//! runs, so a rebase that stopped on a conflict is found again by the name
//! of the checked-out temporary branch.

use vstd::prelude::*;
use crate::branch::{
    decode, full_name, origin_lead, parse_branch, start_name, BranchId, ParsedBranch,
};
use crate::config::SavedConfig;
use crate::error::StackError;
use crate::gateway::{text_of, CallView, GatewayCall, Outcome, OutcomeView};
use crate::stack::{
    children_of, get_children_branches, get_sorted_matching_branches, ids, index_of_position,
    locate, siblings, texts,
};
use crate::transaction::{
    branches_are_equivalent, recorded_branch, tmp_for_branch_name, tmp_name, TmpBranchWrapper,
};

verus! {

/// Which reply the machine waits for.
#[derive(Clone, Copy, Debug, PartialEq, Eq, Structural)]
pub enum Phase {
    StartCurrent,
    StartListing,
    StartOntoHash,
    StartStartHash,
    StartFullHash,
    FastFull,
    FastStart,
    GuardFull,
    GuardStart,
    HooksRead,
    HooksSaved,
    HooksOff,
    OntoCheckedOut,
    TmpStartCreated,
    TmpFullCreated,
    Picked,
    FinStartCheckedOut,
    FinStartReset,
    FinFullCheckedOut,
    FinFullReset,
    FinTmpFullDeleted,
    FinTmpStartDeleted,
    FinMemoRead,
    FinHooksRestored,
    FinMemoDropped,
    ContinueCurrent,
    Continued,
    FixupCurrent,
    AbortCurrent,
    Aborted,
    AbortCheckedOut,
    AbortRemoteFull,
    AbortLocalFull,
    AbortTrackingFull,
    AbortRemoteStart,
    AbortLocalStart,
    AbortTrackingStart,
    SpreadCurrent,
    SpreadListing,
    ChildCheckedOut,
    SyncCurrent,
    SyncFetchedFull,
    SyncFetchedStart,
    SyncLocalStamp,
    SyncRemoteStamp,
    SyncReset,
    SyncStartMoved,
    Finished,
}

/// How an operation ended that did not fail.
#[derive(Clone, Copy, Debug, PartialEq, Eq, Structural)]
pub enum Report {
    /// The work is done.
    Completed,
    /// Nothing was changed: the local branch is not older than the remote
    /// one, and no force was asked for.
    LocalIsNewer,
}

/// What the machine answers: the next call to make, or the result.
#[derive(Debug, PartialEq, Eq)]
pub enum Step {
    Call(GatewayCall),
    Done(Result<Report, StackError>),
}

/// The mathematical value of a `Step`.
pub enum StepView {
    Call(CallView),
    Done(Result<Report, StackError>),
}

impl View for Step {
    type V = StepView;

    open spec fn view(&self) -> StepView {
        match *self {
            Step::Call(c) => StepView::Call(c@),
            Step::Done(r) => StepView::Done(r),
        }
    }
}

/// The state of an operation between two calls.
#[derive(Debug)]
pub struct Machine {
    /// The reply that is waited for.
    pub phase: Phase,
    /// The branch that is worked on.
    pub target: ParsedBranch,
    /// The ref to rebase onto, as the user named it.
    pub onto_arg: Option<String>,
    /// The merge strategy option handed to the cherry-pick.
    pub strategy: Option<String>,
    /// Whether the rest of the stack is rebased afterwards.
    pub all: bool,
    /// Whether a synchronisation overrides a newer local branch.
    pub force: bool,
    /// The ref to rebase onto, once it is known.
    pub onto: String,
    /// The hash of the start marker's commit, once it is known.
    pub start_hash: String,
    /// The timestamp of the local branch, once it is known.
    pub local_stamp: i64,
    /// The branches that are still to be rebased, by name.
    pub children: Vec<String>,
    /// How many of `children` have been taken up.
    pub next_child: usize,
    /// Whether `children` has been filled.
    pub spreading: bool,
}

/// The mathematical value of a `Machine`.
pub struct MachineView {
    pub phase: Phase,
    pub target: BranchId,
    pub onto_arg: Option<Seq<char>>,
    pub strategy: Option<Seq<char>>,
    pub all: bool,
    pub force: bool,
    pub onto: Seq<char>,
    pub start_hash: Seq<char>,
    pub local_stamp: i64,
    pub children: Seq<Seq<char>>,
    pub next_child: usize,
    pub spreading: bool,
}

impl View for Machine {
    type V = MachineView;

    open spec fn view(&self) -> MachineView {
        MachineView {
            phase: self.phase,
            target: self.target@,
            onto_arg: text_of(self.onto_arg),
            strategy: text_of(self.strategy),
            all: self.all,
            force: self.force,
            onto: self.onto@,
            start_hash: self.start_hash@,
            local_stamp: self.local_stamp,
            children: texts(self.children@),
            next_child: self.next_child,
            spreading: self.spreading,
        }
    }
}

/// The path that the hooks are pointed to while a rebase is open.
pub open spec fn no_hooks() -> Seq<char> {
    "/dev/null"@
}

/// The machine as it stands before its first reply.
pub open spec fn fresh(
    phase: Phase,
    onto_arg: Option<Seq<char>>,
    strategy: Option<Seq<char>>,
    all: bool,
    force: bool,
) -> MachineView {
    MachineView {
        phase,
        target: BranchId { prefix: None, base: Seq::empty(), position: None },
        onto_arg,
        strategy,
        all,
        force,
        onto: Seq::empty(),
        start_hash: Seq::empty(),
        local_stamp: 0,
        children: Seq::empty(),
        next_child: 0,
        spreading: false,
    }
}

/// The machine goes on to `phase` and asks for `call`.
pub open spec fn go(m: MachineView, phase: Phase, call: CallView) -> (MachineView, StepView) {
    (MachineView { phase, ..m }, StepView::Call(call))
}

/// The machine ends with `result`.
pub open spec fn stop(m: MachineView, result: Result<Report, StackError>) -> (
    MachineView,
    StepView,
) {
    (MachineView { phase: Phase::Finished, ..m }, StepView::Done(result))
}

/// The machine goes on to `phase` and asks for `call` if the last call did
/// its work, and ends with a failure if not.
pub open spec fn go_if_done(m: MachineView, o: OutcomeView, phase: Phase, call: CallView) -> (
    MachineView,
    StepView,
) {
    if o is Done {
        go(m, phase, call)
    } else {
        stop(m, Err(StackError::GatewayCommandFailed))
    }
}

/// What follows a rebase that is through: the next branch of the stack, if
/// the stack is being carried along; the listing of the stack, if that was
/// asked for and has not begun; else the end.
pub open spec fn settle(m: MachineView) -> (MachineView, StepView) {
    if m.spreading {
        if m.next_child < m.children.len() {
            go(
                MachineView { next_child: (m.next_child + 1) as usize, ..m },
                Phase::ChildCheckedOut,
                CallView::Checkout(m.children[m.next_child as int]),
            )
        } else {
            stop(m, Ok(Report::Completed))
        }
    } else if m.all {
        go(m, Phase::SpreadCurrent, CallView::CurrentBranch)
    } else {
        stop(m, Ok(Report::Completed))
    }
}

/// The first call of the finish: the start marker is checked out.
pub open spec fn begin_finish(m: MachineView, sep: Seq<char>) -> (MachineView, StepView) {
    go(m, Phase::FinStartCheckedOut, CallView::Checkout(start_name(m.target, sep)))
}

/// The names of the branches of `kids`.
pub open spec fn names_of(kids: Seq<BranchId>, sep: Seq<char>) -> Seq<Seq<char>> {
    Seq::new(kids.len(), |i: int| full_name(kids[i], sep))
}

/// A rebase begins. The branch to rebase is the checked-out one. It is
/// rebased onto the ref that was named, or else onto the branch before it in
/// its stack; that ref, the start marker and the branch have to exist. If
/// the start marker and the branch are the same commit there is nothing to
/// replay: both are moved onto the new base, and no temporary branch and no
/// hooks setting is touched. Otherwise, unless the temporary branches of an
/// earlier rebase are still there, the hooks path is saved and pointed to
/// nowhere, the temporary branches are made at the new base, and the commits
/// after the start marker are replayed on the temporary branch. If that
/// stops on a conflict the machine ends there, and all is left as it is for
/// a later run to take up; if it succeeds, the finish follows at once.
pub open spec fn advance_opening(
    m: MachineView,
    o: OutcomeView,
    prefix: Seq<char>,
    sep: Seq<char>,
) -> (MachineView, StepView) {
    let full = full_name(m.target, sep);
    let start = start_name(m.target, sep);
    match m.phase {
        Phase::StartCurrent => match o {
            OutcomeView::Text(name) => {
                let m1 = MachineView { target: decode(name, prefix, sep), ..m };
                match m.onto_arg {
                    Some(onto) => go(
                        MachineView { onto, ..m1 },
                        Phase::StartOntoHash,
                        CallView::CommitHash(onto),
                    ),
                    None => go(m1, Phase::StartListing, CallView::ListBranches),
                }
            },
            _ => stop(m, Err(StackError::GatewayCommandFailed)),
        },
        Phase::StartListing => match o {
            OutcomeView::Lines(names) => {
                let stack = siblings(names, prefix, sep, m.target.base);
                match index_of_position(stack, m.target.position) {
                    None => stop(m, Err(StackError::NotInStack)),
                    Some(i) => if i >= 1 {
                        go(
                            MachineView { onto: full_name(stack[i - 1], sep), ..m },
                            Phase::StartOntoHash,
                            CallView::CommitHash(full_name(stack[i - 1], sep)),
                        )
                    } else {
                        stop(m, Err(StackError::NoPreviousBranch))
                    },
                }
            },
            _ => stop(m, Err(StackError::GatewayCommandFailed)),
        },
        Phase::StartOntoHash => match o {
            OutcomeView::Text(_) => go(m, Phase::StartStartHash, CallView::CommitHash(start)),
            _ => stop(m, Err(StackError::RefNotFound)),
        },
        Phase::StartStartHash => match o {
            OutcomeView::Text(hash) => go(
                MachineView { start_hash: hash, ..m },
                Phase::StartFullHash,
                CallView::CommitHash(full),
            ),
            _ => stop(m, Err(StackError::RefNotFound)),
        },
        Phase::StartFullHash => match o {
            OutcomeView::Text(hash) => if hash == m.start_hash {
                go(m, Phase::FastFull, CallView::ForceBranch { branch: full, target: m.onto })
            } else {
                go(m, Phase::GuardFull, CallView::CommitHash(tmp_name(full)))
            },
            _ => stop(m, Err(StackError::RefNotFound)),
        },
        Phase::FastFull => go_if_done(
            m,
            o,
            Phase::FastStart,
            CallView::ForceBranch { branch: start, target: m.onto },
        ),
        Phase::FastStart => if o is Done {
            settle(m)
        } else {
            stop(m, Err(StackError::GatewayCommandFailed))
        },
        Phase::GuardFull => match o {
            OutcomeView::Failed => go(m, Phase::GuardStart, CallView::CommitHash(tmp_name(start))),
            _ => stop(m, Err(StackError::TransactionOpen)),
        },
        Phase::GuardStart => match o {
            OutcomeView::Failed => go(m, Phase::HooksRead, CallView::GetHooksPath),
            _ => stop(m, Err(StackError::TransactionOpen)),
        },
        Phase::HooksRead => match o {
            OutcomeView::Text(path) => go(m, Phase::HooksSaved, CallView::SaveHooksPath(path)),
            _ => stop(m, Err(StackError::GatewayCommandFailed)),
        },
        Phase::HooksSaved => go_if_done(
            m,
            o,
            Phase::HooksOff,
            CallView::SetHooksPath(no_hooks()),
        ),
        Phase::HooksOff => go_if_done(m, o, Phase::OntoCheckedOut, CallView::Checkout(m.onto)),
        Phase::OntoCheckedOut => go_if_done(
            m,
            o,
            Phase::TmpStartCreated,
            CallView::CreateBranch(tmp_name(start)),
        ),
        Phase::TmpStartCreated => go_if_done(
            m,
            o,
            Phase::TmpFullCreated,
            CallView::CreateBranch(tmp_name(full)),
        ),
        Phase::TmpFullCreated => go_if_done(
            m,
            o,
            Phase::Picked,
            CallView::CherryPick { from: start, to: full, strategy: m.strategy },
        ),
        _ => match o {
            OutcomeView::Done => begin_finish(m, sep),
            OutcomeView::Conflict => stop(m, Err(StackError::CherryPickConflict)),
            _ => stop(m, Err(StackError::GatewayCommandFailed)),
        },
    }
}

/// The finish of a rebase. The start marker and the branch are moved onto
/// their temporary branches, the temporary branches are deleted, the hooks
/// path is set back to what the memo holds, and the memo is removed. A call
/// that fails ends the machine and leaves what is there.
pub open spec fn advance_finish(m: MachineView, o: OutcomeView, sep: Seq<char>) -> (
    MachineView,
    StepView,
) {
    let full = full_name(m.target, sep);
    let start = start_name(m.target, sep);
    match m.phase {
        Phase::FinStartCheckedOut => go_if_done(
            m,
            o,
            Phase::FinStartReset,
            CallView::Reset { target: tmp_name(start), hard: true },
        ),
        Phase::FinStartReset => go_if_done(m, o, Phase::FinFullCheckedOut, CallView::Checkout(full)),
        Phase::FinFullCheckedOut => go_if_done(
            m,
            o,
            Phase::FinFullReset,
            CallView::Reset { target: tmp_name(full), hard: true },
        ),
        Phase::FinFullReset => go_if_done(
            m,
            o,
            Phase::FinTmpFullDeleted,
            CallView::DeleteLocal(tmp_name(full)),
        ),
        Phase::FinTmpFullDeleted => go_if_done(
            m,
            o,
            Phase::FinTmpStartDeleted,
            CallView::DeleteLocal(tmp_name(start)),
        ),
        Phase::FinTmpStartDeleted => go_if_done(m, o, Phase::FinMemoRead, CallView::LoadHooksPath),
        Phase::FinMemoRead => match o {
            OutcomeView::Text(memo) => go(
                m,
                Phase::FinHooksRestored,
                if memo.len() == 0 {
                    CallView::UnsetHooksPath
                } else {
                    CallView::SetHooksPath(memo)
                },
            ),
            _ => stop(m, Err(StackError::GatewayCommandFailed)),
        },
        Phase::FinHooksRestored => go_if_done(m, o, Phase::FinMemoDropped, CallView::DropHooksPath),
        _ => if o is Done {
            settle(m)
        } else {
            stop(m, Err(StackError::GatewayCommandFailed))
        },
    }
}

/// A rebase that stopped is taken up again, from the temporary branch that
/// is checked out. To continue is to let the cherry-pick go on and then to
/// finish. To fix up is to finish at once. To abort is to give the
/// cherry-pick up, to check the branch out again and to delete the temporary
/// branches, on the remote too, where a failure to delete is passed over;
/// the hooks path is not set back.
pub open spec fn advance_resume(
    m: MachineView,
    o: OutcomeView,
    prefix: Seq<char>,
    sep: Seq<char>,
) -> (MachineView, StepView) {
    let full = full_name(m.target, sep);
    let start = start_name(m.target, sep);
    match m.phase {
        Phase::ContinueCurrent | Phase::FixupCurrent | Phase::AbortCurrent => match o {
            OutcomeView::Text(name) => match recorded_branch(name, prefix, sep) {
                Ok(target) => {
                    let m1 = MachineView { target, ..m };
                    match m.phase {
                        Phase::ContinueCurrent => go(m1, Phase::Continued, CallView::CherryContinue),
                        Phase::FixupCurrent => begin_finish(m1, sep),
                        _ => go(m1, Phase::Aborted, CallView::CherryAbort),
                    }
                },
                Err(e) => stop(m, Err(e)),
            },
            _ => stop(m, Err(StackError::GatewayCommandFailed)),
        },
        Phase::Continued => match o {
            OutcomeView::Done => begin_finish(m, sep),
            OutcomeView::Conflict => stop(m, Err(StackError::CherryPickConflict)),
            _ => stop(m, Err(StackError::GatewayCommandFailed)),
        },
        Phase::Aborted => go_if_done(m, o, Phase::AbortCheckedOut, CallView::Checkout(full)),
        Phase::AbortCheckedOut => go_if_done(
            m,
            o,
            Phase::AbortRemoteFull,
            CallView::DeleteRemote(tmp_name(full)),
        ),
        Phase::AbortRemoteFull => go(m, Phase::AbortLocalFull, CallView::DeleteLocal(tmp_name(full))),
        Phase::AbortLocalFull => go_if_done(
            m,
            o,
            Phase::AbortTrackingFull,
            CallView::DeleteTracking(tmp_name(full)),
        ),
        Phase::AbortTrackingFull => go(
            m,
            Phase::AbortRemoteStart,
            CallView::DeleteRemote(tmp_name(start)),
        ),
        Phase::AbortRemoteStart => go(
            m,
            Phase::AbortLocalStart,
            CallView::DeleteLocal(tmp_name(start)),
        ),
        Phase::AbortLocalStart => go_if_done(
            m,
            o,
            Phase::AbortTrackingStart,
            CallView::DeleteTracking(tmp_name(start)),
        ),
        _ => stop(m, Ok(Report::Completed)),
    }
}

/// A rebase is carried through the rest of the stack. The branches after
/// the checked-out one are listed once, in ascending order; each in turn is
/// checked out and rebased onto the branch before it. The first rebase that
/// does not succeed ends the machine.
pub open spec fn advance_spread(
    m: MachineView,
    o: OutcomeView,
    prefix: Seq<char>,
    sep: Seq<char>,
) -> (MachineView, StepView) {
    match m.phase {
        Phase::SpreadCurrent => match o {
            OutcomeView::Text(name) => go(
                MachineView { target: decode(name, prefix, sep), ..m },
                Phase::SpreadListing,
                CallView::ListBranches,
            ),
            _ => stop(m, Err(StackError::GatewayCommandFailed)),
        },
        Phase::SpreadListing => match o {
            OutcomeView::Lines(names) => settle(
                MachineView {
                    children: names_of(
                        children_of(
                            siblings(names, prefix, sep, m.target.base),
                            m.target.position,
                        ),
                        sep,
                    ),
                    next_child: 0,
                    spreading: true,
                    onto_arg: None,
                    ..m
                },
            ),
            _ => stop(m, Err(StackError::GatewayCommandFailed)),
        },
        _ => go_if_done(m, o, Phase::StartCurrent, CallView::CurrentBranch),
    }
}

/// The checked-out branch is synchronised with the remote. The branch and
/// its start marker are fetched. Unless force is asked for, nothing is
/// changed if the commit of the local branch is not older than that of the
/// remote-tracking one. Otherwise the branch is reset onto the
/// remote-tracking branch, and the start marker is moved onto the
/// remote-tracking start marker.
pub open spec fn advance_sync(m: MachineView, o: OutcomeView, prefix: Seq<char>, sep: Seq<char>) -> (
    MachineView,
    StepView,
) {
    let full = full_name(m.target, sep);
    let start = start_name(m.target, sep);
    match m.phase {
        Phase::SyncCurrent => match o {
            OutcomeView::Text(name) => go(
                MachineView { target: decode(name, prefix, sep), ..m },
                Phase::SyncFetchedFull,
                CallView::Fetch(full_name(decode(name, prefix, sep), sep)),
            ),
            _ => stop(m, Err(StackError::GatewayCommandFailed)),
        },
        Phase::SyncFetchedFull => go_if_done(m, o, Phase::SyncFetchedStart, CallView::Fetch(start)),
        Phase::SyncFetchedStart => go_if_done(
            m,
            o,
            Phase::SyncLocalStamp,
            CallView::CommitTimestamp(full),
        ),
        Phase::SyncLocalStamp => match o {
            OutcomeView::Number(stamp) => go(
                MachineView { local_stamp: stamp, ..m },
                Phase::SyncRemoteStamp,
                CallView::CommitTimestamp(origin_lead() + full),
            ),
            _ => stop(m, Err(StackError::GatewayCommandFailed)),
        },
        Phase::SyncRemoteStamp => match o {
            OutcomeView::Number(stamp) => if m.local_stamp >= stamp && !m.force {
                stop(m, Ok(Report::LocalIsNewer))
            } else {
                go(
                    m,
                    Phase::SyncReset,
                    CallView::Reset { target: origin_lead() + full, hard: true },
                )
            },
            _ => stop(m, Err(StackError::GatewayCommandFailed)),
        },
        Phase::SyncReset => go_if_done(
            m,
            o,
            Phase::SyncStartMoved,
            CallView::ForceBranch { branch: start, target: origin_lead() + start },
        ),
        _ => if o is Done {
            stop(m, Ok(Report::Completed))
        } else {
            stop(m, Err(StackError::GatewayCommandFailed))
        },
    }
}

/// What the machine does on a reply: its next state, and its answer.
pub open spec fn advance(m: MachineView, o: OutcomeView, prefix: Seq<char>, sep: Seq<char>) -> (
    MachineView,
    StepView,
) {
    match m.phase {
        Phase::StartCurrent
        | Phase::StartListing
        | Phase::StartOntoHash
        | Phase::StartStartHash
        | Phase::StartFullHash
        | Phase::FastFull
        | Phase::FastStart
        | Phase::GuardFull
        | Phase::GuardStart
        | Phase::HooksRead
        | Phase::HooksSaved
        | Phase::HooksOff
        | Phase::OntoCheckedOut
        | Phase::TmpStartCreated
        | Phase::TmpFullCreated
        | Phase::Picked => advance_opening(m, o, prefix, sep),
        Phase::FinStartCheckedOut
        | Phase::FinStartReset
        | Phase::FinFullCheckedOut
        | Phase::FinFullReset
        | Phase::FinTmpFullDeleted
        | Phase::FinTmpStartDeleted
        | Phase::FinMemoRead
        | Phase::FinHooksRestored
        | Phase::FinMemoDropped => advance_finish(m, o, sep),
        Phase::ContinueCurrent
        | Phase::Continued
        | Phase::FixupCurrent
        | Phase::AbortCurrent
        | Phase::Aborted
        | Phase::AbortCheckedOut
        | Phase::AbortRemoteFull
        | Phase::AbortLocalFull
        | Phase::AbortTrackingFull
        | Phase::AbortRemoteStart
        | Phase::AbortLocalStart
        | Phase::AbortTrackingStart => advance_resume(m, o, prefix, sep),
        Phase::SpreadCurrent | Phase::SpreadListing | Phase::ChildCheckedOut => advance_spread(
            m,
            o,
            prefix,
            sep,
        ),
        Phase::SyncCurrent
        | Phase::SyncFetchedFull
        | Phase::SyncFetchedStart
        | Phase::SyncLocalStamp
        | Phase::SyncRemoteStamp
        | Phase::SyncReset
        | Phase::SyncStartMoved => advance_sync(m, o, prefix, sep),
        Phase::Finished => stop(m, Err(StackError::GatewayCommandFailed)),
    }
}

fn names_of_branches(kids: &Vec<ParsedBranch>, cfg: &SavedConfig) -> (names: Vec<String>)
    ensures
        texts(names@) == names_of(ids(kids@), cfg.branch_split@),
{
    let mut names: Vec<String> = Vec::new();
    let mut i: usize = 0;
    while i < kids.len()
        invariant
            i <= kids.len(),
            names.len() == i,
            forall|k: int|
                0 <= k < i ==> (#[trigger] names@[k])@ == full_name(
                    kids@[k]@,
                    cfg.branch_split@,
                ),
        decreases kids.len() - i,
    {
        names.push(kids[i].full(cfg));
        i += 1;
    }
    assert(texts(names@) =~= names_of(ids(kids@), cfg.branch_split@));
    names
}

fn copy_of(text: &Option<String>) -> (copy: Option<String>)
    ensures
        text_of(copy) == text_of(*text),
{
    match text {
        Some(t) => Some(t.clone()),
        None => None,
    }
}

impl Machine {
    fn begin(
        phase: Phase,
        onto_arg: Option<String>,
        strategy: Option<String>,
        all: bool,
        force: bool,
    ) -> (m: Machine)
        ensures
            m@ == fresh(phase, text_of(onto_arg), text_of(strategy), all, force),
    {
        let m = Machine {
            phase,
            target: ParsedBranch { prefix: None, base: String::new(), partx100: None },
            onto_arg,
            strategy,
            all,
            force,
            onto: String::new(),
            start_hash: String::new(),
            local_stamp: 0,
            children: Vec::new(),
            next_child: 0,
            spreading: false,
        };
        assert(m@.children =~= Seq::<Seq<char>>::empty());
        m
    }

    fn proceed(&mut self, phase: Phase, call: GatewayCall) -> (s: Step)
        ensures
            (final(self)@, s@) == go(old(self)@, phase, call@),
    {
        self.phase = phase;
        Step::Call(call)
    }

    fn halt(&mut self, result: Result<Report, StackError>) -> (s: Step)
        ensures
            (final(self)@, s@) == stop(old(self)@, result),
    {
        self.phase = Phase::Finished;
        Step::Done(result)
    }

    fn proceed_if_done(&mut self, outcome: &Outcome, phase: Phase, call: GatewayCall) -> (s: Step)
        ensures
            (final(self)@, s@) == go_if_done(old(self)@, outcome@, phase, call@),
    {
        match outcome {
            Outcome::Done => self.proceed(phase, call),
            _ => self.halt(Err(StackError::GatewayCommandFailed)),
        }
    }

    fn wind_up(&mut self) -> (s: Step)
        ensures
            (final(self)@, s@) == settle(old(self)@),
    {
        if self.spreading {
            if self.next_child < self.children.len() {
                let child = self.children[self.next_child].clone();
                self.next_child = self.next_child + 1;
                self.proceed(Phase::ChildCheckedOut, GatewayCall::Checkout(child))
            } else {
                self.halt(Ok(Report::Completed))
            }
        } else if self.all {
            self.proceed(Phase::SpreadCurrent, GatewayCall::CurrentBranch)
        } else {
            self.halt(Ok(Report::Completed))
        }
    }

    /// Begins the finish of a rebase: the start marker is checked out.
    pub fn finish_rebase(&mut self, cfg: &SavedConfig) -> (s: Step)
        ensures
            (final(self)@, s@) == begin_finish(old(self)@, cfg.branch_split@),
    {
        let start = self.target.start(cfg);
        self.proceed(Phase::FinStartCheckedOut, GatewayCall::Checkout(start))
    }

    fn tmp_full(&self, cfg: &SavedConfig) -> (name: String)
        ensures
            name@ == tmp_name(full_name(self@.target, cfg.branch_split@)),
    {
        tmp_for_branch_name(self.target.full(cfg).as_str())
    }

    fn tmp_start(&self, cfg: &SavedConfig) -> (name: String)
        ensures
            name@ == tmp_name(start_name(self@.target, cfg.branch_split@)),
    {
        tmp_for_branch_name(self.target.start(cfg).as_str())
    }

    fn step_opening(&mut self, outcome: Outcome, cfg: &SavedConfig) -> (s: Step)
        ensures
            (final(self)@, s@) == advance_opening(
                old(self)@,
                outcome@,
                cfg.branch_prefix@,
                cfg.branch_split@,
            ),
    {
        match self.phase {
            Phase::StartCurrent => match outcome {
                Outcome::Text(name) => {
                    self.target = parse_branch(name.as_str(), cfg);
                    match copy_of(&self.onto_arg) {
                        Some(onto) => {
                            self.onto = onto.clone();
                            self.proceed(Phase::StartOntoHash, GatewayCall::CommitHash(onto))
                        },
                        None => self.proceed(Phase::StartListing, GatewayCall::ListBranches),
                    }
                },
                _ => self.halt(Err(StackError::GatewayCommandFailed)),
            },
            Phase::StartListing => match outcome {
                Outcome::Lines(names) => {
                    let stack = get_sorted_matching_branches(&names, self.target.base.as_str(), cfg);
                    match locate(&self.target, &stack) {
                        Err(_) => self.halt(Err(StackError::NotInStack)),
                        Ok(i) => {
                            if i >= 1 {
                                let onto = stack[i - 1].full(cfg);
                                self.onto = onto.clone();
                                self.proceed(Phase::StartOntoHash, GatewayCall::CommitHash(onto))
                            } else {
                                self.halt(Err(StackError::NoPreviousBranch))
                            }
                        },
                    }
                },
                _ => self.halt(Err(StackError::GatewayCommandFailed)),
            },
            Phase::StartOntoHash => match outcome {
                Outcome::Text(_) => {
                    let start = self.target.start(cfg);
                    self.proceed(Phase::StartStartHash, GatewayCall::CommitHash(start))
                },
                _ => self.halt(Err(StackError::RefNotFound)),
            },
            Phase::StartStartHash => match outcome {
                Outcome::Text(hash) => {
                    self.start_hash = hash;
                    let full = self.target.full(cfg);
                    self.proceed(Phase::StartFullHash, GatewayCall::CommitHash(full))
                },
                _ => self.halt(Err(StackError::RefNotFound)),
            },
            Phase::StartFullHash => match outcome {
                Outcome::Text(hash) => self.rebase_onto(hash, cfg),
                _ => self.halt(Err(StackError::RefNotFound)),
            },
            Phase::FastFull => {
                let call = GatewayCall::ForceBranch {
                    branch: self.target.start(cfg),
                    target: self.onto.clone(),
                };
                self.proceed_if_done(&outcome, Phase::FastStart, call)
            },
            Phase::FastStart => match outcome {
                Outcome::Done => self.wind_up(),
                _ => self.halt(Err(StackError::GatewayCommandFailed)),
            },
            Phase::GuardFull => match outcome {
                Outcome::Failed => {
                    let probe = self.tmp_start(cfg);
                    self.proceed(Phase::GuardStart, GatewayCall::CommitHash(probe))
                },
                _ => self.halt(Err(StackError::TransactionOpen)),
            },
            Phase::GuardStart => match outcome {
                Outcome::Failed => self.proceed(Phase::HooksRead, GatewayCall::GetHooksPath),
                _ => self.halt(Err(StackError::TransactionOpen)),
            },
            Phase::HooksRead => match outcome {
                Outcome::Text(path) => self.setup_hooks_path(path),
                _ => self.halt(Err(StackError::GatewayCommandFailed)),
            },
            Phase::HooksSaved => {
                let call = GatewayCall::SetHooksPath("/dev/null".to_owned());
                self.proceed_if_done(&outcome, Phase::HooksOff, call)
            },
            Phase::HooksOff => {
                let call = GatewayCall::Checkout(self.onto.clone());
                self.proceed_if_done(&outcome, Phase::OntoCheckedOut, call)
            },
            Phase::OntoCheckedOut => {
                let call = GatewayCall::CreateBranch(self.tmp_start(cfg));
                self.proceed_if_done(&outcome, Phase::TmpStartCreated, call)
            },
            Phase::TmpStartCreated => {
                let call = GatewayCall::CreateBranch(self.tmp_full(cfg));
                self.proceed_if_done(&outcome, Phase::TmpFullCreated, call)
            },
            Phase::TmpFullCreated => {
                let call = GatewayCall::CherryPick {
                    from: self.target.start(cfg),
                    to: self.target.full(cfg),
                    strategy: copy_of(&self.strategy),
                };
                self.proceed_if_done(&outcome, Phase::Picked, call)
            },
            _ => match outcome {
                Outcome::Done => self.finish_rebase(cfg),
                Outcome::Conflict => self.halt(Err(StackError::CherryPickConflict)),
                _ => self.halt(Err(StackError::GatewayCommandFailed)),
            },
        }
    }

    /// Chooses how to rebase, once the hashes of the start marker and of the
    /// branch are known: if they are the same there is nothing to replay and
    /// the branch is moved at once; if not, the way is cleared for the
    /// temporary branches.
    pub fn rebase_onto(&mut self, full_hash: String, cfg: &SavedConfig) -> (s: Step)
        ensures
            (final(self)@, s@) == if full_hash@ == old(self)@.start_hash {
                go(
                    old(self)@,
                    Phase::FastFull,
                    CallView::ForceBranch {
                        branch: full_name(old(self)@.target, cfg.branch_split@),
                        target: old(self)@.onto,
                    },
                )
            } else {
                go(
                    old(self)@,
                    Phase::GuardFull,
                    CallView::CommitHash(
                        tmp_name(full_name(old(self)@.target, cfg.branch_split@)),
                    ),
                )
            },
    {
        if branches_are_equivalent(self.start_hash.as_str(), full_hash.as_str()) {
            let call = GatewayCall::ForceBranch {
                branch: self.target.full(cfg),
                target: self.onto.clone(),
            };
            self.proceed(Phase::FastFull, call)
        } else {
            let probe = self.tmp_full(cfg);
            self.proceed(Phase::GuardFull, GatewayCall::CommitHash(probe))
        }
    }

    /// Has the hooks path that is in force written to the memo, before the
    /// hooks are turned off.
    pub fn setup_hooks_path(&mut self, path: String) -> (s: Step)
        ensures
            (final(self)@, s@) == go(
                old(self)@,
                Phase::HooksSaved,
                CallView::SaveHooksPath(path@),
            ),
    {
        self.proceed(Phase::HooksSaved, GatewayCall::SaveHooksPath(path))
    }

    /// Has the hooks path set back to what the memo held.
    pub fn finish_up_hooks_path(&mut self, memo: String) -> (s: Step)
        ensures
            (final(self)@, s@) == go(
                old(self)@,
                Phase::FinHooksRestored,
                if memo@.len() == 0 {
                    CallView::UnsetHooksPath
                } else {
                    CallView::SetHooksPath(memo@)
                },
            ),
    {
        let call = set_hooks_path(memo);
        self.proceed(Phase::FinHooksRestored, call)
    }

    fn step_finish(&mut self, outcome: Outcome, cfg: &SavedConfig) -> (s: Step)
        ensures
            (final(self)@, s@) == advance_finish(old(self)@, outcome@, cfg.branch_split@),
    {
        match self.phase {
            Phase::FinStartCheckedOut => {
                let call = GatewayCall::Reset { target: self.tmp_start(cfg), hard: true };
                self.proceed_if_done(&outcome, Phase::FinStartReset, call)
            },
            Phase::FinStartReset => {
                let call = GatewayCall::Checkout(self.target.full(cfg));
                self.proceed_if_done(&outcome, Phase::FinFullCheckedOut, call)
            },
            Phase::FinFullCheckedOut => {
                let call = GatewayCall::Reset { target: self.tmp_full(cfg), hard: true };
                self.proceed_if_done(&outcome, Phase::FinFullReset, call)
            },
            Phase::FinFullReset => {
                let call = GatewayCall::DeleteLocal(self.tmp_full(cfg));
                self.proceed_if_done(&outcome, Phase::FinTmpFullDeleted, call)
            },
            Phase::FinTmpFullDeleted => {
                let call = GatewayCall::DeleteLocal(self.tmp_start(cfg));
                self.proceed_if_done(&outcome, Phase::FinTmpStartDeleted, call)
            },
            Phase::FinTmpStartDeleted => {
                self.proceed_if_done(&outcome, Phase::FinMemoRead, GatewayCall::LoadHooksPath)
            },
            Phase::FinMemoRead => match outcome {
                Outcome::Text(memo) => self.finish_up_hooks_path(memo),
                _ => self.halt(Err(StackError::GatewayCommandFailed)),
            },
            Phase::FinHooksRestored => {
                self.proceed_if_done(&outcome, Phase::FinMemoDropped, GatewayCall::DropHooksPath)
            },
            _ => match outcome {
                Outcome::Done => self.wind_up(),
                _ => self.halt(Err(StackError::GatewayCommandFailed)),
            },
        }
    }

    fn step_resume(&mut self, outcome: Outcome, cfg: &SavedConfig) -> (s: Step)
        ensures
            (final(self)@, s@) == advance_resume(
                old(self)@,
                outcome@,
                cfg.branch_prefix@,
                cfg.branch_split@,
            ),
    {
        match self.phase {
            Phase::ContinueCurrent | Phase::FixupCurrent | Phase::AbortCurrent => match outcome {
                Outcome::Text(name) => match TmpBranchWrapper::new_from_tmp_branch(
                    name.as_str(),
                    cfg,
                ) {
                    Ok(record) => {
                        let phase = self.phase;
                        self.target = record.inner;
                        match phase {
                            Phase::ContinueCurrent => self.proceed(
                                Phase::Continued,
                                GatewayCall::CherryContinue,
                            ),
                            Phase::FixupCurrent => self.finish_rebase(cfg),
                            _ => self.proceed(Phase::Aborted, GatewayCall::CherryAbort),
                        }
                    },
                    Err(e) => self.halt(Err(e)),
                },
                _ => self.halt(Err(StackError::GatewayCommandFailed)),
            },
            Phase::Continued => match outcome {
                Outcome::Done => self.finish_rebase(cfg),
                Outcome::Conflict => self.halt(Err(StackError::CherryPickConflict)),
                _ => self.halt(Err(StackError::GatewayCommandFailed)),
            },
            Phase::Aborted => {
                let call = GatewayCall::Checkout(self.target.full(cfg));
                self.proceed_if_done(&outcome, Phase::AbortCheckedOut, call)
            },
            Phase::AbortCheckedOut => {
                let call = GatewayCall::DeleteRemote(self.tmp_full(cfg));
                self.proceed_if_done(&outcome, Phase::AbortRemoteFull, call)
            },
            Phase::AbortRemoteFull => {
                let call = GatewayCall::DeleteLocal(self.tmp_full(cfg));
                self.proceed(Phase::AbortLocalFull, call)
            },
            Phase::AbortLocalFull => {
                let call = GatewayCall::DeleteTracking(self.tmp_full(cfg));
                self.proceed_if_done(&outcome, Phase::AbortTrackingFull, call)
            },
            Phase::AbortTrackingFull => {
                let call = GatewayCall::DeleteRemote(self.tmp_start(cfg));
                self.proceed(Phase::AbortRemoteStart, call)
            },
            Phase::AbortRemoteStart => {
                let call = GatewayCall::DeleteLocal(self.tmp_start(cfg));
                self.proceed(Phase::AbortLocalStart, call)
            },
            Phase::AbortLocalStart => {
                let call = GatewayCall::DeleteTracking(self.tmp_start(cfg));
                self.proceed_if_done(&outcome, Phase::AbortTrackingStart, call)
            },
            _ => self.halt(Ok(Report::Completed)),
        }
    }

    fn step_spread(&mut self, outcome: Outcome, cfg: &SavedConfig) -> (s: Step)
        ensures
            (final(self)@, s@) == advance_spread(
                old(self)@,
                outcome@,
                cfg.branch_prefix@,
                cfg.branch_split@,
            ),
    {
        match self.phase {
            Phase::SpreadCurrent => match outcome {
                Outcome::Text(name) => {
                    self.target = parse_branch(name.as_str(), cfg);
                    self.proceed(Phase::SpreadListing, GatewayCall::ListBranches)
                },
                _ => self.halt(Err(StackError::GatewayCommandFailed)),
            },
            Phase::SpreadListing => match outcome {
                Outcome::Lines(names) => {
                    let kids = get_children_branches(&self.target, &names, cfg);
                    self.children = names_of_branches(&kids, cfg);
                    self.next_child = 0;
                    self.spreading = true;
                    self.onto_arg = None;
                    self.wind_up()
                },
                _ => self.halt(Err(StackError::GatewayCommandFailed)),
            },
            _ => self.proceed_if_done(&outcome, Phase::StartCurrent, GatewayCall::CurrentBranch),
        }
    }

    fn step_sync(&mut self, outcome: Outcome, cfg: &SavedConfig) -> (s: Step)
        ensures
            (final(self)@, s@) == advance_sync(
                old(self)@,
                outcome@,
                cfg.branch_prefix@,
                cfg.branch_split@,
            ),
    {
        match self.phase {
            Phase::SyncCurrent => match outcome {
                Outcome::Text(name) => {
                    self.target = parse_branch(name.as_str(), cfg);
                    let full = self.target.full(cfg);
                    self.proceed(Phase::SyncFetchedFull, GatewayCall::Fetch(full))
                },
                _ => self.halt(Err(StackError::GatewayCommandFailed)),
            },
            Phase::SyncFetchedFull => {
                let call = GatewayCall::Fetch(self.target.start(cfg));
                self.proceed_if_done(&outcome, Phase::SyncFetchedStart, call)
            },
            Phase::SyncFetchedStart => {
                let call = GatewayCall::CommitTimestamp(self.target.full(cfg));
                self.proceed_if_done(&outcome, Phase::SyncLocalStamp, call)
            },
            Phase::SyncLocalStamp => match outcome {
                Outcome::Number(stamp) => {
                    self.local_stamp = stamp;
                    let remote = self.target.remote_full(cfg);
                    self.proceed(Phase::SyncRemoteStamp, GatewayCall::CommitTimestamp(remote))
                },
                _ => self.halt(Err(StackError::GatewayCommandFailed)),
            },
            Phase::SyncRemoteStamp => match outcome {
                Outcome::Number(stamp) => {
                    if self.local_stamp >= stamp && !self.force {
                        self.halt(Ok(Report::LocalIsNewer))
                    } else {
                        let call = GatewayCall::Reset {
                            target: self.target.remote_full(cfg),
                            hard: true,
                        };
                        self.proceed(Phase::SyncReset, call)
                    }
                },
                _ => self.halt(Err(StackError::GatewayCommandFailed)),
            },
            Phase::SyncReset => {
                let call = GatewayCall::ForceBranch {
                    branch: self.target.start(cfg),
                    target: self.target.remote_start(cfg),
                };
                self.proceed_if_done(&outcome, Phase::SyncStartMoved, call)
            },
            _ => match outcome {
                Outcome::Done => self.halt(Ok(Report::Completed)),
                _ => self.halt(Err(StackError::GatewayCommandFailed)),
            },
        }
    }

    /// Takes what came of the last call and answers with the next call, or
    /// with the result: see `advance`.
    pub fn step(&mut self, outcome: Outcome, cfg: &SavedConfig) -> (s: Step)
        ensures
            (final(self)@, s@) == advance(
                old(self)@,
                outcome@,
                cfg.branch_prefix@,
                cfg.branch_split@,
            ),
    {
        match self.phase {
            Phase::StartCurrent
            | Phase::StartListing
            | Phase::StartOntoHash
            | Phase::StartStartHash
            | Phase::StartFullHash
            | Phase::FastFull
            | Phase::FastStart
            | Phase::GuardFull
            | Phase::GuardStart
            | Phase::HooksRead
            | Phase::HooksSaved
            | Phase::HooksOff
            | Phase::OntoCheckedOut
            | Phase::TmpStartCreated
            | Phase::TmpFullCreated
            | Phase::Picked => self.step_opening(outcome, cfg),
            Phase::FinStartCheckedOut
            | Phase::FinStartReset
            | Phase::FinFullCheckedOut
            | Phase::FinFullReset
            | Phase::FinTmpFullDeleted
            | Phase::FinTmpStartDeleted
            | Phase::FinMemoRead
            | Phase::FinHooksRestored
            | Phase::FinMemoDropped => self.step_finish(outcome, cfg),
            Phase::ContinueCurrent
            | Phase::Continued
            | Phase::FixupCurrent
            | Phase::AbortCurrent
            | Phase::Aborted
            | Phase::AbortCheckedOut
            | Phase::AbortRemoteFull
            | Phase::AbortLocalFull
            | Phase::AbortTrackingFull
            | Phase::AbortRemoteStart
            | Phase::AbortLocalStart
            | Phase::AbortTrackingStart => self.step_resume(outcome, cfg),
            Phase::SpreadCurrent | Phase::SpreadListing | Phase::ChildCheckedOut => {
                self.step_spread(outcome, cfg)
            },
            Phase::SyncCurrent
            | Phase::SyncFetchedFull
            | Phase::SyncFetchedStart
            | Phase::SyncLocalStamp
            | Phase::SyncRemoteStamp
            | Phase::SyncReset
            | Phase::SyncStartMoved => self.step_sync(outcome, cfg),
            Phase::Finished => self.halt(Err(StackError::GatewayCommandFailed)),
        }
    }
}

/// The call that sets the hooks path to `path`, or removes the setting if
/// `path` is empty.
pub fn set_hooks_path(path: String) -> (call: GatewayCall)
    ensures
        call@ == if path@.len() == 0 {
            CallView::UnsetHooksPath
        } else {
            CallView::SetHooksPath(path@)
        },
{
    if path.as_str().is_empty() {
        GatewayCall::UnsetHooksPath
    } else {
        GatewayCall::SetHooksPath(path)
    }
}

/// Begins the rebase of the checked-out branch onto `onto`, or onto the
/// branch before it in its stack if `onto` is not given. With `all`, the
/// branches after it in the stack are rebased in turn afterwards.
pub fn start_rebase(onto: Option<String>, strategy: Option<String>, all: bool) -> (begun: (
    Machine,
    GatewayCall,
))
    ensures
        begun.0@ == fresh(Phase::StartCurrent, text_of(onto), text_of(strategy), all, false),
        begun.1@ == CallView::CurrentBranch,
{
    (Machine::begin(Phase::StartCurrent, onto, strategy, all, false), GatewayCall::CurrentBranch)
}

/// Takes up a rebase that stopped on a conflict, once the conflict is
/// resolved: the cherry-pick goes on, and the finish follows.
pub fn continue_rebase(strategy: Option<String>, all: bool) -> (begun: (Machine, GatewayCall))
    ensures
        begun.0@ == fresh(Phase::ContinueCurrent, None, text_of(strategy), all, false),
        begun.1@ == CallView::CurrentBranch,
{
    (Machine::begin(Phase::ContinueCurrent, None, strategy, all, false), GatewayCall::CurrentBranch)
}

/// Gives up a rebase that stopped on a conflict.
pub fn abort_rebase() -> (begun: (Machine, GatewayCall))
    ensures
        begun.0@ == fresh(Phase::AbortCurrent, None, None, false, false),
        begun.1@ == CallView::CurrentBranch,
{
    (Machine::begin(Phase::AbortCurrent, None, None, false, false), GatewayCall::CurrentBranch)
}

/// Finishes a rebase whose conflicts were resolved and committed by hand.
pub fn fixup_rebase() -> (begun: (Machine, GatewayCall))
    ensures
        begun.0@ == fresh(Phase::FixupCurrent, None, None, false, false),
        begun.1@ == CallView::CurrentBranch,
{
    (Machine::begin(Phase::FixupCurrent, None, None, false, false), GatewayCall::CurrentBranch)
}

/// Rebases each branch after the checked-out one in its stack onto the
/// branch before it.
pub fn rebase_all_children(strategy: Option<String>) -> (begun: (Machine, GatewayCall))
    ensures
        begun.0@ == fresh(Phase::SpreadCurrent, None, text_of(strategy), false, false),
        begun.1@ == CallView::CurrentBranch,
{
    (Machine::begin(Phase::SpreadCurrent, None, strategy, false, false), GatewayCall::CurrentBranch)
}

/// Synchronises the checked-out branch and its start marker with the
/// remote.
pub fn sync(force: bool) -> (begun: (Machine, GatewayCall))
    ensures
        begun.0@ == fresh(Phase::SyncCurrent, None, None, false, force),
        begun.1@ == CallView::CurrentBranch,
{
    (Machine::begin(Phase::SyncCurrent, None, None, false, force), GatewayCall::CurrentBranch)
}

} // verus!
