use gg::config::SavedConfig;
use gg::error::StackError;
use gg::gateway::{read_outcome, GatewayCall, GatewayReply};
use gg::machine::{
    abort_rebase, continue_rebase, fixup_rebase, rebase_all_children, start_rebase, sync, Machine,
    Report, Step,
};
use std::collections::BTreeMap;

fn cfg() -> SavedConfig {
    SavedConfig {
        repo_main_branch: "main".to_string(),
        linked_issue: None,
        branch_prefix: "wh".to_string(),
        repo_org: "org".to_string(),
        branch_split: "/".to_string(),
    }
}

/// A repository in memory. A commit is the list of the changes that lead to
/// it; its hash is that list written out.
struct Repo {
    branches: BTreeMap<String, Vec<String>>,
    remote: BTreeMap<String, Vec<String>>,
    stamps: BTreeMap<String, i64>,
    head: String,
    hooks: String,
    memo: Option<String>,
    paused: Option<Vec<String>>,
    clash: bool,
    fail_at: Option<usize>,
    calls: Vec<GatewayCall>,
}

fn commit(changes: &[&str]) -> Vec<String> {
    changes.iter().map(|c| c.to_string()).collect()
}

fn hash(c: &[String]) -> String {
    format!("h{}", c.join("."))
}

fn ok(output: &str) -> GatewayReply {
    GatewayReply { code: Some(0), output: output.to_string() }
}

fn failed(code: i32) -> GatewayReply {
    GatewayReply { code: Some(code), output: String::new() }
}

impl Repo {
    fn new(head: &str) -> Repo {
        Repo {
            branches: BTreeMap::new(),
            remote: BTreeMap::new(),
            stamps: BTreeMap::new(),
            head: head.to_string(),
            hooks: String::new(),
            memo: None,
            paused: None,
            clash: false,
            fail_at: None,
            calls: Vec::new(),
        }
    }

    fn with(mut self, name: &str, changes: &[&str]) -> Repo {
        self.branches.insert(name.to_string(), commit(changes));
        self
    }

    fn at(&self, name: &str) -> Vec<String> {
        self.branches[name].clone()
    }

    fn has(&self, name: &str) -> bool {
        self.branches.contains_key(name)
    }

    fn perform(&mut self, call: &GatewayCall) -> GatewayReply {
        self.calls.push(call.clone_call());
        if self.fail_at == Some(self.calls.len()) {
            return failed(128);
        }
        match call {
            GatewayCall::CurrentBranch => ok(&format!("{}\n", self.head)),
            GatewayCall::ListBranches => {
                let mut out = String::new();
                for name in self.branches.keys() {
                    if !name.starts_with("origin/") {
                        let mark = if *name == self.head { "* " } else { "  " };
                        out.push_str(&format!("{}{}\n", mark, name));
                    }
                }
                ok(&out)
            }
            GatewayCall::CommitHash(r) => match self.branches.get(r) {
                Some(c) => ok(&format!("{}\n", hash(c))),
                None => failed(128),
            },
            GatewayCall::CommitTimestamp(r) => match self.branches.get(r) {
                Some(c) => ok(&format!("{}", self.stamps.get(&hash(c)).copied().unwrap_or(0))),
                None => failed(128),
            },
            GatewayCall::Checkout(r) => {
                if self.has(r) {
                    self.head = r.clone();
                    ok("")
                } else {
                    failed(1)
                }
            }
            GatewayCall::CreateBranch(name) => {
                if self.has(name) || !self.has(&self.head) {
                    failed(128)
                } else {
                    let c = self.at(&self.head);
                    self.branches.insert(name.clone(), c);
                    self.head = name.clone();
                    ok("")
                }
            }
            GatewayCall::Reset { target, .. } => {
                if self.has(target) && self.has(&self.head) {
                    let c = self.at(target);
                    self.branches.insert(self.head.clone(), c);
                    ok("")
                } else {
                    failed(128)
                }
            }
            GatewayCall::ForceBranch { branch, target } => {
                if self.has(target) {
                    let c = self.at(target);
                    self.branches.insert(branch.clone(), c);
                    ok("")
                } else {
                    failed(128)
                }
            }
            GatewayCall::DeleteLocal(name) => {
                if self.has(name) && *name != self.head {
                    self.branches.remove(name);
                    ok("")
                } else {
                    failed(1)
                }
            }
            GatewayCall::DeleteRemote(name) => {
                if self.remote.remove(name).is_some() {
                    ok("")
                } else {
                    failed(1)
                }
            }
            GatewayCall::DeleteTracking(name) => {
                if self.branches.remove(&format!("origin/{}", name)).is_some() {
                    ok("")
                } else {
                    failed(1)
                }
            }
            GatewayCall::CherryPick { from, to, .. } => {
                if !self.has(from) || !self.has(to) || self.paused.is_some() {
                    return failed(128);
                }
                let (s, f) = (self.at(from), self.at(to));
                if !f.starts_with(&s) {
                    return failed(128);
                }
                let changes: Vec<String> = f[s.len()..].to_vec();
                if self.clash {
                    self.paused = Some(changes);
                    failed(1)
                } else {
                    let mut c = self.at(&self.head);
                    c.extend(changes);
                    self.branches.insert(self.head.clone(), c);
                    ok("")
                }
            }
            GatewayCall::CherryAbort => {
                if self.paused.take().is_some() {
                    ok("")
                } else {
                    failed(128)
                }
            }
            GatewayCall::CherryContinue => match self.paused.take() {
                Some(changes) => {
                    let mut c = self.at(&self.head);
                    c.extend(changes);
                    self.branches.insert(self.head.clone(), c);
                    ok("")
                }
                None => failed(128),
            },
            GatewayCall::Fetch(name) => match self.remote.get(name) {
                Some(c) => {
                    self.branches.insert(format!("origin/{}", name), c.clone());
                    ok("")
                }
                None => failed(128),
            },
            GatewayCall::GetHooksPath => {
                if self.hooks.is_empty() {
                    failed(1)
                } else {
                    ok(&format!("{}\n", self.hooks))
                }
            }
            GatewayCall::SetHooksPath(p) => {
                self.hooks = p.clone();
                ok("")
            }
            GatewayCall::UnsetHooksPath => {
                self.hooks = String::new();
                ok("")
            }
            GatewayCall::SaveHooksPath(p) => {
                self.memo = Some(p.clone());
                ok("")
            }
            GatewayCall::LoadHooksPath => match &self.memo {
                Some(p) => ok(p),
                None => failed(1),
            },
            GatewayCall::DropHooksPath => {
                if self.memo.take().is_some() {
                    ok("")
                } else {
                    failed(1)
                }
            }
            _ => failed(128),
        }
    }

    fn picks(&self) -> usize {
        self.calls.iter().filter(|c| matches!(c, GatewayCall::CherryPick { .. })).count()
    }

    fn tmp_branches(&self) -> Vec<String> {
        self.branches.keys().filter(|n| n.starts_with("_tmp_-")).cloned().collect()
    }
}

trait CloneCall {
    fn clone_call(&self) -> GatewayCall;
}

impl CloneCall for GatewayCall {
    fn clone_call(&self) -> GatewayCall {
        match self {
            GatewayCall::CurrentBranch => GatewayCall::CurrentBranch,
            GatewayCall::ListBranches => GatewayCall::ListBranches,
            GatewayCall::CommitHash(r) => GatewayCall::CommitHash(r.clone()),
            GatewayCall::CommitTimestamp(r) => GatewayCall::CommitTimestamp(r.clone()),
            GatewayCall::Checkout(r) => GatewayCall::Checkout(r.clone()),
            GatewayCall::CreateBranch(r) => GatewayCall::CreateBranch(r.clone()),
            GatewayCall::Reset { target, hard } => {
                GatewayCall::Reset { target: target.clone(), hard: *hard }
            }
            GatewayCall::ForceBranch { branch, target } => {
                GatewayCall::ForceBranch { branch: branch.clone(), target: target.clone() }
            }
            GatewayCall::DeleteLocal(r) => GatewayCall::DeleteLocal(r.clone()),
            GatewayCall::DeleteRemote(r) => GatewayCall::DeleteRemote(r.clone()),
            GatewayCall::DeleteTracking(r) => GatewayCall::DeleteTracking(r.clone()),
            GatewayCall::CherryPick { from, to, strategy } => GatewayCall::CherryPick {
                from: from.clone(),
                to: to.clone(),
                strategy: strategy.clone(),
            },
            GatewayCall::CherryAbort => GatewayCall::CherryAbort,
            GatewayCall::CherryContinue => GatewayCall::CherryContinue,
            GatewayCall::Fetch(r) => GatewayCall::Fetch(r.clone()),
            GatewayCall::Push { branch, force } => {
                GatewayCall::Push { branch: branch.clone(), force: *force }
            }
            GatewayCall::Rebase { onto, interactive } => {
                GatewayCall::Rebase { onto: onto.clone(), interactive: *interactive }
            }
            GatewayCall::Diff { from, until } => {
                GatewayCall::Diff { from: from.clone(), until: until.clone() }
            }
            GatewayCall::Rename { old_name, new_name } => {
                GatewayCall::Rename { old_name: old_name.clone(), new_name: new_name.clone() }
            }
            GatewayCall::Log(r) => GatewayCall::Log(r.clone()),
            GatewayCall::RepoRoot => GatewayCall::RepoRoot,
            GatewayCall::GetHooksPath => GatewayCall::GetHooksPath,
            GatewayCall::SetHooksPath(r) => GatewayCall::SetHooksPath(r.clone()),
            GatewayCall::UnsetHooksPath => GatewayCall::UnsetHooksPath,
            GatewayCall::SaveHooksPath(r) => GatewayCall::SaveHooksPath(r.clone()),
            GatewayCall::LoadHooksPath => GatewayCall::LoadHooksPath,
            GatewayCall::DropHooksPath => GatewayCall::DropHooksPath,
        }
    }
}

fn drive(begun: (Machine, GatewayCall), repo: &mut Repo) -> Result<Report, StackError> {
    let (mut machine, mut call) = begun;
    for _ in 0..500 {
        let reply = repo.perform(&call);
        let outcome = read_outcome(&call, &reply);
        match machine.step(outcome, &cfg()) {
            Step::Call(next) => call = next,
            Step::Done(result) => return result,
        }
    }
    panic!("the machine did not come to an end");
}

const FULL: &str = "wh/feature/part-2.0";
const START: &str = "wh/starts/feature/part-2.0";
const BASE: &str = "wh/feature/part-1.0";
const TMP_FULL: &str = "_tmp_-wh/feature/part-2.0";
const TMP_START: &str = "_tmp_-wh/starts/feature/part-2.0";

fn stack() -> Repo {
    Repo::new(FULL)
        .with("main", &["m"])
        .with("wh/starts/feature/part-1.0", &["m"])
        .with(BASE, &["m", "a", "b"])
        .with(START, &["m", "a"])
        .with(FULL, &["m", "a", "c1", "c2"])
}

#[test]
fn rebase_without_commits_moves_both_branches_and_picks_nothing() {
    let mut repo = stack().with(FULL, &["m", "a"]);
    repo.hooks = "hooks".to_string();
    let result = drive(start_rebase(Some(BASE.to_string()), None, false), &mut repo);
    assert_eq!(result, Ok(Report::Completed));
    assert_eq!(repo.picks(), 0);
    assert_eq!(repo.at(FULL), commit(&["m", "a", "b"]));
    assert_eq!(repo.at(START), commit(&["m", "a", "b"]));
    assert!(repo.tmp_branches().is_empty());
    assert_eq!(repo.hooks, "hooks");
    assert_eq!(repo.memo, None);
    assert!(!repo.calls.iter().any(|c| matches!(
        c,
        GatewayCall::SetHooksPath(_)
            | GatewayCall::UnsetHooksPath
            | GatewayCall::SaveHooksPath(_)
            | GatewayCall::CreateBranch(_)
    )));
}

#[test]
fn rebase_replays_the_commits_on_the_new_base() {
    let mut repo = stack();
    repo.hooks = ".githooks".to_string();
    let result = drive(start_rebase(Some(BASE.to_string()), None, false), &mut repo);
    assert_eq!(result, Ok(Report::Completed));
    assert_eq!(repo.at(FULL), commit(&["m", "a", "b", "c1", "c2"]));
    assert_eq!(repo.at(START), commit(&["m", "a", "b"]));
    assert_eq!(repo.at(BASE), commit(&["m", "a", "b"]));
    assert!(repo.tmp_branches().is_empty());
    assert_eq!(repo.hooks, ".githooks");
    assert_eq!(repo.memo, None);
    assert_eq!(repo.head, FULL);
    assert_eq!(repo.picks(), 1);
    assert_eq!(repo.calls.len(), 22);
}

#[test]
fn rebase_leaves_an_unset_hooks_path_unset() {
    let mut repo = stack();
    let result = drive(start_rebase(Some(BASE.to_string()), None, false), &mut repo);
    assert_eq!(result, Ok(Report::Completed));
    assert_eq!(repo.hooks, "");
    assert!(repo.calls.contains(&GatewayCall::SetHooksPath("/dev/null".to_string())));
    assert!(repo.calls.contains(&GatewayCall::UnsetHooksPath));
}

#[test]
fn rebase_hands_the_strategy_to_the_cherry_pick() {
    let mut repo = stack();
    let result =
        drive(start_rebase(Some(BASE.to_string()), Some("theirs".to_string()), false), &mut repo);
    assert_eq!(result, Ok(Report::Completed));
    assert!(repo.calls.contains(&GatewayCall::CherryPick {
        from: START.to_string(),
        to: FULL.to_string(),
        strategy: Some("theirs".to_string()),
    }));
}

#[test]
fn rebase_goes_onto_the_branch_before_if_none_is_named() {
    let mut repo = stack();
    let result = drive(start_rebase(None, None, false), &mut repo);
    assert_eq!(result, Ok(Report::Completed));
    assert!(repo.calls.contains(&GatewayCall::Checkout(BASE.to_string())));
    assert_eq!(repo.at(FULL), commit(&["m", "a", "b", "c1", "c2"]));
    assert_eq!(repo.at(START), commit(&["m", "a", "b"]));
}

#[test]
fn rebase_of_the_first_branch_has_no_branch_before() {
    let mut repo = stack();
    repo.head = BASE.to_string();
    let before = repo.branches.clone();
    let result = drive(start_rebase(None, None, false), &mut repo);
    assert_eq!(result, Err(StackError::NoPreviousBranch));
    assert_eq!(repo.branches, before);
}

#[test]
fn rebase_of_a_branch_outside_its_stack_is_refused() {
    let mut repo = stack().with("topic", &["m", "t"]);
    repo.head = "topic".to_string();
    let result = drive(start_rebase(None, None, false), &mut repo);
    assert_eq!(result, Err(StackError::NotInStack));
}

#[test]
fn rebase_onto_a_missing_ref_is_refused() {
    let mut repo = stack();
    let before = repo.branches.clone();
    let result = drive(start_rebase(Some("nowhere".to_string()), None, false), &mut repo);
    assert_eq!(result, Err(StackError::RefNotFound));
    assert_eq!(repo.branches, before);
    assert_eq!(repo.hooks, "");
}

#[test]
fn rebase_without_start_marker_is_refused() {
    let mut repo = stack();
    repo.branches.remove(START);
    let result = drive(start_rebase(Some(BASE.to_string()), None, false), &mut repo);
    assert_eq!(result, Err(StackError::RefNotFound));
}

#[test]
fn rebase_does_not_open_a_second_transaction() {
    let mut repo = stack().with(TMP_FULL, &["m"]);
    repo.hooks = "hooks".to_string();
    let result = drive(start_rebase(Some(BASE.to_string()), None, false), &mut repo);
    assert_eq!(result, Err(StackError::TransactionOpen));
    assert_eq!(repo.hooks, "hooks");
    assert_eq!(repo.memo, None);
    assert_eq!(repo.at(TMP_FULL), commit(&["m"]));

    let mut repo = stack().with(TMP_START, &["m"]);
    let result = drive(start_rebase(Some(BASE.to_string()), None, false), &mut repo);
    assert_eq!(result, Err(StackError::TransactionOpen));
    assert_eq!(repo.memo, None);
}

#[test]
fn rebase_that_meets_a_conflict_stops_with_two_temporary_branches() {
    let mut repo = stack();
    repo.hooks = "hooks".to_string();
    repo.clash = true;
    let result = drive(start_rebase(Some(BASE.to_string()), None, false), &mut repo);
    assert_eq!(result, Err(StackError::CherryPickConflict));
    assert_eq!(repo.tmp_branches(), vec![TMP_FULL.to_string(), TMP_START.to_string()]);
    assert_eq!(repo.head, TMP_FULL);
    assert_eq!(repo.at(TMP_FULL), commit(&["m", "a", "b"]));
    assert_eq!(repo.at(TMP_START), commit(&["m", "a", "b"]));
    assert_eq!(repo.at(FULL), commit(&["m", "a", "c1", "c2"]));
    assert_eq!(repo.at(START), commit(&["m", "a"]));
    assert_eq!(repo.hooks, "/dev/null");
    assert_eq!(repo.memo, Some("hooks".to_string()));
}

#[test]
fn abort_removes_the_temporary_branches_and_checks_the_branch_out() {
    let mut repo = stack();
    repo.clash = true;
    let result = drive(start_rebase(Some(BASE.to_string()), None, false), &mut repo);
    assert_eq!(result, Err(StackError::CherryPickConflict));
    let result = drive(abort_rebase(), &mut repo);
    assert_eq!(result, Ok(Report::Completed));
    assert!(repo.tmp_branches().is_empty());
    assert_eq!(repo.head, FULL);
    assert_eq!(repo.at(FULL), commit(&["m", "a", "c1", "c2"]));
    assert_eq!(repo.at(START), commit(&["m", "a"]));
    assert_eq!(repo.paused, None);
}

#[test]
fn abort_leaves_the_hooks_turned_off() {
    let mut repo = stack();
    repo.hooks = "hooks".to_string();
    repo.clash = true;
    let result = drive(start_rebase(Some(BASE.to_string()), None, false), &mut repo);
    assert_eq!(result, Err(StackError::CherryPickConflict));
    let result = drive(abort_rebase(), &mut repo);
    assert_eq!(result, Ok(Report::Completed));
    assert_eq!(repo.hooks, "/dev/null");
    assert_eq!(repo.memo, Some("hooks".to_string()));
    assert!(!repo.calls.iter().any(|c| matches!(
        c,
        GatewayCall::LoadHooksPath | GatewayCall::DropHooksPath | GatewayCall::UnsetHooksPath
    )));
}

#[test]
fn every_error_has_its_message() {
    let all = [
        StackError::RefNotFound,
        StackError::NoPreviousBranch,
        StackError::NotInStack,
        StackError::NotInTransaction,
        StackError::CherryPickConflict,
        StackError::GatewayCommandFailed,
        StackError::MalformedTransactionMarker,
        StackError::TransactionOpen,
    ];
    for (i, a) in all.iter().enumerate() {
        assert!(!a.message().is_empty());
        for b in &all[i + 1..] {
            assert_ne!(a.message(), b.message());
        }
    }
    assert_eq!(StackError::NoPreviousBranch.message(), "No previous branch to rebase onto");
    assert_eq!(StackError::NotInTransaction.message(), "Expected to be in tmp branch/rebase");
}

#[test]
fn continue_finishes_a_rebase_that_stopped() {
    let mut repo = stack();
    repo.hooks = "hooks".to_string();
    repo.clash = true;
    let result = drive(start_rebase(Some(BASE.to_string()), None, false), &mut repo);
    assert_eq!(result, Err(StackError::CherryPickConflict));
    let result = drive(continue_rebase(None, false), &mut repo);
    assert_eq!(result, Ok(Report::Completed));
    assert_eq!(repo.at(FULL), commit(&["m", "a", "b", "c1", "c2"]));
    assert_eq!(repo.at(START), commit(&["m", "a", "b"]));
    assert!(repo.tmp_branches().is_empty());
    assert_eq!(repo.hooks, "hooks");
    assert_eq!(repo.memo, None);
    assert_eq!(repo.head, FULL);
}

#[test]
fn fixup_finishes_without_the_cherry_pick() {
    let mut repo = stack();
    repo.clash = true;
    let result = drive(start_rebase(Some(BASE.to_string()), None, false), &mut repo);
    assert_eq!(result, Err(StackError::CherryPickConflict));
    repo.branches.insert(TMP_FULL.to_string(), commit(&["m", "a", "b", "fixed"]));
    let calls = repo.calls.len();
    let result = drive(fixup_rebase(), &mut repo);
    assert_eq!(result, Ok(Report::Completed));
    assert_eq!(repo.at(FULL), commit(&["m", "a", "b", "fixed"]));
    assert_eq!(repo.at(START), commit(&["m", "a", "b"]));
    assert!(repo.tmp_branches().is_empty());
    assert!(!repo.calls[calls..].iter().any(|c| matches!(
        c,
        GatewayCall::CherryContinue | GatewayCall::CherryAbort | GatewayCall::CherryPick { .. }
    )));
}

#[test]
fn resuming_outside_a_transaction_is_refused() {
    for begun in [continue_rebase(None, false), abort_rebase(), fixup_rebase()] {
        let mut repo = stack();
        let before = repo.branches.clone();
        assert_eq!(drive(begun, &mut repo), Err(StackError::NotInTransaction));
        assert_eq!(repo.branches, before);
        assert_eq!(repo.calls.len(), 1);
    }
}

#[test]
fn resuming_from_a_marker_that_is_no_name_is_refused() {
    for begun in [continue_rebase(None, false), abort_rebase(), fixup_rebase()] {
        let mut repo = stack().with("_tmp_-wh/feature/part-2.00", &["m"]);
        repo.head = "_tmp_-wh/feature/part-2.00".to_string();
        assert_eq!(drive(begun, &mut repo), Err(StackError::MalformedTransactionMarker));
        assert_eq!(repo.calls.len(), 1);
    }
}

#[test]
fn a_failing_call_ends_the_run_and_leaves_what_is_there() {
    let mut repo = stack();
    repo.hooks = "hooks".to_string();
    repo.fail_at = Some(14);
    let result = drive(start_rebase(Some(BASE.to_string()), None, false), &mut repo);
    assert_eq!(result, Err(StackError::GatewayCommandFailed));
    assert_eq!(repo.tmp_branches(), vec![TMP_FULL.to_string(), TMP_START.to_string()]);
    assert_eq!(repo.hooks, "/dev/null");
    assert_eq!(repo.memo, Some("hooks".to_string()));
    assert_eq!(repo.calls.len(), 14);
}

#[test]
fn a_failing_first_call_fails_the_run() {
    for begun in [
        start_rebase(None, None, false),
        continue_rebase(None, false),
        abort_rebase(),
        fixup_rebase(),
        rebase_all_children(None),
        sync(false),
    ] {
        let mut repo = stack();
        repo.fail_at = Some(1);
        assert_eq!(drive(begun, &mut repo), Err(StackError::GatewayCommandFailed));
    }
}

#[test]
fn a_finished_machine_answers_with_a_failure() {
    let mut repo = stack();
    let (mut machine, call) = abort_rebase();
    let reply = repo.perform(&call);
    let step = machine.step(read_outcome(&call, &reply), &cfg());
    assert_eq!(step, Step::Done(Err(StackError::NotInTransaction)));
    let step = machine.step(read_outcome(&call, &reply), &cfg());
    assert_eq!(step, Step::Done(Err(StackError::GatewayCommandFailed)));
}

fn long_stack() -> Repo {
    Repo::new("wh/feature/part-1.0")
        .with("main", &["m", "n"])
        .with("wh/starts/feature/part-1.0", &["m"])
        .with("wh/feature/part-1.0", &["m", "a"])
        .with("wh/starts/feature/part-2.0", &["m", "a"])
        .with("wh/feature/part-2.0", &["m", "a", "b"])
        .with("wh/starts/feature/part-3.0", &["m", "a", "b"])
        .with("wh/feature/part-3.0", &["m", "a", "b", "c"])
        .with("wh/other/part-2.0", &["m", "x"])
}

#[test]
fn rebase_of_all_carries_the_stack_along() {
    let mut repo = long_stack();
    let result = drive(start_rebase(Some("main".to_string()), None, true), &mut repo);
    assert_eq!(result, Ok(Report::Completed));
    assert_eq!(repo.at("wh/starts/feature/part-1.0"), commit(&["m", "n"]));
    assert_eq!(repo.at("wh/feature/part-1.0"), commit(&["m", "n", "a"]));
    assert_eq!(repo.at("wh/starts/feature/part-2.0"), commit(&["m", "n", "a"]));
    assert_eq!(repo.at("wh/feature/part-2.0"), commit(&["m", "n", "a", "b"]));
    assert_eq!(repo.at("wh/starts/feature/part-3.0"), commit(&["m", "n", "a", "b"]));
    assert_eq!(repo.at("wh/feature/part-3.0"), commit(&["m", "n", "a", "b", "c"]));
    assert_eq!(repo.at("wh/other/part-2.0"), commit(&["m", "x"]));
    assert!(repo.tmp_branches().is_empty());
    assert_eq!(repo.head, "wh/feature/part-3.0");
    assert_eq!(repo.picks(), 3);
}

#[test]
fn children_are_rebased_in_ascending_order() {
    let mut repo = long_stack();
    repo.branches.insert("wh/feature/part-1.0".to_string(), commit(&["m", "a", "a2"]));
    let result = drive(rebase_all_children(None), &mut repo);
    assert_eq!(result, Ok(Report::Completed));
    assert_eq!(repo.at("wh/feature/part-2.0"), commit(&["m", "a", "a2", "b"]));
    assert_eq!(repo.at("wh/feature/part-3.0"), commit(&["m", "a", "a2", "b", "c"]));
    let checkouts: Vec<&GatewayCall> = repo
        .calls
        .iter()
        .filter(|c| {
            **c == GatewayCall::Checkout("wh/feature/part-2.0".to_string())
                || **c == GatewayCall::Checkout("wh/feature/part-3.0".to_string())
        })
        .collect();
    assert_eq!(checkouts[0], &GatewayCall::Checkout("wh/feature/part-2.0".to_string()));
    assert_eq!(
        checkouts.last().unwrap(),
        &&GatewayCall::Checkout("wh/feature/part-3.0".to_string())
    );
}

#[test]
fn children_stop_at_the_first_conflict() {
    let mut repo = long_stack();
    repo.branches.insert("wh/feature/part-1.0".to_string(), commit(&["m", "a", "a2"]));
    repo.clash = true;
    let result = drive(rebase_all_children(None), &mut repo);
    assert_eq!(result, Err(StackError::CherryPickConflict));
    assert_eq!(repo.head, "_tmp_-wh/feature/part-2.0");
    assert_eq!(repo.at("wh/feature/part-3.0"), commit(&["m", "a", "b", "c"]));
    assert_eq!(repo.picks(), 1);
}

#[test]
fn a_stack_without_children_is_done_at_once() {
    let mut repo = long_stack();
    repo.head = "wh/feature/part-3.0".to_string();
    let result = drive(rebase_all_children(None), &mut repo);
    assert_eq!(result, Ok(Report::Completed));
    assert_eq!(repo.calls.len(), 2);
}

fn synced() -> Repo {
    let mut repo = Repo::new(FULL)
        .with(FULL, &["m", "a", "local"])
        .with(START, &["m", "a"]);
    repo.remote.insert(FULL.to_string(), commit(&["m", "b", "remote"]));
    repo.remote.insert(START.to_string(), commit(&["m", "b"]));
    repo.stamps.insert(hash(&commit(&["m", "a", "local"])), 200);
    repo.stamps.insert(hash(&commit(&["m", "b", "remote"])), 100);
    repo
}

#[test]
fn sync_keeps_a_local_branch_that_is_newer() {
    let mut repo = synced();
    let result = drive(sync(false), &mut repo);
    assert_eq!(result, Ok(Report::LocalIsNewer));
    assert_eq!(repo.at(FULL), commit(&["m", "a", "local"]));
    assert_eq!(repo.at(START), commit(&["m", "a"]));
    assert!(!repo.calls.iter().any(|c| matches!(
        c,
        GatewayCall::Reset { .. } | GatewayCall::ForceBranch { .. }
    )));
}

#[test]
fn sync_keeps_a_local_branch_of_the_same_age() {
    let mut repo = synced();
    repo.stamps.insert(hash(&commit(&["m", "b", "remote"])), 200);
    let result = drive(sync(false), &mut repo);
    assert_eq!(result, Ok(Report::LocalIsNewer));
    assert_eq!(repo.at(FULL), commit(&["m", "a", "local"]));
}

#[test]
fn sync_with_force_takes_the_remote_branch() {
    let mut repo = synced();
    let result = drive(sync(true), &mut repo);
    assert_eq!(result, Ok(Report::Completed));
    assert_eq!(repo.at(FULL), commit(&["m", "b", "remote"]));
    assert_eq!(repo.at(START), commit(&["m", "b"]));
    assert_eq!(repo.head, FULL);
}

#[test]
fn sync_takes_a_remote_branch_that_is_newer() {
    let mut repo = synced();
    repo.stamps.insert(hash(&commit(&["m", "b", "remote"])), 201);
    let result = drive(sync(false), &mut repo);
    assert_eq!(result, Ok(Report::Completed));
    assert_eq!(repo.at(FULL), commit(&["m", "b", "remote"]));
    assert_eq!(repo.at(START), commit(&["m", "b"]));
}

#[test]
fn sync_fails_where_the_remote_has_no_such_branch() {
    let mut repo = synced();
    repo.remote.clear();
    let result = drive(sync(true), &mut repo);
    assert_eq!(result, Err(StackError::GatewayCommandFailed));
    assert_eq!(repo.at(FULL), commit(&["m", "a", "local"]));
}
