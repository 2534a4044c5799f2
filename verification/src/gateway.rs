//! What the library asks of git and of the hooks memo, and how it reads what
//! comes back. The library performs none of these calls itself: it names
//! them, and is handed the replies.

use vstd::prelude::*;
use vstd::string::StringExecFns;
use crate::branch::{decode, parse_branch, start_name, ParsedBranch};
use crate::config::SavedConfig;
use crate::decimal::{integer_of_text, read_integer};
use crate::stack::texts;
use crate::text::{split_chars, split_on, to_chars, to_text, trim_both, trim_end, trimmed,
    trimmed_end};

verus! {

/// One call on the repository, or on the memo that keeps the hooks path
/// while a rebase is open.
#[derive(Debug, PartialEq, Eq)]
pub enum GatewayCall {
    /// Name of the checked-out branch.
    CurrentBranch,
    /// Names of the local branches.
    ListBranches,
    /// Hash of the commit that a ref points to.
    CommitHash(String),
    /// Author timestamp of the commit that a ref points to.
    CommitTimestamp(String),
    /// Check a ref out.
    Checkout(String),
    /// Create a branch at the checked-out commit and check it out.
    CreateBranch(String),
    /// Move the checked-out branch to `target`; `hard` also resets the files.
    Reset { target: String, hard: bool },
    /// Make `branch` point to the commit of `target`, creating it if needed.
    ForceBranch { branch: String, target: String },
    /// Delete a local branch.
    DeleteLocal(String),
    /// Delete a branch on the remote.
    DeleteRemote(String),
    /// Delete the remote-tracking copy of a branch.
    DeleteTracking(String),
    /// Replay the commits after `from` up to `to` on the checked-out branch.
    CherryPick { from: String, to: String, strategy: Option<String> },
    /// Give up a cherry-pick that stopped.
    CherryAbort,
    /// Go on with a cherry-pick that stopped.
    CherryContinue,
    /// Fetch a branch from the remote.
    Fetch(String),
    /// Push a branch to the remote.
    Push { branch: String, force: bool },
    /// Rebase the checked-out branch onto `onto`.
    Rebase { onto: String, interactive: bool },
    /// Show the changes after `from`, up to `until` or to the working tree.
    Diff { from: String, until: Option<String> },
    /// Give a branch another name.
    Rename { old_name: String, new_name: String },
    /// Subjects and bodies of the commits that are not on `origin/<base>`.
    Log(String),
    /// Top directory of the repository.
    RepoRoot,
    /// Read the configured hooks path.
    GetHooksPath,
    /// Configure the hooks path.
    SetHooksPath(String),
    /// Remove the configured hooks path.
    UnsetHooksPath,
    /// Write the hooks path to the memo.
    SaveHooksPath(String),
    /// Read the hooks path from the memo.
    LoadHooksPath,
    /// Remove the memo.
    DropHooksPath,
}

/// The mathematical value of a `GatewayCall`.
pub enum CallView {
    CurrentBranch,
    ListBranches,
    CommitHash(Seq<char>),
    CommitTimestamp(Seq<char>),
    Checkout(Seq<char>),
    CreateBranch(Seq<char>),
    Reset { target: Seq<char>, hard: bool },
    ForceBranch { branch: Seq<char>, target: Seq<char> },
    DeleteLocal(Seq<char>),
    DeleteRemote(Seq<char>),
    DeleteTracking(Seq<char>),
    CherryPick { from: Seq<char>, to: Seq<char>, strategy: Option<Seq<char>> },
    CherryAbort,
    CherryContinue,
    Fetch(Seq<char>),
    Push { branch: Seq<char>, force: bool },
    Rebase { onto: Seq<char>, interactive: bool },
    Diff { from: Seq<char>, until: Option<Seq<char>> },
    Rename { old_name: Seq<char>, new_name: Seq<char> },
    Log(Seq<char>),
    RepoRoot,
    GetHooksPath,
    SetHooksPath(Seq<char>),
    UnsetHooksPath,
    SaveHooksPath(Seq<char>),
    LoadHooksPath,
    DropHooksPath,
}

/// The text of an optional string.
pub open spec fn text_of(s: Option<String>) -> Option<Seq<char>> {
    match s {
        Some(t) => Some(t@),
        None => None,
    }
}

impl View for GatewayCall {
    type V = CallView;

    open spec fn view(&self) -> CallView {
        match *self {
            GatewayCall::CurrentBranch => CallView::CurrentBranch,
            GatewayCall::ListBranches => CallView::ListBranches,
            GatewayCall::CommitHash(r) => CallView::CommitHash(r@),
            GatewayCall::CommitTimestamp(r) => CallView::CommitTimestamp(r@),
            GatewayCall::Checkout(r) => CallView::Checkout(r@),
            GatewayCall::CreateBranch(r) => CallView::CreateBranch(r@),
            GatewayCall::Reset { target, hard } => CallView::Reset { target: target@, hard },
            GatewayCall::ForceBranch { branch, target } => CallView::ForceBranch {
                branch: branch@,
                target: target@,
            },
            GatewayCall::DeleteLocal(r) => CallView::DeleteLocal(r@),
            GatewayCall::DeleteRemote(r) => CallView::DeleteRemote(r@),
            GatewayCall::DeleteTracking(r) => CallView::DeleteTracking(r@),
            GatewayCall::CherryPick { from, to, strategy } => CallView::CherryPick {
                from: from@,
                to: to@,
                strategy: text_of(strategy),
            },
            GatewayCall::CherryAbort => CallView::CherryAbort,
            GatewayCall::CherryContinue => CallView::CherryContinue,
            GatewayCall::Fetch(r) => CallView::Fetch(r@),
            GatewayCall::Push { branch, force } => CallView::Push { branch: branch@, force },
            GatewayCall::Rebase { onto, interactive } => CallView::Rebase {
                onto: onto@,
                interactive,
            },
            GatewayCall::Diff { from, until } => CallView::Diff {
                from: from@,
                until: text_of(until),
            },
            GatewayCall::Rename { old_name, new_name } => CallView::Rename {
                old_name: old_name@,
                new_name: new_name@,
            },
            GatewayCall::Log(r) => CallView::Log(r@),
            GatewayCall::RepoRoot => CallView::RepoRoot,
            GatewayCall::GetHooksPath => CallView::GetHooksPath,
            GatewayCall::SetHooksPath(r) => CallView::SetHooksPath(r@),
            GatewayCall::UnsetHooksPath => CallView::UnsetHooksPath,
            GatewayCall::SaveHooksPath(r) => CallView::SaveHooksPath(r@),
            GatewayCall::LoadHooksPath => CallView::LoadHooksPath,
            GatewayCall::DropHooksPath => CallView::DropHooksPath,
        }
    }
}

/// What came back from a call: the exit code of the process, if it ended by
/// itself, and what it printed.
#[derive(Debug, PartialEq, Eq)]
pub struct GatewayReply {
    pub code: Option<i32>,
    pub output: String,
}

/// The mathematical value of a `GatewayReply`.
pub struct ReplyView {
    pub code: Option<i32>,
    pub output: Seq<char>,
}

impl View for GatewayReply {
    type V = ReplyView;

    open spec fn view(&self) -> ReplyView {
        ReplyView { code: self.code, output: self.output@ }
    }
}

/// A reply as the library understands it.
#[derive(Debug, PartialEq, Eq)]
pub enum Outcome {
    /// The call failed, or printed what cannot be read.
    Failed,
    /// A cherry-pick stopped on conflicting changes.
    Conflict,
    /// The call did its work.
    Done,
    /// The call answered with a text.
    Text(String),
    /// The call answered with a list of names.
    Lines(Vec<String>),
    /// The call answered with a number.
    Number(i64),
}

/// The mathematical value of an `Outcome`.
pub enum OutcomeView {
    Failed,
    Conflict,
    Done,
    Text(Seq<char>),
    Lines(Seq<Seq<char>>),
    Number(i64),
}

impl View for Outcome {
    type V = OutcomeView;

    open spec fn view(&self) -> OutcomeView {
        match *self {
            Outcome::Failed => OutcomeView::Failed,
            Outcome::Conflict => OutcomeView::Conflict,
            Outcome::Done => OutcomeView::Done,
            Outcome::Text(t) => OutcomeView::Text(t@),
            Outcome::Lines(l) => OutcomeView::Lines(texts(l@)),
            Outcome::Number(n) => OutcomeView::Number(n),
        }
    }
}

/// The two refs of a range, written as git reads them: `from..to`.
pub open spec fn range_text(from: Seq<char>, to: Seq<char>) -> Seq<char> {
    from + ".."@ + to
}

/// The arguments with which git performs a call; nothing for the calls on
/// the hooks memo, which git does not perform.
pub open spec fn git_arguments(call: CallView) -> Option<Seq<Seq<char>>> {
    match call {
        CallView::CurrentBranch => Some(seq!["rev-parse"@, "--abbrev-ref"@, "HEAD"@]),
        CallView::ListBranches => Some(seq!["branch"@]),
        CallView::CommitHash(r) => Some(seq!["rev-parse"@, r]),
        CallView::CommitTimestamp(r) => Some(
            seq!["show"@, "--no-patch"@, "--no-notes"@, "--pretty=format:%at"@, r],
        ),
        CallView::Checkout(r) => Some(seq!["checkout"@, r]),
        CallView::CreateBranch(r) => Some(seq!["checkout"@, "-b"@, r]),
        CallView::Reset { target, hard } => Some(
            if hard {
                seq!["reset"@, "--hard"@, target]
            } else {
                seq!["reset"@, target]
            },
        ),
        CallView::ForceBranch { branch, target } => Some(seq!["branch"@, "-f"@, branch, target]),
        CallView::DeleteLocal(r) => Some(seq!["branch"@, "-D"@, r]),
        CallView::DeleteRemote(r) => Some(seq!["push"@, "origin"@, "-d"@, r]),
        CallView::DeleteTracking(r) => Some(seq!["branch"@, "-D"@, "-r"@, r]),
        CallView::CherryPick { from, to, strategy } => Some(
            match strategy {
                Some(s) => seq![
                    "cherry-pick"@,
                    "-v"@,
                    range_text(from, to),
                    "--strategy-option"@,
                    s,
                ],
                None => seq!["cherry-pick"@, "-v"@, range_text(from, to)],
            },
        ),
        CallView::CherryAbort => Some(seq!["cherry-pick"@, "--abort"@]),
        CallView::CherryContinue => Some(seq!["cherry-pick"@, "--continue"@]),
        CallView::Fetch(r) => Some(seq!["fetch"@, "-p"@, "origin"@, r]),
        CallView::Push { branch, force } => Some(
            if force {
                seq!["push"@, "-f"@, "origin"@, branch]
            } else {
                seq!["push"@, "origin"@, branch]
            },
        ),
        CallView::Rebase { onto, interactive } => Some(
            if interactive {
                seq!["rebase"@, "-i"@, onto]
            } else {
                seq!["rebase"@, onto]
            },
        ),
        CallView::Diff { from, until } => Some(
            match until {
                Some(t) => seq!["diff"@, range_text(from, t)],
                None => seq!["diff"@, from],
            },
        ),
        CallView::Rename { old_name, new_name } => Some(
            seq!["branch"@, "-m"@, old_name, new_name],
        ),
        CallView::Log(base) => Some(
            seq!["log"@, "--pretty=%s%n%+b"@, range_text("origin/"@ + base, "HEAD"@)],
        ),
        CallView::RepoRoot => Some(seq!["rev-parse"@, "--show-toplevel"@]),
        CallView::GetHooksPath => Some(seq!["config"@, "core.hooksPath"@]),
        CallView::SetHooksPath(p) => Some(seq!["config"@, "core.hooksPath"@, p]),
        CallView::UnsetHooksPath => Some(seq!["config"@, "--unset"@, "core.hooksPath"@]),
        CallView::SaveHooksPath(_) => None,
        CallView::LoadHooksPath => None,
        CallView::DropHooksPath => None,
    }
}

/// The names that a branch listing holds: the listing without the blanks and
/// asterisks at its end, cut into lines, each line without the blanks and
/// asterisks around it.
pub open spec fn listed_names(output: Seq<char>) -> Seq<Seq<char>> {
    Seq::new(
        split_on(trim_end(output, true), '\n').len(),
        |i: int| trim_both(split_on(trim_end(output, true), '\n')[i], true),
    )
}

/// How a reply to a call is understood. A call is done when its process
/// ended with code 0. A cherry-pick that ends with code 1 has stopped on a
/// conflict; a hooks path that is asked for and ends with code 1 is not set.
pub open spec fn outcome_of(call: CallView, reply: ReplyView) -> OutcomeView {
    let done = reply.code == Some(0i32);
    let one = reply.code == Some(1i32);
    match call {
        CallView::CurrentBranch | CallView::CommitHash(_) | CallView::Log(_) | CallView::RepoRoot => if done {
            OutcomeView::Text(trim_end(reply.output, false))
        } else {
            OutcomeView::Failed
        },
        CallView::ListBranches => if done {
            OutcomeView::Lines(listed_names(reply.output))
        } else {
            OutcomeView::Failed
        },
        CallView::CommitTimestamp(_) => if done {
            match integer_of_text(trim_end(reply.output, false)) {
                Some(n) => OutcomeView::Number(n),
                None => OutcomeView::Failed,
            }
        } else {
            OutcomeView::Failed
        },
        CallView::GetHooksPath => if done {
            OutcomeView::Text(trim_end(reply.output, true))
        } else if one {
            OutcomeView::Text(Seq::<char>::empty())
        } else {
            OutcomeView::Failed
        },
        CallView::LoadHooksPath => if done {
            OutcomeView::Text(reply.output)
        } else {
            OutcomeView::Failed
        },
        CallView::CherryPick { .. } | CallView::CherryContinue => if done {
            OutcomeView::Done
        } else if one {
            OutcomeView::Conflict
        } else {
            OutcomeView::Failed
        },
        _ => if done {
            OutcomeView::Done
        } else {
            OutcomeView::Failed
        },
    }
}

fn word(s: &str) -> (w: String)
    ensures
        w@ == s@,
{
    s.to_owned()
}

fn range_of(from: &String, to: &String) -> (r: String)
    ensures
        r@ == range_text(from@, to@),
{
    let mut r = from.clone();
    r.append("..");
    r.append(to.as_str());
    r
}

impl GatewayCall {
    /// The arguments to run git with for this call.
    pub fn args(&self) -> (list: Option<Vec<String>>)
        ensures
            match list {
                Some(v) => git_arguments(self@) == Some(texts(v@)),
                None => git_arguments(self@) is None,
            },
    {
        let mut v: Vec<String> = Vec::new();
        match self {
            GatewayCall::CurrentBranch => {
                v.push(word("rev-parse"));
                v.push(word("--abbrev-ref"));
                v.push(word("HEAD"));
            },
            GatewayCall::ListBranches => {
                v.push(word("branch"));
            },
            GatewayCall::CommitHash(r) => {
                v.push(word("rev-parse"));
                v.push(r.clone());
            },
            GatewayCall::CommitTimestamp(r) => {
                v.push(word("show"));
                v.push(word("--no-patch"));
                v.push(word("--no-notes"));
                v.push(word("--pretty=format:%at"));
                v.push(r.clone());
            },
            GatewayCall::Checkout(r) => {
                v.push(word("checkout"));
                v.push(r.clone());
            },
            GatewayCall::CreateBranch(r) => {
                v.push(word("checkout"));
                v.push(word("-b"));
                v.push(r.clone());
            },
            GatewayCall::Reset { target, hard } => {
                v.push(word("reset"));
                if *hard {
                    v.push(word("--hard"));
                }
                v.push(target.clone());
            },
            GatewayCall::ForceBranch { branch, target } => {
                v.push(word("branch"));
                v.push(word("-f"));
                v.push(branch.clone());
                v.push(target.clone());
            },
            GatewayCall::DeleteLocal(r) => {
                v.push(word("branch"));
                v.push(word("-D"));
                v.push(r.clone());
            },
            GatewayCall::DeleteRemote(r) => {
                v.push(word("push"));
                v.push(word("origin"));
                v.push(word("-d"));
                v.push(r.clone());
            },
            GatewayCall::DeleteTracking(r) => {
                v.push(word("branch"));
                v.push(word("-D"));
                v.push(word("-r"));
                v.push(r.clone());
            },
            GatewayCall::CherryPick { from, to, strategy } => {
                v.push(word("cherry-pick"));
                v.push(word("-v"));
                v.push(range_of(from, to));
                match strategy {
                    Some(s) => {
                        v.push(word("--strategy-option"));
                        v.push(s.clone());
                    },
                    None => {},
                }
            },
            GatewayCall::CherryAbort => {
                v.push(word("cherry-pick"));
                v.push(word("--abort"));
            },
            GatewayCall::CherryContinue => {
                v.push(word("cherry-pick"));
                v.push(word("--continue"));
            },
            GatewayCall::Fetch(r) => {
                v.push(word("fetch"));
                v.push(word("-p"));
                v.push(word("origin"));
                v.push(r.clone());
            },
            GatewayCall::Push { branch, force } => {
                v.push(word("push"));
                if *force {
                    v.push(word("-f"));
                }
                v.push(word("origin"));
                v.push(branch.clone());
            },
            GatewayCall::Rebase { onto, interactive } => {
                v.push(word("rebase"));
                if *interactive {
                    v.push(word("-i"));
                }
                v.push(onto.clone());
            },
            GatewayCall::Diff { from, until } => {
                v.push(word("diff"));
                match until {
                    Some(t) => {
                        v.push(range_of(from, t));
                    },
                    None => {
                        v.push(from.clone());
                    },
                }
            },
            GatewayCall::Rename { old_name, new_name } => {
                v.push(word("branch"));
                v.push(word("-m"));
                v.push(old_name.clone());
                v.push(new_name.clone());
            },
            GatewayCall::Log(base) => {
                v.push(word("log"));
                v.push(word("--pretty=%s%n%+b"));
                let mut from = word("origin/");
                from.append(base.as_str());
                v.push(range_of(&from, &word("HEAD")));
            },
            GatewayCall::RepoRoot => {
                v.push(word("rev-parse"));
                v.push(word("--show-toplevel"));
            },
            GatewayCall::GetHooksPath => {
                v.push(word("config"));
                v.push(word("core.hooksPath"));
            },
            GatewayCall::SetHooksPath(p) => {
                v.push(word("config"));
                v.push(word("core.hooksPath"));
                v.push(p.clone());
            },
            GatewayCall::UnsetHooksPath => {
                v.push(word("config"));
                v.push(word("--unset"));
                v.push(word("core.hooksPath"));
            },
            GatewayCall::SaveHooksPath(_) => {
                return None;
            },
            GatewayCall::LoadHooksPath => {
                return None;
            },
            GatewayCall::DropHooksPath => {
                return None;
            },
        }
        assert(git_arguments(self@)->0 =~= texts(v@));
        Some(v)
    }
}

/// The call that fetches the main branch.
pub fn fetch_main(cfg: &SavedConfig) -> (call: GatewayCall)
    ensures
        call@ == CallView::Fetch(cfg.repo_main_branch@),
{
    GatewayCall::Fetch(cfg.repo_main_branch.clone())
}

/// The call that checks the remote's main branch out.
pub fn checkout_main(cfg: &SavedConfig) -> (call: GatewayCall)
    ensures
        call@ == CallView::Checkout("origin/"@ + cfg.repo_main_branch@),
{
    let mut target = word("origin/");
    target.append(cfg.repo_main_branch.as_str());
    GatewayCall::Checkout(target)
}

/// The call that rebases the checked-out branch onto the remote's main
/// branch.
pub fn rebase(cfg: &SavedConfig, interactive: bool) -> (call: GatewayCall)
    ensures
        call@ == (CallView::Rebase { onto: "origin/"@ + cfg.repo_main_branch@, interactive }),
{
    let mut onto = word("origin/");
    onto.append(cfg.repo_main_branch.as_str());
    GatewayCall::Rebase { onto, interactive }
}

/// The call that lets the user rework the commits of a branch: an
/// interactive rebase onto its start marker.
pub fn fixup_main(current: &ParsedBranch, cfg: &SavedConfig) -> (call: GatewayCall)
    ensures
        call@ == (CallView::Rebase {
            onto: start_name(current@, cfg.branch_split@),
            interactive: true,
        }),
{
    GatewayCall::Rebase { onto: current.start(cfg), interactive: true }
}

/// The call that finds out whether a ref exists: it fails if not.
pub fn assert_branch_exists(branch: String) -> (call: GatewayCall)
    ensures
        call@ == CallView::CommitHash(branch@),
{
    GatewayCall::CommitHash(branch)
}

/// The calls that delete a branch everywhere: on the remote, locally, and
/// its remote-tracking copy. That the two remote ones fail is no error: the
/// branch may never have been pushed.
pub fn delete_branch_all(branch: &String) -> (calls: Vec<GatewayCall>)
    ensures
        calls.len() == 3,
        calls[0]@ == CallView::DeleteRemote(branch@),
        calls[1]@ == CallView::DeleteLocal(branch@),
        calls[2]@ == CallView::DeleteTracking(branch@),
{
    let mut calls: Vec<GatewayCall> = Vec::new();
    calls.push(GatewayCall::DeleteRemote(branch.clone()));
    calls.push(GatewayCall::DeleteLocal(branch.clone()));
    calls.push(GatewayCall::DeleteTracking(branch.clone()));
    calls
}

/// The text that a call printed, without the blanks at its end.
pub fn printed_line(output: &str) -> (line: String)
    ensures
        line@ == trim_end(output@, false),
{
    to_text(&trimmed_end(&to_chars(output), false))
}

/// The name of the checked-out branch, from what git printed.
pub fn current_branch(output: &str) -> (name: String)
    ensures
        name@ == trim_end(output@, false),
{
    printed_line(output)
}

/// The checked-out branch taken apart, from what git printed.
pub fn current_parsed_branch(output: &str, cfg: &SavedConfig) -> (branch: ParsedBranch)
    ensures
        branch@ == decode(trim_end(output@, false), cfg.branch_prefix@, cfg.branch_split@),
{
    parse_branch(current_branch(output).as_str(), cfg)
}

/// The hash of a commit, from what git printed.
pub fn get_commit_hash(output: &str) -> (hash: String)
    ensures
        hash@ == trim_end(output@, false),
{
    printed_line(output)
}

/// The timestamp of a commit, from what git printed; nothing if that is no
/// number.
pub fn get_create_timestamp(output: &str) -> (stamp: Option<i64>)
    ensures
        stamp == integer_of_text(trim_end(output@, false)),
{
    read_integer(&trimmed_end(&to_chars(output), false))
}

/// The configured hooks path, from what git printed.
pub fn get_hooks_path(output: &str) -> (path: String)
    ensures
        path@ == trim_end(output@, true),
{
    to_text(&trimmed_end(&to_chars(output), true))
}

/// The names of the branches that a listing holds, in its order.
pub fn all_branches(output: &str) -> (names: Vec<String>)
    ensures
        texts(names@) == listed_names(output@),
{
    let body = trimmed_end(&to_chars(output), true);
    let lines = split_chars(&body, '\n');
    let mut names: Vec<String> = Vec::new();
    let mut i: usize = 0;
    while i < lines.len()
        invariant
            i <= lines.len(),
            body@ == trim_end(output@, true),
            lines.len() == split_on(body@, '\n').len(),
            forall|k: int|
                0 <= k < lines.len() ==> (#[trigger] lines@[k])@ == split_on(body@, '\n')[k],
            names.len() == i,
            forall|k: int| 0 <= k < i ==> (#[trigger] names@[k])@ == listed_names(output@)[k],
        decreases lines.len() - i,
    {
        let name = to_text(&trimmed(&lines[i], true));
        names.push(name);
        i += 1;
    }
    assert(texts(names@) =~= listed_names(output@));
    names
}

/// Reads the reply to a call: see `outcome_of`.
pub fn read_outcome(call: &GatewayCall, reply: &GatewayReply) -> (outcome: Outcome)
    ensures
        outcome@ == outcome_of(call@, reply@),
{
    let done = match reply.code {
        Some(c) => c == 0,
        None => false,
    };
    let one = match reply.code {
        Some(c) => c == 1,
        None => false,
    };
    match call {
        GatewayCall::CurrentBranch
        | GatewayCall::CommitHash(_)
        | GatewayCall::Log(_)
        | GatewayCall::RepoRoot => {
            if done {
                Outcome::Text(printed_line(reply.output.as_str()))
            } else {
                Outcome::Failed
            }
        },
        GatewayCall::ListBranches => {
            if done {
                Outcome::Lines(all_branches(reply.output.as_str()))
            } else {
                Outcome::Failed
            }
        },
        GatewayCall::CommitTimestamp(_) => {
            if done {
                match get_create_timestamp(reply.output.as_str()) {
                    Some(n) => Outcome::Number(n),
                    None => Outcome::Failed,
                }
            } else {
                Outcome::Failed
            }
        },
        GatewayCall::GetHooksPath => {
            if done {
                Outcome::Text(get_hooks_path(reply.output.as_str()))
            } else if one {
                Outcome::Text(String::new())
            } else {
                Outcome::Failed
            }
        },
        GatewayCall::LoadHooksPath => {
            if done {
                Outcome::Text(reply.output.clone())
            } else {
                Outcome::Failed
            }
        },
        GatewayCall::CherryPick { .. } | GatewayCall::CherryContinue => {
            if done {
                Outcome::Done
            } else if one {
                Outcome::Conflict
            } else {
                Outcome::Failed
            }
        },
        _ => {
            if done {
                Outcome::Done
            } else {
                Outcome::Failed
            }
        },
    }
}

} // verus!
