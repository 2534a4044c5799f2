use gg::branch::ParsedBranch;
use gg::config::SavedConfig;
use gg::gateway::{
    all_branches, assert_branch_exists, checkout_main, current_branch, current_parsed_branch,
    delete_branch_all, fetch_main, fixup_main, get_commit_hash, get_create_timestamp,
    get_hooks_path, printed_line, read_outcome, rebase, GatewayCall, GatewayReply, Outcome,
};

fn gateway_cfg() -> SavedConfig {
    SavedConfig {
        repo_main_branch: "main".to_string(),
        linked_issue: None,
        branch_prefix: "wh".to_string(),
        repo_org: "org".to_string(),
        branch_split: "/".to_string(),
    }
}

fn s(t: &str) -> String {
    t.to_string()
}

fn args_of(call: GatewayCall) -> Vec<String> {
    call.args().unwrap()
}

fn words(list: &[&str]) -> Vec<String> {
    list.iter().map(|n| n.to_string()).collect()
}

#[test]
fn arguments_of_the_queries() {
    assert_eq!(args_of(GatewayCall::CurrentBranch), words(&["rev-parse", "--abbrev-ref", "HEAD"]));
    assert_eq!(args_of(GatewayCall::ListBranches), words(&["branch"]));
    assert_eq!(args_of(GatewayCall::CommitHash(s("x"))), words(&["rev-parse", "x"]));
    assert_eq!(
        args_of(GatewayCall::CommitTimestamp(s("x"))),
        words(&["show", "--no-patch", "--no-notes", "--pretty=format:%at", "x"])
    );
    assert_eq!(args_of(GatewayCall::RepoRoot), words(&["rev-parse", "--show-toplevel"]));
    assert_eq!(
        args_of(GatewayCall::Log(s("main"))),
        words(&["log", "--pretty=%s%n%+b", "origin/main..HEAD"])
    );
    assert_eq!(args_of(GatewayCall::GetHooksPath), words(&["config", "core.hooksPath"]));
}

#[test]
fn arguments_of_the_branch_calls() {
    assert_eq!(args_of(GatewayCall::Checkout(s("x"))), words(&["checkout", "x"]));
    assert_eq!(args_of(GatewayCall::CreateBranch(s("x"))), words(&["checkout", "-b", "x"]));
    assert_eq!(
        args_of(GatewayCall::Reset { target: s("x"), hard: true }),
        words(&["reset", "--hard", "x"])
    );
    assert_eq!(args_of(GatewayCall::Reset { target: s("x"), hard: false }), words(&["reset", "x"]));
    assert_eq!(
        args_of(GatewayCall::ForceBranch { branch: s("b"), target: s("t") }),
        words(&["branch", "-f", "b", "t"])
    );
    assert_eq!(args_of(GatewayCall::DeleteLocal(s("x"))), words(&["branch", "-D", "x"]));
    assert_eq!(args_of(GatewayCall::DeleteRemote(s("x"))), words(&["push", "origin", "-d", "x"]));
    assert_eq!(args_of(GatewayCall::DeleteTracking(s("x"))), words(&["branch", "-D", "-r", "x"]));
    assert_eq!(
        args_of(GatewayCall::Rename { old_name: s("a"), new_name: s("b") }),
        words(&["branch", "-m", "a", "b"])
    );
}

#[test]
fn arguments_of_the_cherry_pick() {
    assert_eq!(
        args_of(GatewayCall::CherryPick { from: s("a"), to: s("b"), strategy: None }),
        words(&["cherry-pick", "-v", "a..b"])
    );
    assert_eq!(
        args_of(GatewayCall::CherryPick { from: s("a"), to: s("b"), strategy: Some(s("theirs")) }),
        words(&["cherry-pick", "-v", "a..b", "--strategy-option", "theirs"])
    );
    assert_eq!(args_of(GatewayCall::CherryAbort), words(&["cherry-pick", "--abort"]));
    assert_eq!(args_of(GatewayCall::CherryContinue), words(&["cherry-pick", "--continue"]));
}

#[test]
fn arguments_of_the_remote_calls() {
    assert_eq!(args_of(GatewayCall::Fetch(s("x"))), words(&["fetch", "-p", "origin", "x"]));
    assert_eq!(
        args_of(GatewayCall::Push { branch: s("x"), force: false }),
        words(&["push", "origin", "x"])
    );
    assert_eq!(
        args_of(GatewayCall::Push { branch: s("x"), force: true }),
        words(&["push", "-f", "origin", "x"])
    );
    assert_eq!(
        args_of(GatewayCall::Rebase { onto: s("origin/main"), interactive: false }),
        words(&["rebase", "origin/main"])
    );
    assert_eq!(
        args_of(GatewayCall::Rebase { onto: s("x"), interactive: true }),
        words(&["rebase", "-i", "x"])
    );
    assert_eq!(args_of(GatewayCall::Diff { from: s("a"), until: None }), words(&["diff", "a"]));
    assert_eq!(
        args_of(GatewayCall::Diff { from: s("a"), until: Some(s("b")) }),
        words(&["diff", "a..b"])
    );
}

#[test]
fn arguments_of_the_hooks_calls() {
    assert_eq!(
        args_of(GatewayCall::SetHooksPath(s("/dev/null"))),
        words(&["config", "core.hooksPath", "/dev/null"])
    );
    assert_eq!(
        args_of(GatewayCall::UnsetHooksPath),
        words(&["config", "--unset", "core.hooksPath"])
    );
    assert_eq!(GatewayCall::SaveHooksPath(s("x")).args(), None);
    assert_eq!(GatewayCall::LoadHooksPath.args(), None);
    assert_eq!(GatewayCall::DropHooksPath.args(), None);
}

fn reply(code: Option<i32>, output: &str) -> GatewayReply {
    GatewayReply { code, output: output.to_string() }
}

#[test]
fn outcome_of_a_text_query() {
    let call = GatewayCall::CurrentBranch;
    assert_eq!(read_outcome(&call, &reply(Some(0), "main\n")), Outcome::Text(s("main")));
    assert_eq!(read_outcome(&call, &reply(Some(0), "main \t\r\n\n")), Outcome::Text(s("main")));
    assert_eq!(read_outcome(&call, &reply(Some(0), "* main*\n")), Outcome::Text(s("* main*")));
    assert_eq!(read_outcome(&call, &reply(Some(1), "main\n")), Outcome::Failed);
    assert_eq!(read_outcome(&call, &reply(None, "main\n")), Outcome::Failed);
    let call = GatewayCall::CommitHash(s("x"));
    assert_eq!(read_outcome(&call, &reply(Some(0), "abc123\n")), Outcome::Text(s("abc123")));
    assert_eq!(read_outcome(&call, &reply(Some(128), "")), Outcome::Failed);
    assert_eq!(
        read_outcome(&GatewayCall::Log(s("main")), &reply(Some(0), "subject\n\nbody\n\n")),
        Outcome::Text(s("subject\n\nbody"))
    );
    assert_eq!(
        read_outcome(&GatewayCall::RepoRoot, &reply(Some(0), "/home/me/repo\n")),
        Outcome::Text(s("/home/me/repo"))
    );
}

#[test]
fn outcome_of_a_listing() {
    let call = GatewayCall::ListBranches;
    assert_eq!(
        read_outcome(&call, &reply(Some(0), "  wh/a\n* wh/b\n  main\n")),
        Outcome::Lines(words(&["wh/a", "wh/b", "main"]))
    );
    assert_eq!(read_outcome(&call, &reply(Some(0), "")), Outcome::Lines(words(&[""])));
    assert_eq!(read_outcome(&call, &reply(Some(2), "  wh/a\n")), Outcome::Failed);
}

#[test]
fn outcome_of_a_timestamp() {
    let call = GatewayCall::CommitTimestamp(s("x"));
    assert_eq!(read_outcome(&call, &reply(Some(0), "1700000000")), Outcome::Number(1700000000));
    assert_eq!(read_outcome(&call, &reply(Some(0), "1700000000\n")), Outcome::Number(1700000000));
    assert_eq!(read_outcome(&call, &reply(Some(0), "-5\n")), Outcome::Number(-5));
    assert_eq!(read_outcome(&call, &reply(Some(0), "soon")), Outcome::Failed);
    assert_eq!(read_outcome(&call, &reply(Some(0), "")), Outcome::Failed);
    assert_eq!(read_outcome(&call, &reply(Some(128), "1700000000")), Outcome::Failed);
}

#[test]
fn outcome_of_the_hooks_path() {
    let call = GatewayCall::GetHooksPath;
    assert_eq!(read_outcome(&call, &reply(Some(0), ".githooks\n")), Outcome::Text(s(".githooks")));
    assert_eq!(read_outcome(&call, &reply(Some(1), "")), Outcome::Text(s("")));
    assert_eq!(read_outcome(&call, &reply(Some(1), "ignored")), Outcome::Text(s("")));
    assert_eq!(read_outcome(&call, &reply(Some(128), "")), Outcome::Failed);
    assert_eq!(read_outcome(&call, &reply(None, "")), Outcome::Failed);
    let call = GatewayCall::LoadHooksPath;
    assert_eq!(read_outcome(&call, &reply(Some(0), "hooks \n")), Outcome::Text(s("hooks \n")));
    assert_eq!(read_outcome(&call, &reply(Some(0), "")), Outcome::Text(s("")));
    assert_eq!(read_outcome(&call, &reply(Some(1), "")), Outcome::Failed);
}

#[test]
fn outcome_of_a_cherry_pick() {
    for call in [
        GatewayCall::CherryPick { from: s("a"), to: s("b"), strategy: None },
        GatewayCall::CherryContinue,
    ] {
        assert_eq!(read_outcome(&call, &reply(Some(0), "")), Outcome::Done);
        assert_eq!(read_outcome(&call, &reply(Some(1), "")), Outcome::Conflict);
        assert_eq!(read_outcome(&call, &reply(Some(128), "")), Outcome::Failed);
        assert_eq!(read_outcome(&call, &reply(None, "")), Outcome::Failed);
    }
    assert_eq!(read_outcome(&GatewayCall::CherryAbort, &reply(Some(1), "")), Outcome::Failed);
}

#[test]
fn outcome_of_a_plain_call() {
    for call in [
        GatewayCall::Checkout(s("x")),
        GatewayCall::CreateBranch(s("x")),
        GatewayCall::DeleteLocal(s("x")),
        GatewayCall::SetHooksPath(s("x")),
        GatewayCall::DropHooksPath,
        GatewayCall::Fetch(s("x")),
    ] {
        assert_eq!(read_outcome(&call, &reply(Some(0), "whatever")), Outcome::Done);
        assert_eq!(read_outcome(&call, &reply(Some(1), "")), Outcome::Failed);
        assert_eq!(read_outcome(&call, &reply(None, "")), Outcome::Failed);
    }
}

#[test]
fn what_git_printed_is_read_without_its_end() {
    assert_eq!(printed_line("abc \n"), "abc");
    assert_eq!(printed_line("  abc"), "  abc");
    assert_eq!(printed_line(" \n\t\r"), "");
    assert_eq!(current_branch("wh/feature/part-1.0\n"), "wh/feature/part-1.0");
    assert_eq!(get_commit_hash("0123abc\n"), "0123abc");
    assert_eq!(get_hooks_path(".githooks\n"), ".githooks");
    assert_eq!(get_hooks_path("hooks**\n"), "hooks");
    assert_eq!(get_hooks_path(""), "");
    assert_eq!(get_create_timestamp("12\n"), Some(12));
    assert_eq!(get_create_timestamp("+12"), Some(12));
    assert_eq!(get_create_timestamp("9223372036854775807"), Some(i64::MAX));
    assert_eq!(get_create_timestamp("-9223372036854775808"), Some(i64::MIN));
    assert_eq!(get_create_timestamp("9223372036854775808"), None);
    assert_eq!(get_create_timestamp("-9223372036854775809"), None);
    assert_eq!(get_create_timestamp("99999999999999999999999"), None);
    assert_eq!(get_create_timestamp("1 2"), None);
    assert_eq!(get_create_timestamp("-"), None);
    assert_eq!(get_create_timestamp("+"), None);
}

#[test]
fn a_listing_is_cut_into_names() {
    assert_eq!(all_branches("* main\n  wh/a\n"), words(&["main", "wh/a"]));
    assert_eq!(all_branches("  main\n\n  wh/a\n\n\n"), words(&["main", "", "wh/a"]));
    assert_eq!(all_branches("main"), words(&["main"]));
    assert_eq!(all_branches(""), words(&[""]));
    assert_eq!(all_branches("  a b  \n"), words(&["a b"]));
}

#[test]
fn the_current_branch_is_taken_apart() {
    assert_eq!(
        current_parsed_branch("wh/feature/part-1.5\n", &gateway_cfg()),
        ParsedBranch { prefix: Some(s("wh")), base: s("feature"), partx100: Some(150) }
    );
}

#[test]
fn calls_on_the_main_branch() {
    let c = gateway_cfg();
    assert_eq!(fetch_main(&c), GatewayCall::Fetch(s("main")));
    assert_eq!(checkout_main(&c), GatewayCall::Checkout(s("origin/main")));
    assert_eq!(rebase(&c, true), GatewayCall::Rebase { onto: s("origin/main"), interactive: true });
    assert_eq!(
        rebase(&c, false),
        GatewayCall::Rebase { onto: s("origin/main"), interactive: false }
    );
    let b = ParsedBranch { prefix: Some(s("wh")), base: s("f"), partx100: Some(100) };
    assert_eq!(
        fixup_main(&b, &c),
        GatewayCall::Rebase { onto: s("wh/starts/f/part-1.0"), interactive: true }
    );
    assert_eq!(assert_branch_exists(s("x")), GatewayCall::CommitHash(s("x")));
}

#[test]
fn a_branch_is_deleted_in_three_places() {
    assert_eq!(
        delete_branch_all(&s("x")),
        vec![
            GatewayCall::DeleteRemote(s("x")),
            GatewayCall::DeleteLocal(s("x")),
            GatewayCall::DeleteTracking(s("x")),
        ]
    );
}
