use gg::branch::ParsedBranch;
use gg::commands::{
    branches_to_push, cleanup, cleanup_closed_pr, confirm, direction, get_template_for_pr,
    get_title_and_body, migrated, new_branch, renamed, review_mark, run_pomodoro, test_mark, Mark,
};
use gg::config::SavedConfig;
use gg::pr::Pr;
use gg::stack::CheckoutDir;

fn cmd_cfg() -> SavedConfig {
    SavedConfig {
        repo_main_branch: "main".to_string(),
        linked_issue: None,
        branch_prefix: "wh".to_string(),
        repo_org: "org".to_string(),
        branch_split: "/".to_string(),
    }
}

fn branch(prefix: Option<&str>, base: &str, part: Option<u32>) -> ParsedBranch {
    ParsedBranch { prefix: prefix.map(|p| p.to_string()), base: base.to_string(), partx100: part }
}

#[test]
fn a_new_branch_follows_the_current_one() {
    let c = cmd_cfg();
    assert_eq!(
        new_branch(branch(Some("wh"), "f", Some(100)), &c, None, None),
        branch(Some("wh"), "f", Some(200))
    );
    assert_eq!(
        new_branch(branch(Some("wh"), "f", Some(150)), &c, None, None),
        branch(Some("wh"), "f", Some(250))
    );
    assert_eq!(
        new_branch(branch(Some("wh"), "f", None), &c, None, None),
        branch(Some("wh"), "f", Some(100))
    );
    assert_eq!(
        new_branch(branch(None, "main", None), &c, Some("topic".to_string()), None),
        branch(Some("wh"), "topic", Some(100))
    );
    assert_eq!(
        new_branch(branch(Some("other"), "f", Some(100)), &c, None, Some(149)),
        branch(Some("other"), "f", Some(149))
    );
    assert_eq!(
        new_branch(branch(Some("wh"), "f", Some(u32::MAX - 100)), &c, None, None),
        branch(Some("wh"), "f", Some(u32::MAX))
    );
}

#[test]
fn a_checkout_goes_where_it_is_told() {
    assert_eq!(direction(Some(150), true, true, true), CheckoutDir::Part(150));
    assert_eq!(direction(None, true, true, true), CheckoutDir::Next);
    assert_eq!(direction(None, false, true, true), CheckoutDir::Prev);
    assert_eq!(direction(None, false, false, true), CheckoutDir::Start);
    assert_eq!(direction(None, false, false, false), CheckoutDir::Unknown);
}

#[test]
fn only_y_is_a_yes() {
    assert!(confirm("y\n"));
    assert!(confirm("y"));
    assert!(confirm("y \r\n"));
    assert!(!confirm("yes\n"));
    assert!(!confirm("Y\n"));
    assert!(!confirm(" y\n"));
    assert!(!confirm("n\n"));
    assert!(!confirm("\n"));
    assert!(!confirm(""));
}

#[test]
fn a_push_sends_the_branch_and_its_start_marker() {
    let c = cmd_cfg();
    assert_eq!(branches_to_push("wh/f/part-1.0", false, &c), vec!["wh/f/part-1.0".to_string()]);
    assert_eq!(
        branches_to_push("wh/f/part-1.0", true, &c),
        vec!["wh/f/part-1.0".to_string(), "wh/starts/f/part-1.0".to_string()]
    );
    assert_eq!(
        branches_to_push("topic", true, &c),
        vec!["topic".to_string(), "starts/topic".to_string()]
    );
}

#[test]
fn a_branch_gets_another_base_or_prefix() {
    let b = branch(Some("wh"), "f", Some(100));
    assert_eq!(renamed(&b, "g".to_string()), branch(Some("wh"), "g", Some(100)));
    assert_eq!(migrated(&b, "me"), branch(Some("me"), "f", Some(100)));
    assert_eq!(migrated(&branch(None, "f", None), "me"), branch(Some("me"), "f", None));
}

fn pr(branch: &str, closed: bool) -> Pr {
    Pr {
        closed,
        title: format!("about {}", branch),
        branch: branch.to_string(),
        url: String::new(),
        state: String::new(),
        review_decision: None,
        mergeable: String::new(),
        auto_merge_request: false,
        test_status: String::new(),
    }
}

#[test]
fn a_cleanup_takes_the_closed_pull_requests() {
    let prs = vec![pr("wh/a", true), pr("wh/b", false), pr("wh/c", true)];
    assert_eq!(cleanup(&prs), vec![pr("wh/a", true), pr("wh/c", true)]);
    assert_eq!(cleanup(&vec![pr("wh/b", false)]), vec![]);
    assert_eq!(cleanup(&vec![]), vec![]);
    assert_eq!(
        cleanup_closed_pr(&pr("wh/a/part-1.0", true), &cmd_cfg()),
        ("wh/a/part-1.0".to_string(), "wh/starts/a/part-1.0".to_string())
    );
}

#[test]
fn marks_of_reviews_and_checks() {
    assert_eq!(review_mark(&None), Mark::Waiting);
    assert_eq!(review_mark(&Some("APPROVED".to_string())), Mark::Good);
    assert_eq!(review_mark(&Some("REVIEW_REQUIRED".to_string())), Mark::Waiting);
    assert_eq!(review_mark(&Some("CHANGES_REQUESTED".to_string())), Mark::Bad);
    assert_eq!(review_mark(&Some("approved".to_string())), Mark::Other("approved".to_string()));
    assert_eq!(test_mark(&"SUCCESS".to_string()), Mark::Good);
    assert_eq!(test_mark(&"PENDING".to_string()), Mark::Waiting);
    assert_eq!(test_mark(&"FAILURE".to_string()), Mark::Bad);
    assert_eq!(test_mark(&"ERROR".to_string()), Mark::Bad);
    assert_eq!(test_mark(&"EXPECTED".to_string()), Mark::Expected);
    assert_eq!(test_mark(&"N/A".to_string()), Mark::Other("N/A".to_string()));
}

#[test]
fn title_and_body_are_parted_at_the_first_line_end() {
    assert_eq!(
        get_title_and_body("Title\nfirst\nsecond\n"),
        Some(("Title".to_string(), "first\nsecond\n".to_string()))
    );
    assert_eq!(get_title_and_body("Title\n"), Some(("Title".to_string(), String::new())));
    assert_eq!(get_title_and_body("\nbody"), Some((String::new(), "body".to_string())));
    assert_eq!(get_title_and_body("Title"), None);
    assert_eq!(get_title_and_body(""), None);
}

#[test]
fn a_template_links_the_issue() {
    assert_eq!(
        get_template_for_pr("log".to_string(), Some((12, "Fix it".to_string())), "org", "repo"),
        "log\n\nResolves Issue: [Fix it](https://github.com/org/repo/issues/12)"
    );
    assert_eq!(
        get_template_for_pr("log".to_string(), Some((0, "none".to_string())), "org", "repo"),
        "log"
    );
    assert_eq!(get_template_for_pr("log".to_string(), None, "org", "repo"), "log");
    assert_eq!(
        get_template_for_pr(String::new(), Some((u64::MAX, String::new())), "", ""),
        "\n\nResolves Issue: [](https://github.com///issues/18446744073709551615)"
    );
}

#[test]
fn the_clock_counts_the_minutes_down() {
    assert_eq!(
        run_pomodoro(3),
        vec!["3 minutes left".to_string(), "2 minutes left".to_string(), "1 minutes left".to_string()]
    );
    assert!(run_pomodoro(0).is_empty());
    assert_eq!(run_pomodoro(25).len(), 25);
    assert_eq!(run_pomodoro(25)[0], "25 minutes left");
}
