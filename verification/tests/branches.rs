use gg::branches::{load_branch_infos, BranchInfo, BranchWithInfo};
use gg::config::SavedConfig;
use gg::pr::Pr;

fn list_cfg() -> SavedConfig {
    SavedConfig {
        repo_main_branch: "main".to_string(),
        linked_issue: None,
        branch_prefix: "wh".to_string(),
        repo_org: "org".to_string(),
        branch_split: "/".to_string(),
    }
}

fn info(name: &str, date: i64) -> BranchInfo {
    BranchInfo { name: name.to_string(), date_created: date }
}

fn pr(branch: &str, title: &str) -> Pr {
    Pr {
        closed: false,
        title: title.to_string(),
        branch: branch.to_string(),
        url: String::new(),
        state: String::new(),
        review_decision: None,
        mergeable: String::new(),
        auto_merge_request: false,
        test_status: String::new(),
    }
}

fn row(name: &str, date: i64, current: bool, has_start: bool, pr: Option<Pr>) -> BranchWithInfo {
    BranchWithInfo { branch: name.to_string(), date_created: date, current, has_start, pr }
}

#[test]
fn rows_show_each_branch_that_is_no_start_marker() {
    let branches = vec![
        info("main", 1),
        info("wh/f/part-1.0", 2),
        info("wh/starts/f/part-1.0", 3),
        info("wh/f/part-2.0", 4),
        info("starts/main", 5),
        info("wh/startsearly", 6),
    ];
    let prs = vec![pr("wh/f/part-1.0", "first"), pr("other", "x"), pr("wh/f/part-1.0", "second")];
    let rows = load_branch_infos(&branches, &"wh/f/part-2.0".to_string(), &prs, &list_cfg());
    assert_eq!(
        rows,
        vec![
            row("main", 1, false, true, None),
            row("wh/f/part-1.0", 2, false, true, Some(pr("wh/f/part-1.0", "second"))),
            row("wh/f/part-2.0", 4, true, false, None),
            row("starts/main", 5, false, false, None),
        ]
    );
}

#[test]
fn a_pull_request_goes_to_one_row_only() {
    let branches = vec![info("wh/a", 1), info("wh/a", 2)];
    let prs = vec![pr("wh/a", "only")];
    let rows = load_branch_infos(&branches, &"none".to_string(), &prs, &list_cfg());
    assert_eq!(
        rows,
        vec![row("wh/a", 1, false, false, Some(pr("wh/a", "only"))), row("wh/a", 2, false, false, None)]
    );
    assert!(load_branch_infos(&vec![], &"x".to_string(), &prs, &list_cfg()).is_empty());
}

#[test]
fn a_row_takes_a_pull_request() {
    let mut r = row("wh/a", 1, false, false, None);
    r.set_pr(Some(pr("wh/a", "t")));
    assert_eq!(r, row("wh/a", 1, false, false, Some(pr("wh/a", "t"))));
    r.set_pr(None);
    assert_eq!(r, row("wh/a", 1, false, false, None));
}
