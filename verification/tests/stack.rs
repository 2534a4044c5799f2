use gg::branch::ParsedBranch;
use gg::config::SavedConfig;
use gg::error::StackError;
use gg::stack::{
    all_managed_branches, all_parsed_managed_branches, branches_after, get_branch_for_dir,
    get_children_branches, get_sorted_matching_branches, locate, navigate, CheckoutDir,
};

fn stack_cfg() -> SavedConfig {
    SavedConfig {
        repo_main_branch: "main".to_string(),
        linked_issue: None,
        branch_prefix: "wh".to_string(),
        repo_org: "org".to_string(),
        branch_split: "/".to_string(),
    }
}

fn names(list: &[&str]) -> Vec<String> {
    list.iter().map(|n| n.to_string()).collect()
}

fn managed(base: &str, part: Option<u32>) -> ParsedBranch {
    ParsedBranch { prefix: Some("wh".to_string()), base: base.to_string(), partx100: part }
}

fn listing() -> Vec<String> {
    names(&[
        "main",
        "wh/feature/part-3.0",
        "wh/other/part-1.0",
        "wh/feature/part-1.0",
        "feature/part-0.5",
        "wh/feature",
        "wh/feature/part-2.5",
        "wh/starts/feature/part-1.0",
    ])
}

#[test]
fn managed_branches_are_those_with_the_prefix() {
    let all = all_parsed_managed_branches(&listing(), &stack_cfg());
    assert_eq!(
        all,
        vec![
            managed("feature", Some(300)),
            managed("other", Some(100)),
            managed("feature", Some(100)),
            managed("feature", None),
            managed("feature", Some(250)),
            managed("starts/feature", Some(100)),
        ]
    );
    assert_eq!(
        all_managed_branches(&listing(), &stack_cfg()),
        names(&[
            "wh/feature/part-3.0",
            "wh/other/part-1.0",
            "wh/feature/part-1.0",
            "wh/feature",
            "wh/feature/part-2.5",
            "wh/starts/feature/part-1.0",
        ])
    );
}

#[test]
fn siblings_come_in_ascending_order_of_position() {
    let stack = get_sorted_matching_branches(&listing(), "feature", &stack_cfg());
    assert_eq!(
        stack,
        vec![
            managed("feature", None),
            managed("feature", Some(100)),
            managed("feature", Some(250)),
            managed("feature", Some(300)),
        ]
    );
    assert!(get_sorted_matching_branches(&listing(), "none", &stack_cfg()).is_empty());
    assert!(get_sorted_matching_branches(&Vec::new(), "feature", &stack_cfg()).is_empty());
}

#[test]
fn siblings_of_equal_position_keep_their_listed_order() {
    let mut c = stack_cfg();
    c.branch_split = "/".to_string();
    // "1.0" and "1.00" and "1" are the same position under three names
    let list = names(&["wh/f/part-2", "wh/f/part-1.00", "wh/f/part-1.0", "wh/f/part-1", "wh/f/part-0.5"]);
    let stack = get_sorted_matching_branches(&list, "f", &c);
    let positions: Vec<Option<u32>> = stack.iter().map(|b| b.partx100).collect();
    assert_eq!(positions, vec![Some(50), Some(100), Some(100), Some(100), Some(200)]);
    // branches without position: bases differ from "f" once the position is not readable
    let list = names(&["wh/f/part-1.0", "wh/f", "wh/f/part-0.0", "wh/f"]);
    let stack = get_sorted_matching_branches(&list, "f", &c);
    let positions: Vec<Option<u32>> = stack.iter().map(|b| b.partx100).collect();
    assert_eq!(positions, vec![None, None, Some(0), Some(100)]);
}

#[test]
fn locate_finds_the_branch_by_its_position() {
    let stack = get_sorted_matching_branches(&listing(), "feature", &stack_cfg());
    assert_eq!(locate(&managed("feature", None), &stack), Ok(0));
    assert_eq!(locate(&managed("feature", Some(100)), &stack), Ok(1));
    assert_eq!(locate(&managed("feature", Some(300)), &stack), Ok(3));
    assert_eq!(locate(&managed("feature", Some(200)), &stack), Err(StackError::NotInStack));
    assert_eq!(locate(&managed("feature", Some(100)), &Vec::new()), Err(StackError::NotInStack));
}

#[test]
fn navigate_moves_by_one() {
    let stack = get_sorted_matching_branches(&listing(), "feature", &stack_cfg());
    let at = managed("feature", Some(250));
    assert_eq!(navigate(&at, &stack, CheckoutDir::Next), Some(managed("feature", Some(300))));
    assert_eq!(navigate(&at, &stack, CheckoutDir::Prev), Some(managed("feature", Some(100))));
}

#[test]
fn navigate_stops_at_the_ends() {
    let stack = get_sorted_matching_branches(&listing(), "feature", &stack_cfg());
    assert_eq!(navigate(&managed("feature", None), &stack, CheckoutDir::Prev), None);
    assert_eq!(navigate(&managed("feature", Some(300)), &stack, CheckoutDir::Next), None);
    assert_eq!(
        navigate(&managed("feature", None), &stack, CheckoutDir::Next),
        Some(managed("feature", Some(100)))
    );
}

#[test]
fn navigate_from_outside_the_stack_goes_nowhere_by_steps() {
    let stack = get_sorted_matching_branches(&listing(), "feature", &stack_cfg());
    let stray = managed("feature", Some(777));
    assert_eq!(navigate(&stray, &stack, CheckoutDir::Next), None);
    assert_eq!(navigate(&stray, &stack, CheckoutDir::Prev), None);
    assert_eq!(navigate(&stray, &stack, CheckoutDir::Start), Some(managed("feature", None)));
    assert_eq!(
        navigate(&stray, &stack, CheckoutDir::Part(250)),
        Some(managed("feature", Some(250)))
    );
}

#[test]
fn navigate_to_start_and_to_a_position() {
    let stack = get_sorted_matching_branches(&listing(), "feature", &stack_cfg());
    let at = managed("feature", Some(250));
    assert_eq!(navigate(&at, &stack, CheckoutDir::Start), Some(managed("feature", None)));
    assert_eq!(navigate(&at, &stack, CheckoutDir::Part(300)), Some(managed("feature", Some(300))));
    assert_eq!(navigate(&at, &stack, CheckoutDir::Part(400)), None);
    assert_eq!(navigate(&at, &stack, CheckoutDir::Unknown), None);
    assert_eq!(navigate(&at, &Vec::new(), CheckoutDir::Start), None);
}

#[test]
fn branch_for_dir_names_the_branch() {
    let at = managed("feature", Some(250));
    let c = stack_cfg();
    assert_eq!(
        get_branch_for_dir(&at, &listing(), CheckoutDir::Next, &c),
        Some("wh/feature/part-3.0".to_string())
    );
    assert_eq!(
        get_branch_for_dir(&at, &listing(), CheckoutDir::Prev, &c),
        Some("wh/feature/part-1.0".to_string())
    );
    assert_eq!(
        get_branch_for_dir(&at, &listing(), CheckoutDir::Start, &c),
        Some("wh/feature".to_string())
    );
    assert_eq!(
        get_branch_for_dir(&at, &listing(), CheckoutDir::Part(100), &c),
        Some("wh/feature/part-1.0".to_string())
    );
    assert_eq!(get_branch_for_dir(&at, &listing(), CheckoutDir::Unknown, &c), None);
    assert_eq!(
        get_branch_for_dir(&managed("feature", Some(300)), &listing(), CheckoutDir::Next, &c),
        None
    );
}

#[test]
fn children_are_the_branches_after() {
    let c = stack_cfg();
    assert_eq!(
        get_children_branches(&managed("feature", Some(100)), &listing(), &c),
        vec![managed("feature", Some(250)), managed("feature", Some(300))]
    );
    assert_eq!(
        get_children_branches(&managed("feature", None), &listing(), &c),
        vec![
            managed("feature", Some(100)),
            managed("feature", Some(250)),
            managed("feature", Some(300))
        ]
    );
    assert!(get_children_branches(&managed("feature", Some(300)), &listing(), &c).is_empty());
    let stack = get_sorted_matching_branches(&listing(), "feature", &c);
    assert_eq!(branches_after(&stack, Some(250)), vec![managed("feature", Some(300))]);
}
