use gg::branch::ParsedBranch;
use gg::config::SavedConfig;
use gg::error::StackError;
use gg::machine::set_hooks_path;
use gg::gateway::GatewayCall;
use gg::transaction::{
    branch_from_tmp, branches_are_equivalent, tmp_for_branch_name, TmpBranchWrapper,
};

fn tx_cfg() -> SavedConfig {
    SavedConfig {
        repo_main_branch: "main".to_string(),
        linked_issue: None,
        branch_prefix: "wh".to_string(),
        repo_org: "org".to_string(),
        branch_split: "/".to_string(),
    }
}

#[test]
fn temporary_names_carry_the_marker() {
    assert_eq!(tmp_for_branch_name("wh/f/part-1.0"), "_tmp_-wh/f/part-1.0");
    assert_eq!(tmp_for_branch_name(""), "_tmp_-");
    assert_eq!(branch_from_tmp("_tmp_-wh/f/part-1.0"), Some("wh/f/part-1.0".to_string()));
    assert_eq!(branch_from_tmp("_tmp_-"), Some(String::new()));
    assert_eq!(branch_from_tmp("wh/f/part-1.0"), None);
    assert_eq!(branch_from_tmp("_tmp_"), None);
    assert_eq!(branch_from_tmp("x_tmp_-wh"), None);
    assert_eq!(branch_from_tmp(&tmp_for_branch_name("any")), Some("any".to_string()));
}

#[test]
fn refs_are_equivalent_when_their_hashes_are() {
    assert!(branches_are_equivalent("abc", "abc"));
    assert!(!branches_are_equivalent("abc", "abd"));
    assert!(!branches_are_equivalent("abc", "abcd"));
    assert!(branches_are_equivalent("", ""));
}

#[test]
fn a_record_names_both_temporary_branches() {
    let b = ParsedBranch { prefix: Some("wh".to_string()), base: "f".to_string(), partx100: Some(200) };
    let record = TmpBranchWrapper::new(b.clone());
    assert_eq!(record.inner, b);
    assert_eq!(record.tmp_branch_name(&tx_cfg()), "_tmp_-wh/f/part-2.0");
    assert_eq!(record.tmp_start_branch_name(&tx_cfg()), "_tmp_-wh/starts/f/part-2.0");
}

#[test]
fn a_record_is_read_from_the_temporary_branch() {
    let record = TmpBranchWrapper::new_from_tmp_branch("_tmp_-wh/f/part-2.0", &tx_cfg()).unwrap();
    assert_eq!(
        record.inner,
        ParsedBranch { prefix: Some("wh".to_string()), base: "f".to_string(), partx100: Some(200) }
    );
    let record = TmpBranchWrapper::new_from_tmp_branch("_tmp_-topic", &tx_cfg()).unwrap();
    assert_eq!(record.inner, ParsedBranch { prefix: None, base: "topic".to_string(), partx100: None });
    assert_eq!(
        TmpBranchWrapper::new_from_tmp_branch("wh/f/part-2.0", &tx_cfg()),
        Err(StackError::NotInTransaction)
    );
    assert_eq!(
        TmpBranchWrapper::new_from_tmp_branch("_tmp_-wh/f/part-2", &tx_cfg()),
        Err(StackError::MalformedTransactionMarker)
    );
    assert_eq!(
        TmpBranchWrapper::new_from_tmp_branch("_tmp_-wh/f/part-1.49", &tx_cfg()),
        Err(StackError::MalformedTransactionMarker)
    );
}

#[test]
fn an_empty_hooks_path_is_unset() {
    assert_eq!(set_hooks_path(String::new()), GatewayCall::UnsetHooksPath);
    assert_eq!(
        set_hooks_path(".githooks".to_string()),
        GatewayCall::SetHooksPath(".githooks".to_string())
    );
    assert_eq!(set_hooks_path(" ".to_string()), GatewayCall::SetHooksPath(" ".to_string()));
}
