use gg::config::{
    clear_selected_issue, create_config, create_saved_config, default_split, get_config_file_path,
    get_db_file_path, get_full_config, get_gg_dir_path, get_repo_name, get_repo_root_path,
    get_saved_config_file_path, get_selected_issue_number, update_prefix_and_split,
    update_selected_issue, Config, SavedConfig,
};

fn saved() -> SavedConfig {
    SavedConfig {
        repo_main_branch: "main".to_string(),
        linked_issue: Some(7),
        branch_prefix: "wh".to_string(),
        repo_org: "org".to_string(),
        branch_split: "/".to_string(),
    }
}

fn same(a: &SavedConfig, b: &SavedConfig) -> bool {
    a.repo_main_branch == b.repo_main_branch
        && a.linked_issue == b.linked_issue
        && a.branch_prefix == b.branch_prefix
        && a.repo_org == b.repo_org
        && a.branch_split == b.branch_split
}

#[test]
fn selected_issue_is_set_read_and_cleared() {
    let mut c = saved();
    assert_eq!(get_selected_issue_number(&c), 7);
    update_selected_issue(&mut c, 42);
    assert!(same(&c, &SavedConfig { linked_issue: Some(42), ..saved() }));
    assert_eq!(get_selected_issue_number(&c), 42);
    update_selected_issue(&mut c, 0);
    assert_eq!(c.linked_issue, Some(0));
    assert_eq!(get_selected_issue_number(&c), 0);
    clear_selected_issue(&mut c);
    assert!(same(&c, &SavedConfig { linked_issue: None, ..saved() }));
    assert_eq!(get_selected_issue_number(&c), 0);
}

#[test]
fn prefix_and_separator_are_set_together() {
    let mut c = saved();
    update_prefix_and_split(&mut c, "me", "_");
    assert!(same(
        &c,
        &SavedConfig { branch_prefix: "me".to_string(), branch_split: "_".to_string(), ..saved() }
    ));
}

#[test]
fn the_separator_is_a_slash_unless_named() {
    assert_eq!(default_split(), "/");
}

#[test]
fn the_first_config_has_its_own_selected_issue() {
    let mut c = Config { repo_main_branch: "main".to_string(), linked_issue: None };
    assert_eq!(c.get_selected_issue_number(), 0);
    c.update_selected_issue(-3);
    assert_eq!(c.linked_issue, Some(-3));
    assert_eq!(c.get_selected_issue_number(), -3);
    assert_eq!(c.repo_main_branch, "main");
}

#[test]
fn paths_are_joined_with_one_slash() {
    assert_eq!(get_saved_config_file_path("/home/me/repo"), "/home/me/repo/.git/GG_CONFIG");
    assert_eq!(get_saved_config_file_path("/home/me/repo/"), "/home/me/repo/.git/GG_CONFIG");
    assert_eq!(get_saved_config_file_path(""), ".git/GG_CONFIG");
    assert_eq!(get_saved_config_file_path("/"), "/.git/GG_CONFIG");
    assert_eq!(get_config_file_path("/r"), "/r/.git/GG_CONFIG");
    assert_eq!(get_gg_dir_path("/home/me"), "/home/me/.gg");
    assert_eq!(get_db_file_path("/home/me"), "/home/me/.gg/db.sqlite");
}

#[test]
fn paths_agree_with_the_standard_library() {
    for root in ["/home/me/repo", "/home/me/repo/", "", "/", "relative/dir"] {
        let expected = std::path::Path::new(root).join(".git").join("GG_CONFIG");
        assert_eq!(get_saved_config_file_path(root), expected.to_str().unwrap());
    }
}

#[test]
fn the_repository_is_named_after_its_directory() {
    assert_eq!(get_repo_root_path("/home/me/repo\n"), "/home/me/repo");
    assert_eq!(get_repo_name("/home/me/repo\n"), "repo");
    assert_eq!(get_repo_name("repo"), "repo");
    assert_eq!(get_repo_name("/home/me/repo/\n"), "");
    assert_eq!(get_repo_name(""), "");
}

#[test]
fn the_answers_of_the_user_make_a_config() {
    let c = create_saved_config("master\n", "wh \n", "acme\r\n", "/\n");
    assert!(same(
        &c,
        &SavedConfig {
            repo_main_branch: "master".to_string(),
            linked_issue: None,
            branch_prefix: "wh".to_string(),
            repo_org: "acme".to_string(),
            branch_split: "/".to_string(),
        }
    ));
    let c = create_config("main\n");
    assert_eq!(c.repo_main_branch, "main");
    assert_eq!(c.linked_issue, None);
}

#[test]
fn the_full_config_places_the_status_log_at_home() {
    let c = get_full_config(saved(), "repo".to_string(), "token".to_string(), "/home/me");
    assert!(same(&c.saved, &saved()));
    assert_eq!(c.repo_name, "repo");
    assert_eq!(c.github_token, "token");
    assert_eq!(c.status_file, "/home/me/status.txt");
    assert_eq!(c.status_file_backup_dir, "/home/me/status_bu");
}
