//! The settings kept for a repository: how managed branches are named, and
//! which issue is selected.

use vstd::prelude::*;
use crate::text::{
    append_chars, lemma_split_on_some, split_chars, split_on, to_chars, to_text, trim_end,
    trimmed_end,
};

verus! {

/// The settings that are written to the repository's config file.
#[derive(Debug)]
pub struct SavedConfig {
    /// Name of the main branch (`main`, `master`).
    pub repo_main_branch: String,
    /// The issue that work is linked to, if one is selected.
    pub linked_issue: Option<u64>,
    /// The tag that marks a branch name as managed.
    pub branch_prefix: String,
    /// The organisation that owns the repository.
    pub repo_org: String,
    /// The text that stands between the segments of a branch name.
    pub branch_split: String,
}

/// The saved settings together with what is found out at start-up.
#[derive(Debug)]
pub struct FullConfig {
    pub saved: SavedConfig,
    pub repo_name: String,
    pub github_token: String,
    pub status_file: String,
    pub status_file_backup_dir: String,
}

/// The settings of a repository that names no prefix: the main branch and the
/// selected issue.
#[derive(Debug)]
pub struct Config {
    pub repo_main_branch: String,
    pub linked_issue: Option<i64>,
}

/// The mathematical value of a `SavedConfig`.
pub struct SavedConfigView {
    pub repo_main_branch: Seq<char>,
    pub linked_issue: Option<u64>,
    pub branch_prefix: Seq<char>,
    pub repo_org: Seq<char>,
    pub branch_split: Seq<char>,
}

impl View for SavedConfig {
    type V = SavedConfigView;

    open spec fn view(&self) -> SavedConfigView {
        SavedConfigView {
            repo_main_branch: self.repo_main_branch@,
            linked_issue: self.linked_issue,
            branch_prefix: self.branch_prefix@,
            repo_org: self.repo_org@,
            branch_split: self.branch_split@,
        }
    }
}

/// The separator that a config file without one stands for: `/`.
pub open spec fn default_split_text() -> Seq<char> {
    seq!['/']
}

/// The separator used where the config file names none.
pub fn default_split() -> (split: String)
    ensures
        split@ == default_split_text(),
{
    let mut split = String::new();
    split.push('/');
    assert(split@ =~= default_split_text());
    split
}

/// Unselects the linked issue; nothing else changes.
pub fn clear_selected_issue(cfg: &mut SavedConfig)
    ensures
        final(cfg)@ == (SavedConfigView { linked_issue: None, ..old(cfg)@ }),
{
    cfg.linked_issue = None;
}

/// Selects `issue` as the linked issue; nothing else changes.
pub fn update_selected_issue(cfg: &mut SavedConfig, issue: u64)
    ensures
        final(cfg)@ == (SavedConfigView { linked_issue: Some(issue), ..old(cfg)@ }),
{
    cfg.linked_issue = Some(issue);
}

/// The number of the linked issue, or 0 if none is selected.
pub fn get_selected_issue_number(cfg: &SavedConfig) -> (number: u64)
    ensures
        number == match cfg.linked_issue {
            Some(issue) => issue,
            None => 0,
        },
{
    match cfg.linked_issue {
        Some(issue) => issue,
        None => 0,
    }
}

/// Sets the prefix and the separator of managed branch names; nothing else
/// changes.
pub fn update_prefix_and_split(cfg: &mut SavedConfig, prefix: &str, split: &str)
    ensures
        final(cfg)@ == (SavedConfigView {
            branch_prefix: prefix@,
            branch_split: split@,
            ..old(cfg)@
        }),
{
    cfg.branch_prefix = prefix.to_owned();
    cfg.branch_split = split.to_owned();
}

/// The path of `name` in the directory `dir`: a slash stands between the
/// two unless `dir` is empty or ends with one.
pub open spec fn joined(dir: Seq<char>, name: Seq<char>) -> Seq<char> {
    if dir.len() == 0 || dir.last() == '/' {
        dir + name
    } else {
        dir + seq!['/'] + name
    }
}

fn join(dir: &Vec<char>, name: &str) -> (path: Vec<char>)
    ensures
        path@ == joined(dir@, name@),
{
    let mut path: Vec<char> = Vec::new();
    append_chars(&mut path, dir);
    if dir.len() > 0 && dir[dir.len() - 1] != '/' {
        path.push('/');
    }
    append_chars(&mut path, &to_chars(name));
    assert(path@ =~= joined(dir@, name@));
    path
}

/// The path of the config file of the repository whose top directory is
/// `repo_root`.
pub fn get_saved_config_file_path(repo_root: &str) -> (path: String)
    ensures
        path@ == joined(joined(repo_root@, ".git"@), "GG_CONFIG"@),
{
    to_text(&join(&join(&to_chars(repo_root), ".git"), "GG_CONFIG"))
}

/// The path of the config file of a repository that names no prefix: the
/// same file.
pub fn get_config_file_path(repo_root: &str) -> (path: String)
    ensures
        path@ == joined(joined(repo_root@, ".git"@), "GG_CONFIG"@),
{
    get_saved_config_file_path(repo_root)
}

/// The directory in which the tool keeps what belongs to no repository.
pub fn get_gg_dir_path(home: &str) -> (path: String)
    ensures
        path@ == joined(home@, ".gg"@),
{
    to_text(&join(&to_chars(home), ".gg"))
}

/// The path of the database of the tool.
pub fn get_db_file_path(home: &str) -> (path: String)
    ensures
        path@ == joined(joined(home@, ".gg"@), "db.sqlite"@),
{
    to_text(&join(&join(&to_chars(home), ".gg"), "db.sqlite"))
}

fn without_end(line: &str) -> (text: String)
    ensures
        text@ == trim_end(line@, false),
{
    to_text(&trimmed_end(&to_chars(line), false))
}

/// The top directory of the repository, from what git printed.
pub fn get_repo_root_path(output: &str) -> (root: String)
    ensures
        root@ == trim_end(output@, false),
{
    without_end(output)
}

/// The name of the repository, from what git printed as its top directory:
/// what follows the last slash.
pub fn get_repo_name(output: &str) -> (name: String)
    ensures
        name@ == split_on(trim_end(output@, false), '/').last(),
{
    let root = trimmed_end(&to_chars(output), false);
    let parts = split_chars(&root, '/');
    proof {
        lemma_split_on_some(root@, '/');
    }
    to_text(&parts[parts.len() - 1])
}

/// The settings of a repository, from the answers that the user gave when
/// asked for them; each answer counts without the blanks at its end.
pub fn create_saved_config(main_branch: &str, prefix: &str, org: &str, split: &str) -> (cfg:
    SavedConfig)
    ensures
        cfg@ == (SavedConfigView {
            repo_main_branch: trim_end(main_branch@, false),
            linked_issue: None,
            branch_prefix: trim_end(prefix@, false),
            repo_org: trim_end(org@, false),
            branch_split: trim_end(split@, false),
        }),
{
    SavedConfig {
        repo_main_branch: without_end(main_branch),
        linked_issue: None,
        branch_prefix: without_end(prefix),
        repo_org: without_end(org),
        branch_split: without_end(split),
    }
}

/// The settings of a repository that names no prefix, from the answer that
/// the user gave when asked for the main branch.
pub fn create_config(main_branch: &str) -> (cfg: Config)
    ensures
        cfg.repo_main_branch@ == trim_end(main_branch@, false),
        cfg.linked_issue is None,
{
    Config { repo_main_branch: without_end(main_branch), linked_issue: None }
}

/// The settings in full: the saved ones, and the status log and its backups
/// in the home directory.
pub fn get_full_config(saved: SavedConfig, repo_name: String, github_token: String, home: &str) -> (
    cfg: FullConfig
)
    ensures
        cfg.saved@ == saved@,
        cfg.repo_name@ == repo_name@,
        cfg.github_token@ == github_token@,
        cfg.status_file@ == joined(home@, "status.txt"@),
        cfg.status_file_backup_dir@ == joined(home@, "status_bu"@),
{
    FullConfig {
        saved,
        repo_name,
        github_token,
        status_file: to_text(&join(&to_chars(home), "status.txt")),
        status_file_backup_dir: to_text(&join(&to_chars(home), "status_bu")),
    }
}

impl Config {
    /// Selects `issue` as the linked issue; the main branch stays.
    pub fn update_selected_issue(&mut self, issue: i64)
        ensures
            final(self).linked_issue == Some(issue),
            final(self).repo_main_branch@ == old(self).repo_main_branch@,
    {
        self.linked_issue = Some(issue);
    }

    /// The number of the linked issue, or 0 if none is selected.
    pub fn get_selected_issue_number(&self) -> (number: i64)
        ensures
            number == match self.linked_issue {
                Some(issue) => issue,
                None => 0,
            },
    {
        match self.linked_issue {
            Some(issue) => issue,
            None => 0,
        }
    }
}

} // verus!
