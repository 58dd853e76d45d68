//! What the cockpit is told: the repository, its base branch and its worktrees.
use vstd::prelude::*;

use crate::conversation;
use crate::conversation::{Conversation, Reply, ReplyView, Request, RequestView, Script};
use crate::paths;
use crate::paths::{is_absolute, join_path, same_path};
use crate::text;
use crate::text::{same_text, split_whitespace};

verus! {

broadcast use crate::conversation::group_play;

/// The settings that everything else works from.
#[derive(Clone, Debug, Eq)]
pub struct Config {
    pub repo_path: String,
    pub base_branch: String,
    pub deploy_command: Option<Vec<String>>,
    pub worktrees: Vec<WorktreeSpec>,
}

/// A worktree that the settings name.
#[derive(Clone, Debug, Eq)]
pub struct WorktreeSpec {
    pub label: String,
    pub branch: String,
    pub path: Option<String>,
}

/// What a configuration file holds.
#[derive(Clone, Debug, PartialEq, Eq)]
pub struct FileConfig {
    pub base_branch: Option<String>,
    pub deploy_command: Option<String>,
    pub worktree: Option<Vec<FileWorktree>>,
}

/// A worktree as a configuration file names it.
#[derive(Clone, Debug, PartialEq, Eq)]
pub struct FileWorktree {
    pub label: String,
    pub branch: String,
    pub path: Option<String>,
}

/// The settings, by the text that they hold.
pub struct ConfigView {
    pub repo_path: Seq<char>,
    pub base_branch: Seq<char>,
    pub deploy_command: Option<Seq<Seq<char>>>,
    pub worktrees: Seq<SpecView>,
}

/// A named worktree, by the text that it holds.
pub struct SpecView {
    pub label: Seq<char>,
    pub branch: Seq<char>,
    pub path: Option<Seq<char>>,
}

/// A configuration file, by the text that it holds.
pub struct FileView {
    pub base_branch: Option<Seq<char>>,
    pub deploy_command: Option<Seq<char>>,
    pub worktree: Option<Seq<SpecView>>,
}

impl DeepView for Config {
    type V = ConfigView;

    open spec fn deep_view(&self) -> ConfigView {
        ConfigView {
            repo_path: self.repo_path@,
            base_branch: self.base_branch@,
            deploy_command: self.deploy_command.deep_view(),
            worktrees: self.worktrees.deep_view(),
        }
    }
}

impl DeepView for WorktreeSpec {
    type V = SpecView;

    open spec fn deep_view(&self) -> SpecView {
        SpecView { label: self.label@, branch: self.branch@, path: self.path.deep_view() }
    }
}

impl DeepView for FileWorktree {
    type V = SpecView;

    open spec fn deep_view(&self) -> SpecView {
        SpecView { label: self.label@, branch: self.branch@, path: self.path.deep_view() }
    }
}

impl DeepView for FileConfig {
    type V = FileView;

    open spec fn deep_view(&self) -> FileView {
        FileView {
            base_branch: self.base_branch.deep_view(),
            deploy_command: self.deploy_command.deep_view(),
            worktree: self.worktree.deep_view(),
        }
    }
}

/// Whether two worktrees are named the same. Their paths are compared as paths,
/// not as text.
pub open spec fn same_spec(left: SpecView, right: SpecView) -> bool {
    &&& left.label == right.label
    &&& left.branch == right.branch
    &&& match (left.path, right.path) {
        (Some(first), Some(second)) => paths::equal_paths(first, second),
        (None, None) => true,
        _ => false,
    }
}

/// Whether two settings are the same.
pub open spec fn same_config(left: ConfigView, right: ConfigView) -> bool {
    &&& paths::equal_paths(left.repo_path, right.repo_path)
    &&& left.base_branch == right.base_branch
    &&& left.deploy_command == right.deploy_command
    &&& left.worktrees.len() == right.worktrees.len()
    &&& forall|i: int|
        0 <= i < left.worktrees.len() ==> same_spec(
            #[trigger] left.worktrees[i],
            right.worktrees[i],
        )
}

impl PartialEq for WorktreeSpec {
    fn eq(&self, other: &Self) -> (same: bool)
        ensures
            self.deep_view() == other.deep_view() ==> same,
    {
        same_text(self.label.as_str(), other.label.as_str()) && same_text(
            self.branch.as_str(),
            other.branch.as_str(),
        ) && match (&self.path, &other.path) {
            (Some(first), Some(second)) => same_path(first.as_str(), second.as_str()),
            (None, None) => true,
            _ => false,
        }
    }
}

impl vstd::std_specs::cmp::PartialEqSpecImpl for WorktreeSpec {
    open spec fn obeys_eq_spec() -> bool {
        true
    }

    open spec fn eq_spec(&self, other: &Self) -> bool {
        same_spec(self.deep_view(), other.deep_view())
    }
}

fn same_words(left: &Vec<String>, right: &Vec<String>) -> (same: bool)
    ensures
        same == (left.deep_view() == right.deep_view()),
{
    assert(left.deep_view().len() == left.len() && right.deep_view().len() == right.len());
    if left.len() != right.len() {
        return false;
    }
    let mut i: usize = 0;
    while i < left.len()
        invariant
            i <= left.len() == right.len(),
            forall|j: int| 0 <= j < i ==> (#[trigger] left[j])@ == right[j]@,
        decreases left.len() - i,
    {
        assert(left.deep_view()[i as int] == left[i as int]@);
        assert(right.deep_view()[i as int] == right[i as int]@);
        if !same_text(left[i].as_str(), right[i].as_str()) {
            return false;
        }
        i = i + 1;
    }
    assert(left.deep_view() =~= right.deep_view());
    true
}

impl PartialEq for Config {
    fn eq(&self, other: &Self) -> (same: bool)
        ensures
            self.deep_view() == other.deep_view() ==> same,
    {
        let ghost left = self.deep_view();
        let ghost right = other.deep_view();
        let same_deploy = match (&self.deploy_command, &other.deploy_command) {
            (Some(first), Some(second)) => same_words(first, second),
            (None, None) => true,
            _ => false,
        };
        if !same_path(self.repo_path.as_str(), other.repo_path.as_str()) || !same_text(
            self.base_branch.as_str(),
            other.base_branch.as_str(),
        ) || !same_deploy || self.worktrees.len() != other.worktrees.len() {
            return false;
        }
        let mut i: usize = 0;
        while i < self.worktrees.len()
            invariant
                left == self.deep_view(),
                right == other.deep_view(),
                i <= self.worktrees.len() == other.worktrees.len(),
                paths::equal_paths(left.repo_path, right.repo_path),
                left.base_branch == right.base_branch,
                left.deploy_command == right.deploy_command,
                forall|j: int|
                    0 <= j < i ==> same_spec(#[trigger] left.worktrees[j], right.worktrees[j]),
            decreases self.worktrees.len() - i,
        {
            assert(left.worktrees[i as int] == self.worktrees[i as int].deep_view());
            assert(right.worktrees[i as int] == other.worktrees[i as int].deep_view());
            if self.worktrees[i] != other.worktrees[i] {
                return false;
            }
            i = i + 1;
        }
        true
    }
}

impl vstd::std_specs::cmp::PartialEqSpecImpl for Config {
    open spec fn obeys_eq_spec() -> bool {
        true
    }

    open spec fn eq_spec(&self, other: &Self) -> bool {
        same_config(self.deep_view(), other.deep_view())
    }
}

/// A path as the repository sees it: one that is not absolute starts there.
pub open spec fn seen_from(repo_path: Seq<char>, path: Seq<char>) -> Seq<char> {
    if paths::absolute_path(path) {
        path
    } else {
        paths::joined_path(repo_path, path)
    }
}

/// A worktree of the file, with its path as the repository sees it.
pub open spec fn placed(repo_path: Seq<char>, row: SpecView) -> SpecView {
    SpecView {
        path: match row.path {
            Some(path) => Some(seen_from(repo_path, path)),
            None => None,
        },
        ..row
    }
}

/// The settings that come of a repository, a base branch given beside it, and
/// the configuration file if there is one. The file has the last word.
pub open spec fn settings(
    repo_path: Seq<char>,
    base: Seq<char>,
    file: Option<FileView>,
) -> ConfigView {
    ConfigView {
        repo_path,
        base_branch: match file {
            Some(FileView { base_branch: Some(branch), .. }) => branch,
            _ => base,
        },
        deploy_command: match file {
            Some(FileView { deploy_command: Some(command), .. }) => Some(text::words(command)),
            _ => None,
        },
        worktrees: match file {
            Some(FileView { worktree: Some(rows), .. }) => rows.map_values(
                |row: SpecView| placed(repo_path, row),
            ),
            _ => seq![],
        },
    }
}

/// The name that a configuration file has in a repository.
pub open spec fn default_file(repo_path: Seq<char>) -> Seq<char> {
    paths::joined_path(repo_path, "sp.toml"@)
}

/// The configuration file to read: the one that is given, or else the one in the
/// repository if it exists.
pub open spec fn config_file_script(given: Option<Seq<char>>, repo_path: Seq<char>) -> Script<
    Option<Seq<char>>,
> {
    match given {
        Some(path) => Script::End(Some(path)),
        None => Script::Ask(
            RequestView::Exists { path: default_file(repo_path) },
            |reply: ReplyView|
                Script::End(
                    if reply == ReplyView::Exists(true) {
                        Some(default_file(repo_path))
                    } else {
                        None
                    },
                ),
        ),
    }
}

/// Finds the configuration file to read.
pub fn config_file(
    given: Option<String>,
    repo_path: &str,
    talk: &mut Conversation,
) -> (outcome: Result<Option<String>, Request>)
    ensures
        (final(talk).record(), conversation::seen(outcome)) == conversation::play(
            config_file_script(given.deep_view(), repo_path@),
            old(talk).record(),
        ),
{
    if given.is_some() {
        return Ok(given);
    }
    let candidate = join_path(repo_path, "sp.toml");
    match talk.ask(Request::Exists { path: candidate.clone() }) {
        Err(request) => Err(request),
        Ok(reply) => match reply {
            Reply::Exists(true) => Ok(Some(candidate)),
            _ => Ok(None),
        },
    }
}

impl Config {
    /// Puts the settings together.
    pub fn load(repo_path: String, base: String, file: Option<FileConfig>) -> (config: Config)
        ensures
            config.deep_view() == settings(repo_path@, base@, file.deep_view()),
    {
        let mut base_branch = base;
        let mut deploy_command: Option<Vec<String>> = None;
        let mut worktrees: Vec<WorktreeSpec> = Vec::new();
        if let Some(file) = file {
            if let Some(branch) = file.base_branch {
                base_branch = branch;
            }
            if let Some(command) = file.deploy_command {
                deploy_command = Some(shell_words(command.as_str()));
            }
            if let Some(rows) = file.worktree {
                worktrees = placed_rows(repo_path.as_str(), &rows);
            }
        }
        let config = Config { repo_path, base_branch, deploy_command, worktrees };
        assert(config.deep_view().worktrees =~= settings(
            repo_path@,
            base@,
            file.deep_view(),
        ).worktrees);
        config
    }
}

fn placed_rows(repo_path: &str, rows: &Vec<FileWorktree>) -> (worktrees: Vec<WorktreeSpec>)
    ensures
        worktrees.deep_view() == rows.deep_view().map_values(
            |row: SpecView| placed(repo_path@, row),
        ),
{
    let mut worktrees: Vec<WorktreeSpec> = Vec::new();
    let mut i: usize = 0;
    while i < rows.len()
        invariant
            i <= rows.len(),
            worktrees.len() == i,
            forall|j: int|
                0 <= j < i ==> (#[trigger] worktrees[j]).deep_view() == placed(
                    repo_path@,
                    rows[j].deep_view(),
                ),
        decreases rows.len() - i,
    {
        let path = match &rows[i].path {
            Some(path) => Some(expand_relative_path(repo_path, path.clone())),
            None => None,
        };
        worktrees.push(
            WorktreeSpec { label: rows[i].label.clone(), branch: rows[i].branch.clone(), path },
        );
        i = i + 1;
    }
    assert(worktrees.deep_view() =~= rows.deep_view().map_values(
        |row: SpecView| placed(repo_path@, row),
    ));
    worktrees
}

/// Takes a path that is not absolute as one that starts at the repository.
pub fn expand_relative_path(repo_path: &str, path: String) -> (expanded: String)
    ensures
        expanded@ == seen_from(repo_path@, path@),
{
    if is_absolute(path.as_str()) {
        path
    } else {
        join_path(repo_path, path.as_str())
    }
}

/// The words of a command.
pub fn shell_words(command: &str) -> (found: Vec<String>)
    ensures
        found.deep_view() == text::words(command@),
{
    split_whitespace(command)
}

}
