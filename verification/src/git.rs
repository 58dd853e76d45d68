//! Reads the state of a repository and its worktrees from git.
use vstd::prelude::*;

use crate::config::{Config, ConfigView, SpecView, WorktreeSpec};
use crate::conversation;
use crate::conversation::{Conversation, Reply, ReplyView, Request, RequestView, Script};
use crate::model::{
    RepoStatus, RepoView, RowView, Snapshot, SnapshotView, WorktreeRow, WorktreeState,
};
use crate::number;
use crate::number::{parse_integer, unsigned_text};
use crate::order;
use crate::order::sort_rows;
use crate::paths;
use crate::paths::{file_name, join_path, parent, same_path};
use crate::text;
use crate::text::{
    blank, same_text, split_lines, split_whitespace, strip_prefix, take_chars, trim,
};
use crate::util;
use crate::util::{compact, owned, run_output};

verus! {

broadcast use crate::conversation::group_play;

/// A worktree as git lists it. One without a branch has an empty name for it.
#[derive(Clone, Debug, Eq)]
pub struct WorktreeEntry {
    pub path: String,
    pub branch: String,
}

/// A listed worktree, by the text that it holds.
pub struct EntryView {
    pub path: Seq<char>,
    pub branch: Seq<char>,
}

impl DeepView for WorktreeEntry {
    type V = EntryView;

    open spec fn deep_view(&self) -> EntryView {
        EntryView { path: self.path@, branch: self.branch@ }
    }
}

/// Whether two listed worktrees are the same. Their paths are compared as paths,
/// not as text.
pub open spec fn same_entry(left: EntryView, right: EntryView) -> bool {
    paths::equal_paths(left.path, right.path) && left.branch == right.branch
}

impl PartialEq for WorktreeEntry {
    fn eq(&self, other: &Self) -> (same: bool)
        ensures
            self.deep_view() == other.deep_view() ==> same,
    {
        same_path(self.path.as_str(), other.path.as_str()) && same_text(
            self.branch.as_str(),
            other.branch.as_str(),
        )
    }
}

impl vstd::std_specs::cmp::PartialEqSpecImpl for WorktreeEntry {
    open spec fn obeys_eq_spec() -> bool {
        true
    }

    open spec fn eq_spec(&self, other: &Self) -> bool {
        same_entry(self.deep_view(), other.deep_view())
    }
}

/// Runs git in a directory for what it writes.
pub fn git_stdout(argv: &[&str], cwd: &str, talk: &mut Conversation) -> (outcome: Result<
    String,
    Request,
>)
    ensures
        (final(talk).record(), conversation::seen(outcome)) == conversation::play(
            util::output_script(argv.deep_view(), Some(cwd@)),
            old(talk).record(),
        ),
{
    run_output(argv, Some(cwd), talk)
}

/// Runs a program in a directory to learn whether it succeeds.
pub open spec fn success_script(argv: Seq<Seq<char>>, cwd: Seq<char>) -> Script<bool> {
    Script::Ask(
        RequestView::Status { argv, cwd: Some(cwd) },
        |reply: ReplyView| Script::End(conversation::succeeded(reply)),
    )
}

/// Runs git in a directory to learn whether it succeeds.
pub fn git_success(argv: &[&str], cwd: &str, talk: &mut Conversation) -> (outcome: Result<
    bool,
    Request,
>)
    requires
        argv@.len() > 0,
    ensures
        (final(talk).record(), conversation::seen(outcome)) == conversation::play(
            success_script(argv.deep_view(), cwd@),
            old(talk).record(),
        ),
{
    match talk.ask(Request::Status { argv: owned(argv), cwd: Some(cwd.to_owned()) }) {
        Err(request) => Err(request),
        Ok(reply) => Ok(reply.success()),
    }
}

/// Reads the branch that a checkout is on.
pub open spec fn branch_script(path: Seq<char>) -> Script<Seq<char>> {
    conversation::chain(
        util::output_script(seq!["git"@, "branch"@, "--show-current"@], Some(path)),
        |output: Seq<char>| Script::End(text::trimmed(output)),
    )
}

/// The branch that a checkout is on; empty if it is on none.
pub fn worktree_branch(path: &str, talk: &mut Conversation) -> (outcome: Result<String, Request>)
    ensures
        (final(talk).record(), conversation::seen(outcome)) == conversation::play(
            branch_script(path@),
            old(talk).record(),
        ),
{
    let argv = ["git", "branch", "--show-current"];
    assert(argv.deep_view() =~= seq!["git"@, "branch"@, "--show-current"@]);
    match git_stdout(&argv, path, talk) {
        Err(request) => Err(request),
        Ok(output) => Ok(trim(output.as_str())),
    }
}

/// How many lines of a text hold more than white space.
pub open spec fn filled_lines(output: Seq<char>) -> nat {
    text::lines(output).filter(|line: Seq<char>| !text::is_blank(line)).len()
}

/// What there is to say of a number of changed files; nothing if there are none.
pub open spec fn change_summary(count: nat) -> Seq<char> {
    if count == 0 {
        seq![]
    } else if count == 1 {
        "1 changed file"@
    } else {
        number::digits(count) + " changed files"@
    }
}

/// Reads how many files of a checkout are changed.
pub open spec fn status_script(path: Seq<char>) -> Script<Seq<char>> {
    conversation::chain(
        util::output_script(seq!["git"@, "status"@, "--short"@], Some(path)),
        |output: Seq<char>| Script::End(change_summary(filled_lines(output))),
    )
}

fn count_filled_lines(output: &str) -> (count: usize)
    ensures
        count == filled_lines(output@),
{
    let found = split_lines(output);
    let ghost views = found.deep_view();
    let ghost filled = |line: Seq<char>| !text::is_blank(line);
    let mut count: usize = 0;
    let mut i: usize = 0;
    proof {
        reveal(Seq::filter);
    }
    while i < found.len()
        invariant
            i <= found.len(),
            count <= i,
            views == found.deep_view(),
            filled == |line: Seq<char>| !text::is_blank(line),
            count == views.take(i as int).filter(filled).len(),
        decreases found.len() - i,
    {
        proof {
            reveal(Seq::filter);
            assert(views.take(i + 1).drop_last() =~= views.take(i as int));
        }
        if !blank(found[i].as_str()) {
            count = count + 1;
        }
        i = i + 1;
    }
    assert(views.take(i as int) =~= views);
    count
}

/// How many files of a checkout are changed, in words; empty if none is.
pub fn worktree_status(path: &str, talk: &mut Conversation) -> (outcome: Result<String, Request>)
    ensures
        (final(talk).record(), conversation::seen(outcome)) == conversation::play(
            status_script(path@),
            old(talk).record(),
        ),
{
    let argv = ["git", "status", "--short"];
    assert(argv.deep_view() =~= seq!["git"@, "status"@, "--short"@]);
    match git_stdout(&argv, path, talk) {
        Err(request) => Err(request),
        Ok(output) => {
            let count = count_filled_lines(output.as_str());
            let summary = if count == 0 {
                String::new()
            } else if count == 1 {
                "1 changed file".to_owned()
            } else {
                unsigned_text(count as u64).concat(" changed files")
            };
            assert(summary@ =~= change_summary(count as nat));
            Ok(summary)
        },
    }
}

/// Reads the commit that a name stands for.
pub open spec fn ref_script(repo_path: Seq<char>, reference: Seq<char>) -> Script<Seq<char>> {
    conversation::chain(
        util::output_script(seq!["git"@, "rev-parse"@, reference], Some(repo_path)),
        |output: Seq<char>| Script::End(text::trimmed(output)),
    )
}

/// The commit that a name stands for; empty if there is none.
pub fn git_ref(repo_path: &str, reference: &str, talk: &mut Conversation) -> (outcome: Result<
    String,
    Request,
>)
    ensures
        (final(talk).record(), conversation::seen(outcome)) == conversation::play(
            ref_script(repo_path@, reference@),
            old(talk).record(),
        ),
{
    let argv = ["git", "rev-parse", reference];
    assert(argv.deep_view() =~= seq!["git"@, "rev-parse"@, reference@]);
    match git_stdout(&argv, repo_path, talk) {
        Err(request) => Err(request),
        Ok(output) => Ok(trim(output.as_str())),
    }
}

/// The first eight characters of a commit's name, or a word for none.
pub open spec fn short_name(value: Seq<char>) -> Seq<char> {
    if value.len() == 0 {
        "unknown"@
    } else if value.len() <= 8 {
        value
    } else {
        value.take(8)
    }
}

/// Shortens a commit's name.
pub fn short_sha(value: &str) -> (short: String)
    ensures
        short@ == short_name(value@),
{
    if value.is_empty() {
        "unknown".to_owned()
    } else {
        assert(value@.take(value@.len() as int) =~= value@);
        take_chars(value, 8)
    }
}

/// What can be done with a worktree, given what is known of it.
pub open spec fn state_of(
    present: bool,
    branch_exists: bool,
    expected_branch: Seq<char>,
    current_branch: Seq<char>,
    dirty_summary: Seq<char>,
    ahead: int,
    behind: int,
) -> WorktreeState {
    if !present || !branch_exists {
        WorktreeState::Missing
    } else if current_branch != expected_branch {
        WorktreeState::WrongBranch
    } else if dirty_summary.len() > 0 {
        WorktreeState::Dirty
    } else if ahead > 0 {
        WorktreeState::Ready
    } else if behind > 0 {
        WorktreeState::Behind
    } else {
        WorktreeState::Merged
    }
}

/// Decides what can be done with a worktree.
pub fn worktree_state(
    present: bool,
    branch_exists: bool,
    expected_branch: &str,
    current_branch: &str,
    dirty_summary: &str,
    ahead: i64,
    behind: i64,
) -> (state: WorktreeState)
    ensures
        state == state_of(
            present,
            branch_exists,
            expected_branch@,
            current_branch@,
            dirty_summary@,
            ahead as int,
            behind as int,
        ),
{
    if !present || !branch_exists {
        WorktreeState::Missing
    } else if !same_text(current_branch, expected_branch) {
        WorktreeState::WrongBranch
    } else if !dirty_summary.is_empty() {
        WorktreeState::Dirty
    } else if ahead > 0 {
        WorktreeState::Ready
    } else if behind > 0 {
        WorktreeState::Behind
    } else {
        WorktreeState::Merged
    }
}

/// Whether a line of git's list opens the entry of a worktree.
pub open spec fn opens_entry(line: Seq<char>) -> bool {
    text::behind(line, "worktree "@) is Some
}

/// The branch that a line of git's list names, if it names one.
pub open spec fn named_branch(line: Seq<char>) -> Option<Seq<char>> {
    match text::behind(line, "branch "@) {
        None => None,
        Some(name) => match text::behind(name, "refs/heads/"@) {
            None => Some(name),
            Some(short) => Some(short),
        },
    }
}

/// The branch of an entry whose lines start at `from`: the last one that they
/// name, or `known` if they name none. A blank line ends the entry, and so does
/// the line that opens the next one.
pub open spec fn entry_branch(
    list: Seq<Seq<char>>,
    from: int,
    known: Seq<char>,
) -> Seq<char>
    decreases list.len() - from,
{
    if !(0 <= from < list.len()) || text::is_blank(list[from]) || opens_entry(list[from]) {
        known
    } else {
        match named_branch(list[from]) {
            Some(branch) => entry_branch(list, from + 1, branch),
            None => entry_branch(list, from + 1, known),
        }
    }
}

/// The worktrees that the lines of git's list from `from` on open.
pub open spec fn entries_from(list: Seq<Seq<char>>, from: int) -> Seq<EntryView>
    decreases list.len() - from,
{
    if !(0 <= from < list.len()) {
        seq![]
    } else {
        match text::behind(list[from], "worktree "@) {
            Some(path) => seq![
                EntryView { path, branch: entry_branch(list, from + 1, seq![]) },
            ] + entries_from(list, from + 1),
            None => entries_from(list, from + 1),
        }
    }
}

/// The worktrees that git's porcelain list names.
pub open spec fn listed_entries(output: Seq<char>) -> Seq<EntryView> {
    entries_from(text::lines(output), 0)
}

proof fn lemma_opening_line_is_filled(line: Seq<char>)
    requires
        opens_entry(line),
    ensures
        !text::is_blank(line),
{
    reveal_strlit("worktree ");
    assert(line.subrange(0, "worktree "@.len() as int)[0] == 'w');
    assert(!text::is_white(line[0]));
}

/// Reads the worktrees from git's porcelain list.
pub fn parse_worktree_list(output: &str) -> (entries: Vec<WorktreeEntry>)
    ensures
        entries.deep_view() == listed_entries(output@),
{
    let found = split_lines(output);
    let ghost list = found.deep_view();
    let mut entries: Vec<WorktreeEntry> = Vec::new();
    let mut current: Option<WorktreeEntry> = None;
    let mut i: usize = 0;
    while i < found.len()
        invariant
            i <= found.len(),
            list == found.deep_view(),
            entries.deep_view() + open_entries(current.deep_view(), list, i as int)
                + entries_from(list, i as int) == entries_from(list, 0),
        decreases found.len() - i,
    {
        let line = found[i].as_str();
        assert(line@ == list[i as int]);
        let ghost before = entries.deep_view();
        let ghost pending = open_entries(current.deep_view(), list, i as int);
        if blank(line) {
            proof {
                if opens_entry(line@) {
                    lemma_opening_line_is_filled(line@);
                }
            }
            if let Some(entry) = current.take() {
                entries.push(entry);
            }
            assert(entries.deep_view() =~= before + pending);
            assert(open_entries(current.deep_view(), list, i + 1) =~= seq![]);
        } else if let Some(path) = strip_prefix(line, "worktree ") {
            if let Some(entry) = current.take() {
                entries.push(entry);
            }
            assert(entries.deep_view() =~= before + pending);
            let branch = String::new();
            assert(branch@ =~= seq![]);
            current = Some(WorktreeEntry { path, branch });
            assert(open_entries(current.deep_view(), list, i + 1) + entries_from(list, i + 1)
                =~= entries_from(list, i as int));
        } else if let Some(name) = strip_prefix(line, "branch ") {
            let branch = match strip_prefix(name.as_str(), "refs/heads/") {
                Some(short) => short,
                None => name,
            };
            assert(named_branch(line@) == Some(branch@));
            if let Some(entry) = current.take() {
                current = Some(WorktreeEntry { path: entry.path, branch });
            }
            assert(open_entries(current.deep_view(), list, i + 1) =~= pending);
        }
        i = i + 1;
        assert(entries.deep_view() + open_entries(current.deep_view(), list, i as int)
            + entries_from(list, i as int) =~= before + pending + entries_from(list, i - 1));
    }
    let ghost before = entries.deep_view();
    let ghost pending = open_entries(current.deep_view(), list, i as int);
    if let Some(entry) = current {
        entries.push(entry);
    }
    assert(entries.deep_view() =~= before + pending);
    assert(entries.deep_view() =~= entries_from(list, 0));
    entries
}

/// The entry that is still open before line `from`, with the branch that the
/// lines to come give it.
spec fn open_entries(current: Option<EntryView>, list: Seq<Seq<char>>, from: int) -> Seq<
    EntryView,
> {
    match current {
        None => seq![],
        Some(entry) => seq![
            EntryView { path: entry.path, branch: entry_branch(list, from, entry.branch) },
        ],
    }
}

/// Lists the worktrees of a repository.
pub open spec fn entries_script(repo_path: Seq<char>) -> Script<Seq<EntryView>> {
    conversation::chain(
        util::output_script(
            seq!["git"@, "worktree"@, "list"@, "--porcelain"@],
            Some(repo_path),
        ),
        |output: Seq<char>| Script::End(listed_entries(output)),
    )
}

fn git_worktree_entries(repo_path: &str, talk: &mut Conversation) -> (outcome: Result<
    Vec<WorktreeEntry>,
    Request,
>)
    ensures
        (final(talk).record(), conversation::seen(outcome)) == conversation::play(
            entries_script(repo_path@),
            old(talk).record(),
        ),
{
    let argv = ["git", "worktree", "list", "--porcelain"];
    assert(argv.deep_view() =~= seq!["git"@, "worktree"@, "list"@, "--porcelain"@]);
    match git_stdout(&argv, repo_path, talk) {
        Err(request) => Err(request),
        Ok(output) => Ok(parse_worktree_list(output.as_str())),
    }
}

/// The number that a text writes, or zero if it writes none.
pub open spec fn number_or_zero(value: Seq<char>) -> i64 {
    match number::integer_value(value) {
        Some(number) => number as i64,
        None => 0,
    }
}

/// How far a branch is ahead and behind, as git counts it: behind, then ahead.
pub open spec fn counts_of(output: Seq<char>) -> (i64, i64) {
    let parts = text::words(output);
    if parts.len() == 2 {
        (number_or_zero(parts[1]), number_or_zero(parts[0]))
    } else {
        (0, 0)
    }
}

/// Reads how far a branch is ahead of the base branch, and how far behind it.
pub open spec fn counts_script(
    repo_path: Seq<char>,
    base_branch: Seq<char>,
    branch: Seq<char>,
) -> Script<(i64, i64)> {
    conversation::chain(
        util::output_script(
            seq![
                "git"@,
                "rev-list"@,
                "--left-right"@,
                "--count"@,
                base_branch + "..."@ + branch,
            ],
            Some(repo_path),
        ),
        |output: Seq<char>| Script::End(counts_of(output)),
    )
}

/// Reads the counts that git wrote.
pub fn parse_counts(output: &str) -> (counts: (i64, i64))
    ensures
        counts == counts_of(output@),
{
    let parts = split_whitespace(output);
    if parts.len() != 2 {
        return (0, 0);
    }
    assert(parts.deep_view()[0] == parts[0]@);
    assert(parts.deep_view()[1] == parts[1]@);
    let behind: i64 = match parse_integer(parts[0].as_str()) {
        Some(number) => number,
        None => 0,
    };
    let ahead: i64 = match parse_integer(parts[1].as_str()) {
        Some(number) => number,
        None => 0,
    };
    (ahead, behind)
}

fn branch_counts(
    repo_path: &str,
    base_branch: &str,
    branch: &str,
    talk: &mut Conversation,
) -> (outcome: Result<(i64, i64), Request>)
    ensures
        (final(talk).record(), conversation::seen(outcome)) == conversation::play(
            counts_script(repo_path@, base_branch@, branch@),
            old(talk).record(),
        ),
{
    let range = base_branch.to_owned().concat("...").concat(branch);
    let argv = ["git", "rev-list", "--left-right", "--count", range.as_str()];
    assert(argv.deep_view() =~= seq![
        "git"@,
        "rev-list"@,
        "--left-right"@,
        "--count"@,
        base_branch@ + "..."@ + branch@,
    ]);
    match git_stdout(&argv, repo_path, talk) {
        Err(request) => Err(request),
        Ok(output) => Ok(parse_counts(output.as_str())),
    }
}

/// Finds the canonical form of a path; a path that has none stands for itself.
pub open spec fn canonical_script(path: Seq<char>) -> Script<Seq<char>> {
    Script::Ask(
        RequestView::Canonicalize { path },
        |reply: ReplyView|
            Script::End(
                match reply {
                    ReplyView::Canonical(found) => found,
                    _ => path,
                },
            ),
    )
}

fn canonical_string(path: &str, talk: &mut Conversation) -> (outcome: Result<String, Request>)
    ensures
        (final(talk).record(), conversation::seen(outcome)) == conversation::play(
            canonical_script(path@),
            old(talk).record(),
        ),
{
    match talk.ask(Request::Canonicalize { path: path.to_owned() }) {
        Err(request) => Err(request),
        Ok(reply) => match reply {
            Reply::Canonical(found) => Ok(found.clone()),
            _ => Ok(path.to_owned()),
        },
    }
}

/// The row of a worktree, given what was found out about it.
pub open spec fn row_of(
    spec: SpecView,
    path: Seq<char>,
    present: bool,
    branch_exists: bool,
    current_branch: Seq<char>,
    dirty_summary: Seq<char>,
    counts: (i64, i64),
    subject: Seq<char>,
) -> RowView {
    RowView {
        label: spec.label,
        branch: spec.branch,
        path,
        current_branch,
        state: state_of(
            present,
            branch_exists,
            spec.branch,
            current_branch,
            dirty_summary,
            counts.0 as int,
            counts.1 as int,
        ),
        dirty: dirty_summary.len() > 0,
        summary: if dirty_summary.len() == 0 {
            "clean"@
        } else {
            dirty_summary
        },
        ahead: counts.0,
        behind: counts.1,
        subject,
    }
}

/// `script` where it is wanted, and `otherwise` without a word where it is not.
pub open spec fn only_if<T>(wanted: bool, script: Script<T>, otherwise: T) -> Script<T> {
    if wanted {
        script
    } else {
        Script::End(otherwise)
    }
}

/// Reads the first line of the last commit's message, cut to fit a line.
pub open spec fn subject_script(repo_path: Seq<char>, branch: Seq<char>) -> Script<Seq<char>> {
    conversation::chain(
        util::output_script(
            seq!["git"@, "log"@, "-1"@, "--pretty=%s"@, branch],
            Some(repo_path),
        ),
        |output: Seq<char>| Script::End(util::compacted(output, 100)),
    )
}

/// Whether a checkout stands at a path.
pub open spec fn present_script(path: Seq<char>) -> Script<bool> {
    Script::Ask(
        RequestView::Exists { path: paths::joined_path(path, ".git"@) },
        |reply: ReplyView| Script::End(reply == ReplyView::Exists(true)),
    )
}

/// Whether a repository knows a branch.
pub open spec fn known_script(repo_path: Seq<char>, branch: Seq<char>) -> Script<bool> {
    success_script(seq!["git"@, "rev-parse"@, "--verify"@, branch], repo_path)
}

/// Finds out what there is to know of a worktree at a path. What is missing is
/// not asked about.
pub open spec fn row_script(config: ConfigView, spec: SpecView, path: Seq<char>) -> Script<
    RowView,
> {
    conversation::chain(
        present_script(path),
        |present: bool|
            conversation::chain(
                known_script(config.repo_path, spec.branch),
                |branch_exists: bool|
                    conversation::chain(
                        only_if(present, branch_script(path), seq![]),
                        |current_branch: Seq<char>|
                            conversation::chain(
                                only_if(present, status_script(path), seq![]),
                                |dirty_summary: Seq<char>|
                                    conversation::chain(
                                        only_if(
                                            branch_exists,
                                            counts_script(
                                                config.repo_path,
                                                config.base_branch,
                                                spec.branch,
                                            ),
                                            (0i64, 0i64),
                                        ),
                                        |counts: (i64, i64)|
                                            conversation::chain(
                                                only_if(
                                                    branch_exists,
                                                    subject_script(config.repo_path, spec.branch),
                                                    seq![],
                                                ),
                                                |subject: Seq<char>|
                                                    Script::End(
                                                        row_of(
                                                            spec,
                                                            path,
                                                            present,
                                                            branch_exists,
                                                            current_branch,
                                                            dirty_summary,
                                                            counts,
                                                            subject,
                                                        ),
                                                    ),
                                            ),
                                    ),
                            ),
                    ),
            ),
    )
}

/// Whether a checkout stands at a path.
pub(crate) fn checkout_present(path: &str, talk: &mut Conversation) -> (outcome: Result<
    bool,
    Request,
>)
    ensures
        (final(talk).record(), conversation::seen(outcome)) == conversation::play(
            present_script(path@),
            old(talk).record(),
        ),
{
    match talk.ask(Request::Exists { path: join_path(path, ".git") }) {
        Err(request) => Err(request),
        Ok(reply) => match reply {
            Reply::Exists(true) => Ok(true),
            _ => Ok(false),
        },
    }
}

fn row_for(config: &Config, spec: &WorktreeSpec, path: String, talk: &mut Conversation) -> (outcome:
    Result<WorktreeRow, Request>)
    ensures
        (final(talk).record(), conversation::seen(outcome)) == conversation::play(
            row_script(config.deep_view(), spec.deep_view(), path@),
            old(talk).record(),
        ),
{
    let repo_path = config.repo_path.as_str();
    let branch = spec.branch.as_str();
    let present = match checkout_present(path.as_str(), talk) {
        Err(request) => return Err(request),
        Ok(present) => present,
    };
    let verify = ["git", "rev-parse", "--verify", branch];
    assert(verify.deep_view() =~= seq!["git"@, "rev-parse"@, "--verify"@, branch@]);
    let branch_exists = match git_success(&verify, repo_path, talk) {
        Err(request) => return Err(request),
        Ok(found) => found,
    };
    let nothing = String::new();
    assert(nothing@ =~= seq![]);
    let current_branch = if present {
        match worktree_branch(path.as_str(), talk) {
            Err(request) => return Err(request),
            Ok(current) => current,
        }
    } else {
        nothing.clone()
    };
    let dirty_summary = if present {
        match worktree_status(path.as_str(), talk) {
            Err(request) => return Err(request),
            Ok(summary) => summary,
        }
    } else {
        nothing.clone()
    };
    let (ahead, behind) = if branch_exists {
        match branch_counts(repo_path, config.base_branch.as_str(), branch, talk) {
            Err(request) => return Err(request),
            Ok(counts) => counts,
        }
    } else {
        (0i64, 0i64)
    };
    let subject = if branch_exists {
        let argv = ["git", "log", "-1", "--pretty=%s", branch];
        assert(argv.deep_view() =~= seq!["git"@, "log"@, "-1"@, "--pretty=%s"@, branch@]);
        match git_stdout(&argv, repo_path, talk) {
            Err(request) => return Err(request),
            Ok(output) => compact(output.as_str(), 100),
        }
    } else {
        nothing
    };
    let state = worktree_state(
        present,
        branch_exists,
        branch,
        current_branch.as_str(),
        dirty_summary.as_str(),
        ahead,
        behind,
    );
    let dirty = !dirty_summary.as_str().is_empty();
    let summary = if dirty {
        dirty_summary
    } else {
        "clean".to_owned()
    };
    Ok(
        WorktreeRow {
            label: spec.label.clone(),
            branch: spec.branch.clone(),
            path,
            current_branch,
            state,
            dirty,
            summary,
            ahead,
            behind,
            subject,
        },
    )
}

/// The last of the first `upto` texts that equals `wanted`.
pub open spec fn last_index(keys: Seq<Seq<char>>, wanted: Seq<char>, upto: int) -> Option<int>
    decreases upto,
{
    if !(0 < upto <= keys.len()) {
        None
    } else if keys[upto - 1] == wanted {
        Some(upto - 1)
    } else {
        last_index(keys, wanted, upto - 1)
    }
}

/// The path of the last entry on a branch.
pub open spec fn path_on_branch(entries: Seq<EntryView>, branch: Seq<char>) -> Option<Seq<char>> {
    let branches = entries.map_values(|entry: EntryView| entry.branch);
    match last_index(branches, branch, entries.len() as int) {
        Some(i) => Some(entries[i].path),
        None => None,
    }
}

/// The path of the last entry whose path has a canonical form.
pub open spec fn path_with_form(
    entries: Seq<EntryView>,
    forms: Seq<Seq<char>>,
    form: Seq<char>,
) -> Option<Seq<char>> {
    match last_index(forms, form, forms.len() as int) {
        Some(i) => Some(entries[i].path),
        None => None,
    }
}

/// The canonical forms of the paths of all entries, `done` of them known.
pub open spec fn forms_script(entries: Seq<EntryView>, done: Seq<Seq<char>>) -> Script<
    Seq<Seq<char>>,
>
    decreases entries.len() - done.len(),
{
    if done.len() >= entries.len() {
        Script::End(done)
    } else {
        conversation::chain(
            canonical_script(entries[done.len() as int].path),
            |form: Seq<char>| forms_script(entries, done.push(form)),
        )
    }
}

/// Where a worktree stands that nothing else tells of: beside the repository,
/// under its label.
pub open spec fn default_place(repo_path: Seq<char>, label: Seq<char>) -> Seq<char> {
    paths::joined_path(
        match paths::parent_path(repo_path) {
            Some(above) => above,
            None => repo_path,
        },
        label,
    )
}

/// Finds where a named worktree stands: where git has its branch checked out, or
/// else the path that it is named with, as git writes it if git lists it.
pub open spec fn place_script(
    config: ConfigView,
    entries: Seq<EntryView>,
    forms: Seq<Seq<char>>,
    spec: SpecView,
) -> Script<Seq<char>> {
    match path_on_branch(entries, spec.branch) {
        Some(path) => Script::End(path),
        None => match spec.path {
            None => Script::End(default_place(config.repo_path, spec.label)),
            Some(given) => conversation::chain(
                canonical_script(given),
                |form: Seq<char>|
                    Script::End(
                        match path_with_form(entries, forms, form) {
                            Some(path) => path,
                            None => given,
                        },
                    ),
            ),
        },
    }
}

/// The rows of the named worktrees, in the order in which they are named, `done`
/// of them known.
pub open spec fn named_script(
    config: ConfigView,
    entries: Seq<EntryView>,
    forms: Seq<Seq<char>>,
    done: Seq<RowView>,
) -> Script<Seq<RowView>>
    decreases config.worktrees.len() - done.len(),
{
    if done.len() >= config.worktrees.len() {
        Script::End(done)
    } else {
        let spec = config.worktrees[done.len() as int];
        conversation::chain(
            place_script(config, entries, forms, spec),
            |path: Seq<char>|
                conversation::chain(
                    row_script(config, spec, path),
                    |row: RowView| named_script(config, entries, forms, done.push(row)),
                ),
        )
    }
}

/// The rows of the worktrees that the settings name.
pub open spec fn configured_script(config: ConfigView, entries: Seq<EntryView>) -> Script<
    Seq<RowView>,
> {
    conversation::chain(
        forms_script(entries, seq![]),
        |forms: Seq<Seq<char>>| named_script(config, entries, forms, seq![]),
    )
}

fn find_last(keys: &Vec<String>, wanted: &str) -> (found: Option<usize>)
    ensures
        match found {
            Some(i) => i < keys.len() && last_index(
                keys.deep_view(),
                wanted@,
                keys.len() as int,
            ) == Some(i as int),
            None => last_index(keys.deep_view(), wanted@, keys.len() as int) is None,
        },
{
    let mut i: usize = keys.len();
    while i > 0
        invariant
            i <= keys.len(),
            last_index(keys.deep_view(), wanted@, keys.len() as int) == last_index(
                keys.deep_view(),
                wanted@,
                i as int,
            ),
        decreases i,
    {
        if same_text(keys[i - 1].as_str(), wanted) {
            return Some(i - 1);
        }
        i = i - 1;
    }
    None
}

fn canonical_forms(entries: &Vec<WorktreeEntry>, talk: &mut Conversation) -> (outcome: Result<
    Vec<String>,
    Request,
>)
    ensures
        (final(talk).record(), conversation::seen(outcome)) == conversation::play(
            forms_script(entries.deep_view(), seq![]),
            old(talk).record(),
        ),
        outcome matches Ok(forms) ==> forms.len() == entries.len(),
{
    let mut forms: Vec<String> = Vec::new();
    assert(forms.deep_view() =~= seq![]);
    while forms.len() < entries.len()
        invariant
            forms.len() <= entries.len(),
            conversation::play(
                forms_script(entries.deep_view(), forms.deep_view()),
                talk.record(),
            ) == conversation::play(
                forms_script(entries.deep_view(), seq![]),
                old(talk).record(),
            ),
        decreases entries.len() - forms.len(),
    {
        let i = forms.len();
        match canonical_string(entries[i].path.as_str(), talk) {
            Err(request) => return Err(request),
            Ok(form) => {
                let ghost before = forms.deep_view();
                forms.push(form);
                assert(forms.deep_view() =~= before.push(form@));
            },
        }
    }
    Ok(forms)
}

fn place_of(
    config: &Config,
    entries: &Vec<WorktreeEntry>,
    branches: &Vec<String>,
    forms: &Vec<String>,
    spec: &WorktreeSpec,
    talk: &mut Conversation,
) -> (outcome: Result<String, Request>)
    requires
        branches.deep_view() == entries.deep_view().map_values(|entry: EntryView| entry.branch),
        forms.len() == entries.len(),
    ensures
        (final(talk).record(), conversation::seen(outcome)) == conversation::play(
            place_script(
                config.deep_view(),
                entries.deep_view(),
                forms.deep_view(),
                spec.deep_view(),
            ),
            old(talk).record(),
        ),
{
    assert(branches.len() == branches.deep_view().len() == entries.len());
    if let Some(i) = find_last(branches, spec.branch.as_str()) {
        assert(entries.deep_view()[i as int].path == entries[i as int].path@);
        return Ok(entries[i].path.clone());
    }
    match &spec.path {
        None => {
            let repo_path = config.repo_path.as_str();
            let above = match parent(repo_path) {
                Some(above) => above,
                None => repo_path.to_owned(),
            };
            Ok(join_path(above.as_str(), spec.label.as_str()))
        },
        Some(given) => match canonical_string(given.as_str(), talk) {
            Err(request) => Err(request),
            Ok(form) => match find_last(forms, form.as_str()) {
                Some(i) => {
                    assert(entries.deep_view()[i as int].path == entries[i as int].path@);
                    Ok(entries[i].path.clone())
                },
                None => Ok(given.clone()),
            },
        },
    }
}

fn branches_of(entries: &Vec<WorktreeEntry>) -> (branches: Vec<String>)
    ensures
        branches.deep_view() == entries.deep_view().map_values(|entry: EntryView| entry.branch),
{
    let mut branches: Vec<String> = Vec::new();
    let mut i: usize = 0;
    while i < entries.len()
        invariant
            i <= entries.len(),
            branches.len() == i,
            forall|j: int| 0 <= j < i ==> (#[trigger] branches[j])@ == entries[j].branch@,
        decreases entries.len() - i,
    {
        branches.push(entries[i].branch.clone());
        i = i + 1;
    }
    assert(branches.deep_view() =~= entries.deep_view().map_values(
        |entry: EntryView| entry.branch,
    ));
    branches
}

fn configured_rows(config: &Config, entries: &Vec<WorktreeEntry>, talk: &mut Conversation) -> (
outcome: Result<Vec<WorktreeRow>, Request>)
    ensures
        (final(talk).record(), conversation::seen(outcome)) == conversation::play(
            configured_script(config.deep_view(), entries.deep_view()),
            old(talk).record(),
        ),
{
    let branches = branches_of(entries);
    let forms = match canonical_forms(entries, talk) {
        Err(request) => return Err(request),
        Ok(forms) => forms,
    };
    let mut rows: Vec<WorktreeRow> = Vec::new();
    assert(rows.deep_view() =~= seq![]);
    let ghost start = talk.record();
    while rows.len() < config.worktrees.len()
        invariant
            rows.len() <= config.worktrees.len(),
            branches.deep_view() == entries.deep_view().map_values(|entry: EntryView| entry.branch),
            forms.len() == entries.len(),
            conversation::play(
                named_script(
                    config.deep_view(),
                    entries.deep_view(),
                    forms.deep_view(),
                    rows.deep_view(),
                ),
                talk.record(),
            ) == conversation::play(
                named_script(config.deep_view(), entries.deep_view(), forms.deep_view(), seq![]),
                start,
            ),
            conversation::play(
                configured_script(config.deep_view(), entries.deep_view()),
                old(talk).record(),
            ) == conversation::play(
                named_script(config.deep_view(), entries.deep_view(), forms.deep_view(), seq![]),
                start,
            ),
        decreases config.worktrees.len() - rows.len(),
    {
        let spec = &config.worktrees[rows.len()];
        assert(spec.deep_view() == config.deep_view().worktrees[rows.deep_view().len() as int]);
        let path = match place_of(config, entries, &branches, &forms, spec, talk) {
            Err(request) => return Err(request),
            Ok(path) => path,
        };
        match row_for(config, spec, path, talk) {
            Err(request) => return Err(request),
            Ok(row) => {
                let ghost before = rows.deep_view();
                rows.push(row);
                assert(rows.deep_view() =~= before.push(row.deep_view()));
            },
        }
    }
    Ok(rows)
}

/// Whether a listed worktree is shown where the settings name none: it is on a
/// branch, and not on the base branch.
pub open spec fn is_shown(config: ConfigView, entry: EntryView) -> bool {
    entry.branch != config.base_branch && entry.branch.len() > 0
}

/// A listed worktree as one that is named: after its directory, or else after
/// its branch.
pub open spec fn spec_of(entry: EntryView) -> SpecView {
    SpecView {
        label: match paths::last_component(entry.path) {
            Some(name) => name,
            None => entry.branch,
        },
        branch: entry.branch,
        path: Some(entry.path),
    }
}

/// The rows of the listed worktrees that are shown, from entry `from` on, behind
/// those that are `done`, all sorted at the end.
pub open spec fn shown_script(
    config: ConfigView,
    entries: Seq<EntryView>,
    from: int,
    done: Seq<RowView>,
) -> Script<Seq<RowView>>
    decreases entries.len() - from,
{
    if !(0 <= from < entries.len()) {
        Script::End(order::sorted(done))
    } else if is_shown(config, entries[from]) {
        conversation::chain(
            row_script(config, spec_of(entries[from]), entries[from].path),
            |row: RowView| shown_script(config, entries, from + 1, done.push(row)),
        )
    } else {
        shown_script(config, entries, from + 1, done)
    }
}

/// The rows of the worktrees that git lists.
pub open spec fn discovered_script(config: ConfigView, entries: Seq<EntryView>) -> Script<
    Seq<RowView>,
> {
    shown_script(config, entries, 0, seq![])
}

fn discovered_rows(config: &Config, entries: &Vec<WorktreeEntry>, talk: &mut Conversation) -> (
outcome: Result<Vec<WorktreeRow>, Request>)
    ensures
        (final(talk).record(), conversation::seen(outcome)) == conversation::play(
            discovered_script(config.deep_view(), entries.deep_view()),
            old(talk).record(),
        ),
{
    let mut rows: Vec<WorktreeRow> = Vec::new();
    assert(rows.deep_view() =~= seq![]);
    let mut i: usize = 0;
    while i < entries.len()
        invariant
            i <= entries.len(),
            conversation::play(
                shown_script(
                    config.deep_view(),
                    entries.deep_view(),
                    i as int,
                    rows.deep_view(),
                ),
                talk.record(),
            ) == conversation::play(
                discovered_script(config.deep_view(), entries.deep_view()),
                old(talk).record(),
            ),
        decreases entries.len() - i,
    {
        let entry = &entries[i];
        assert(entry.deep_view() == entries.deep_view()[i as int]);
        if !same_text(entry.branch.as_str(), config.base_branch.as_str())
            && !entry.branch.as_str().is_empty() {
            let label = match file_name(entry.path.as_str()) {
                Some(name) => name,
                None => entry.branch.clone(),
            };
            let spec = WorktreeSpec {
                label,
                branch: entry.branch.clone(),
                path: Some(entry.path.clone()),
            };
            match row_for(config, &spec, entry.path.clone(), talk) {
                Err(request) => return Err(request),
                Ok(row) => {
                    let ghost before = rows.deep_view();
                    rows.push(row);
                    assert(rows.deep_view() =~= before.push(row.deep_view()));
                },
            }
        }
        i = i + 1;
    }
    Ok(sort_rows(rows))
}

/// Reads the worktrees: those that the settings name, or all that git lists if
/// they name none.
pub open spec fn rows_script(config: ConfigView) -> Script<Seq<RowView>> {
    conversation::chain(
        entries_script(config.repo_path),
        |entries: Seq<EntryView>|
            if config.worktrees.len() == 0 {
                discovered_script(config, entries)
            } else {
                configured_script(config, entries)
            },
    )
}

/// The worktrees of a repository.
pub fn worktree_rows(config: &Config, talk: &mut Conversation) -> (outcome: Result<
    Vec<WorktreeRow>,
    Request,
>)
    ensures
        (final(talk).record(), conversation::seen(outcome)) == conversation::play(
            rows_script(config.deep_view()),
            old(talk).record(),
        ),
{
    match git_worktree_entries(config.repo_path.as_str(), talk) {
        Err(request) => Err(request),
        Ok(entries) => if config.worktrees.len() == 0 {
            discovered_rows(config, &entries, talk)
        } else {
            configured_rows(config, &entries, talk)
        },
    }
}

/// Reads the state of a checkout.
pub open spec fn repo_script(path: Seq<char>) -> Script<RepoView> {
    conversation::chain(
        status_script(path),
        |status: Seq<char>|
            conversation::chain(
                branch_script(path),
                |branch: Seq<char>|
                    Script::End(
                        RepoView {
                            path,
                            branch,
                            dirty: status.len() > 0,
                            summary: if status.len() == 0 {
                                "clean"@
                            } else {
                                status
                            },
                        },
                    ),
            ),
    )
}

/// The state of a checkout.
pub fn repo_status(path: &str, talk: &mut Conversation) -> (outcome: Result<RepoStatus, Request>)
    ensures
        (final(talk).record(), conversation::seen(outcome)) == conversation::play(
            repo_script(path@),
            old(talk).record(),
        ),
{
    let status = match worktree_status(path, talk) {
        Err(request) => return Err(request),
        Ok(status) => status,
    };
    let branch = match worktree_branch(path, talk) {
        Err(request) => return Err(request),
        Ok(branch) => branch,
    };
    let dirty = !status.as_str().is_empty();
    let summary = if dirty {
        status
    } else {
        "clean".to_owned()
    };
    Ok(RepoStatus { path: path.to_owned(), branch, dirty, summary })
}

/// Reads everything that a snapshot holds.
#[verifier::opaque]
pub open spec fn snapshot_script(config: ConfigView) -> Script<SnapshotView> {
    conversation::chain(
        repo_script(config.repo_path),
        |repo: RepoView|
            conversation::chain(
                rows_script(config),
                |worktrees: Seq<RowView>|
                    Script::End(
                        SnapshotView { base_branch: config.base_branch, repo, worktrees },
                    ),
            ),
    )
}

/// Takes a snapshot of a repository.
pub fn build_snapshot(config: &Config, talk: &mut Conversation) -> (outcome: Result<
    Snapshot,
    Request,
>)
    ensures
        (final(talk).record(), conversation::seen(outcome)) == conversation::play(
            snapshot_script(config.deep_view()),
            old(talk).record(),
        ),
{
    reveal(snapshot_script);
    let repo = match repo_status(config.repo_path.as_str(), talk) {
        Err(request) => return Err(request),
        Ok(repo) => repo,
    };
    match worktree_rows(config, talk) {
        Err(request) => Err(request),
        Ok(worktrees) => Ok(
            Snapshot { base_branch: config.base_branch.clone(), repo, worktrees },
        ),
    }
}

/// The first rows are those of the first named worktrees.
pub open spec fn follows_names(config: ConfigView, rows: Seq<RowView>) -> bool {
    &&& rows.len() <= config.worktrees.len()
    &&& forall|i: int|
        0 <= i < rows.len() ==> (#[trigger] rows[i]).label == config.worktrees[i].label
            && rows[i].branch == config.worktrees[i].branch
}

proof fn lemma_named_follow(
    config: ConfigView,
    entries: Seq<EntryView>,
    forms: Seq<Seq<char>>,
    done: Seq<RowView>,
    record: conversation::Record,
)
    requires
        follows_names(config, done),
    ensures
        conversation::play(named_script(config, entries, forms, done), record).1 matches Ok(rows)
            ==> follows_names(config, rows) && rows.len() == config.worktrees.len(),
    decreases config.worktrees.len() - done.len(),
{
    if done.len() < config.worktrees.len() {
        let spec = config.worktrees[done.len() as int];
        let place = place_script(config, entries, forms, spec);
        if let (after, Ok(path)) = conversation::play(place, record) {
            if let (later, Ok(row)) = conversation::play(row_script(config, spec, path), after) {
                assert(row.label == spec.label && row.branch == spec.branch);
                lemma_named_follow(config, entries, forms, done.push(row), later);
            }
        }
    }
}

/// Where the settings name worktrees, a snapshot has one row for each of them, in
/// the order in which they are named.
pub proof fn named_worktrees_are_shown_in_order(
    config: ConfigView,
    record: conversation::Record,
)
    requires
        config.worktrees.len() > 0,
    ensures
        conversation::play(snapshot_script(config), record).1 matches Ok(snapshot)
            ==> follows_names(config, snapshot.worktrees) && snapshot.worktrees.len()
            == config.worktrees.len(),
{
    reveal(snapshot_script);
    if let (after, Ok(repo)) = conversation::play(repo_script(config.repo_path), record) {
        if let (listed, Ok(entries)) = conversation::play(
            entries_script(config.repo_path),
            after,
        ) {
            if let (formed, Ok(forms)) = conversation::play(
                forms_script(entries, seq![]),
                listed,
            ) {
                lemma_named_follow(config, entries, forms, seq![], formed);
            }
        }
    }
}

/// All rows are on a branch of their own.
pub open spec fn beside_the_base(config: ConfigView, rows: Seq<RowView>) -> bool {
    forall|i: int|
        0 <= i < rows.len() ==> (#[trigger] rows[i]).branch != config.base_branch
            && rows[i].branch.len() > 0
}

proof fn lemma_sorted_beside(config: ConfigView, rows: Seq<RowView>)
    requires
        beside_the_base(config, rows),
    ensures
        beside_the_base(config, order::sorted(rows)),
    decreases rows.len(),
{
    if rows.len() > 0 {
        lemma_sorted_beside(config, rows.drop_last());
        let before = order::sorted(rows.drop_last());
        order::lemma_slot(before, rows.last(), before.len() as int);
        assert(rows.last() == rows[rows.len() - 1]);
    }
}

proof fn lemma_shown_beside(
    config: ConfigView,
    entries: Seq<EntryView>,
    from: int,
    done: Seq<RowView>,
    record: conversation::Record,
)
    requires
        beside_the_base(config, done),
    ensures
        conversation::play(shown_script(config, entries, from, done), record).1 matches Ok(rows)
            ==> beside_the_base(config, rows),
    decreases entries.len() - from,
{
    if 0 <= from < entries.len() {
        if is_shown(config, entries[from]) {
            let spec = spec_of(entries[from]);
            let path = entries[from].path;
            if let (after, Ok(row)) = conversation::play(row_script(config, spec, path), record) {
                assert(row.branch == entries[from].branch);
                lemma_shown_beside(config, entries, from + 1, done.push(row), after);
            }
        } else {
            lemma_shown_beside(config, entries, from + 1, done, record);
        }
    } else {
        lemma_sorted_beside(config, done);
    }
}

/// Where the settings name no worktrees, a snapshot shows those that git lists,
/// but for those on the base branch or on none.
pub proof fn listed_worktrees_are_beside_the_base(
    config: ConfigView,
    record: conversation::Record,
)
    requires
        config.worktrees.len() == 0,
    ensures
        conversation::play(snapshot_script(config), record).1 matches Ok(snapshot)
            ==> beside_the_base(config, snapshot.worktrees),
{
    reveal(snapshot_script);
    if let (after, Ok(repo)) = conversation::play(repo_script(config.repo_path), record) {
        if let (listed, Ok(entries)) = conversation::play(
            entries_script(config.repo_path),
            after,
        ) {
            lemma_shown_beside(config, entries, 0, seq![], listed);
        }
    }
}

}
