//! The course that the operations take: what they ask for next after each reply,
//! and how they end. Everything here is said of requests and replies alone.
use vstd::prelude::*;

use crate::config::ConfigView;
use crate::conversation;
use crate::conversation::{Record, ReplyView, RequestView};
use crate::git;
use crate::model::{RowView, WorktreeState};
use crate::ops;
use crate::ops::ResultView;
use crate::paths;
use crate::text;
use crate::util;

verus! {

broadcast use {
    crate::conversation::group_play,
    crate::conversation::group_requests,
    crate::ops::group_commands,
    crate::safety::blank_status_is_clean,
};

/// The request to run a command in a directory and to capture what it writes.
pub open spec fn runs(words: Seq<Seq<char>>, path: Seq<char>) -> RequestView {
    RequestView::Output { argv: words, cwd: Some(path) }
}

/// The request to run a command in a directory for its exit status alone.
pub open spec fn tries(words: Seq<Seq<char>>, path: Seq<char>) -> RequestView {
    RequestView::Status { argv: words, cwd: Some(path) }
}

/// The request for the branch that a checkout is on.
pub open spec fn asks_branch(path: Seq<char>) -> RequestView {
    runs(seq!["git"@, "branch"@, "--show-current"@], path)
}

/// The request for the changed files of a checkout.
pub open spec fn asks_status(path: Seq<char>) -> RequestView {
    runs(seq!["git"@, "status"@, "--short"@], path)
}

/// The request whether there is a checkout.
pub open spec fn asks_checkout(path: Seq<char>) -> RequestView {
    RequestView::Exists { path: paths::joined_path(path, ".git"@) }
}

/// The request for the commit that a name stands for.
pub open spec fn asks_commit(name: Seq<char>, path: Seq<char>) -> RequestView {
    runs(seq!["git"@, "rev-parse"@, name], path)
}

/// Whether the `i`th reply from here on has come in.
pub open spec fn answered(record: Record, i: int) -> bool {
    record.heard + i < record.replies.len()
}

/// The `i`th reply from here on.
pub open spec fn reply(record: Record, i: int) -> ReplyView {
    record.replies[record.heard + i]
}

/// The conversation `i` replies later.
pub open spec fn later(record: Record, i: int) -> Record {
    Record { heard: (record.heard + i) as nat, ..record }
}

/// Whether a program ran and its exit code is zero.
pub open spec fn went_well(reply: ReplyView) -> bool {
    reply matches ReplyView::Ran { code: Some(code), .. } && code == 0
}

/// What a program wrote that went well; nothing of one that did not.
pub open spec fn wrote(reply: ReplyView) -> Seq<char> {
    match reply {
        ReplyView::Ran { stdout, .. } if went_well(reply) => text::utf8_lossy(stdout),
        _ => seq![],
    }
}

/// All that a command wrote, or that it did not start.
pub open spec fn all_written(program: Seq<char>, reply: ReplyView) -> Seq<char> {
    match reply {
        ReplyView::Ran { stdout, stderr, .. } => text::utf8_lossy(stdout) + text::utf8_lossy(
            stderr,
        ),
        _ => "failed to start "@ + program,
    }
}

/// The name that a reply gives: what was written, without white space around it.
pub open spec fn name_in(reply: ReplyView) -> Seq<char> {
    text::trimmed(wrote(reply))
}

/// Whether a reply tells of no changed file: nothing but white space was written.
pub open spec fn shows_nothing(reply: ReplyView) -> bool {
    text::is_blank(wrote(reply))
}

/// An operation that is done.
pub open spec fn yes(message: Seq<char>) -> Result<ResultView, RequestView> {
    Ok(ResultView { ok: true, message })
}

/// An operation that is refused or has failed.
pub open spec fn no(message: Seq<char>) -> Result<ResultView, RequestView> {
    Ok(ResultView { ok: false, message })
}

/// A branch by its name, or the words for none.
pub open spec fn branch_words(branch: Seq<char>) -> Seq<char> {
    if branch.len() > 0 {
        branch
    } else {
        "no branch"@
    }
}

/// What is looked at of the base checkout: its branch, and then, if it is the base
/// branch, its changed files. On another branch, or with changed files, nothing
/// more is asked, and the refusal says why.
pub open spec fn looks_at_base(
    config: ConfigView,
    action: Seq<char>,
    asked: Seq<RequestView>,
    record: Record,
    outcome: Result<ResultView, RequestView>,
) -> bool {
    let branch = name_in(reply(record, 0));
    &&& asked.len() > 0
    &&& asked[0] == asks_branch(config.repo_path)
    &&& answered(record, 0) && branch != config.base_branch ==> {
        &&& asked.len() == 1
        &&& outcome == no(action + " blocked: base checkout on "@ + branch_words(branch))
    }
    &&& answered(record, 0) && branch == config.base_branch ==> {
        &&& asked.len() > 1
        &&& asked[1] == asks_status(config.repo_path)
    }
    &&& answered(record, 1) && branch == config.base_branch && !shows_nothing(reply(record, 1))
        ==> {
        &&& asked.len() == 2
        &&& outcome == no(action + " blocked: base checkout dirty"@)
    }
}

/// The base checkout is on the base branch and clean, by the next two replies.
pub open spec fn base_passes(config: ConfigView, record: Record) -> bool {
    &&& answered(record, 1)
    &&& name_in(reply(record, 0)) == config.base_branch
    &&& shows_nothing(reply(record, 1))
}

/// A deploy looks at the base checkout. Where that passes, and there is a command
/// of one word or more, the command is run in the base checkout, and the deploy is
/// done exactly where it goes well; without a command the deploy is refused.
pub proof fn deploys_that_may_be_done_are_done(config: ConfigView, record: Record)
    ensures
        ({
            let asked = conversation::requests(ops::deploy_script(config), record);
            let outcome = conversation::play(ops::deploy_script(config), record).1;
            &&& looks_at_base(config, "Deploy"@, asked, record, outcome)
            &&& base_passes(config, record) ==> match config.deploy_command {
                None => {
                    &&& asked.len() == 2
                    &&& outcome == no("Deploy blocked: no deploy_command in sp.toml"@)
                },
                Some(words) => if words.len() == 0 {
                    &&& asked.len() == 2
                    &&& outcome == no("Deploy blocked: empty deploy_command"@)
                } else {
                    &&& asked.len() == 3
                    &&& asked[2] == runs(words, config.repo_path)
                    &&& answered(record, 2) ==> outcome == if went_well(reply(record, 2)) {
                        yes("Deploy completed"@)
                    } else {
                        no(
                            "Deploy failed: "@ + util::compacted(
                                all_written(words[0], reply(record, 2)),
                                160,
                            ),
                        )
                    }
                    &&& !answered(record, 2) ==> outcome is Err
                },
            }
        }),
{
}

/// What is looked at of a worktree before it is merged: whether it is there, then
/// its branch, then its changed files. Where one of them is not as it should be,
/// nothing more is asked, and the refusal says why.
pub open spec fn looks_at_target(
    target: RowView,
    asked: Seq<RequestView>,
    record: Record,
    outcome: Result<ResultView, RequestView>,
) -> bool {
    let found = reply(record, 0) == ReplyView::Exists(true);
    let branch = name_in(reply(record, 1));
    &&& asked.len() > 0
    &&& asked[0] == asks_checkout(target.path)
    &&& answered(record, 0) && !found ==> {
        &&& asked.len() == 1
        &&& outcome == no("Merge blocked: "@ + target.label + " worktree missing"@)
    }
    &&& answered(record, 0) && found ==> {
        &&& asked.len() > 1
        &&& asked[1] == asks_branch(target.path)
    }
    &&& answered(record, 1) && found && branch != target.branch ==> {
        &&& asked.len() == 2
        &&& outcome == no("Merge blocked: "@ + target.label + " on "@ + branch_words(branch))
    }
    &&& answered(record, 1) && found && branch == target.branch ==> {
        &&& asked.len() > 2
        &&& asked[2] == asks_status(target.path)
    }
    &&& answered(record, 2) && found && branch == target.branch && !shows_nothing(
        reply(record, 2),
    ) ==> {
        &&& asked.len() == 3
        &&& outcome == no("Merge blocked: "@ + target.label + " dirty"@)
    }
}

/// A worktree is there, on its branch and clean, by the next three replies.
pub open spec fn target_passes(target: RowView, record: Record) -> bool {
    &&& answered(record, 2)
    &&& reply(record, 0) == ReplyView::Exists(true)
    &&& name_in(reply(record, 1)) == target.branch
    &&& shows_nothing(reply(record, 2))
}

/// The first eight characters of a commit's name, or a word for none.
pub open spec fn short(commit: Seq<char>) -> Seq<char> {
    if commit.len() == 0 {
        "unknown"@
    } else if commit.len() > 8 {
        commit.subrange(0, 8)
    } else {
        commit
    }
}

/// What makes sure of a merge: the commit of the base checkout, its changed files,
/// and whether the base branch contains the branch. The merge is done exactly where
/// it is clean, has moved on if there was something to merge, and contains it.
pub open spec fn makes_sure(
    config: ConfigView,
    target: RowView,
    before: Seq<char>,
    asked: Seq<RequestView>,
    record: Record,
    outcome: Result<ResultView, RequestView>,
) -> bool {
    let after = name_in(reply(record, 0));
    let stuck = target.ahead > 0 && after == before;
    &&& asked.len() > 0
    &&& asked[0] == asks_commit("HEAD"@, config.repo_path)
    &&& answered(record, 0) ==> asked.len() > 1 && asked[1] == asks_status(config.repo_path)
    &&& answered(record, 1) && !shows_nothing(reply(record, 1)) ==> {
        &&& asked.len() == 2
        &&& outcome == no("Merge failed: "@ + target.label + " left base dirty"@)
    }
    &&& answered(record, 1) && shows_nothing(reply(record, 1)) && stuck ==> {
        &&& asked.len() == 2
        &&& outcome == no(
            "Merge failed: "@ + target.label + " did not advance "@ + config.base_branch
                + " from "@ + short(before),
        )
    }
    &&& answered(record, 1) && shows_nothing(reply(record, 1)) && !stuck ==> {
        &&& asked.len() == 3
        &&& asked[2] == tries(
            seq!["git"@, "merge-base"@, "--is-ancestor"@, target.branch, config.base_branch],
            config.repo_path,
        )
    }
    &&& answered(record, 2) && shows_nothing(reply(record, 1)) && !stuck ==> outcome
        == if went_well(reply(record, 2)) {
        yes(
            "Merged "@ + target.label + ": "@ + config.base_branch + " "@ + short(before)
                + " -> "@ + short(after),
        )
    } else {
        no("Merge failed: "@ + config.base_branch + " does not contain "@ + target.label)
    }
}

/// A merge by a merge commit: the merge, then the commit, each aborted where it
/// does not go well, and then what makes sure of it.
pub open spec fn merges_by_commit(
    config: ConfigView,
    target: RowView,
    before: Seq<char>,
    asked: Seq<RequestView>,
    record: Record,
    outcome: Result<ResultView, RequestView>,
) -> bool {
    let merged = went_well(reply(record, 0));
    let committed = went_well(reply(record, 1));
    let abort = runs(seq!["git"@, "merge"@, "--abort"@], config.repo_path);
    &&& asked.len() > 0
    &&& asked[0] == runs(
        seq!["git"@, "merge"@, "--no-ff"@, "--no-commit"@, target.branch],
        config.repo_path,
    )
    &&& answered(record, 0) && !merged ==> {
        &&& asked.len() == 2
        &&& asked[1] == abort
        &&& answered(record, 1) ==> outcome == no(
            "Merge blocked: "@ + target.label + " conflicts: "@ + util::compacted(
                all_written("git"@, reply(record, 0)),
                160,
            ),
        )
    }
    &&& answered(record, 0) && merged ==> {
        &&& asked.len() > 1
        &&& asked[1] == runs(
            seq!["git"@, "-c"@, "commit.gpgsign=false"@, "commit"@, "--no-edit"@],
            config.repo_path,
        )
    }
    &&& answered(record, 1) && merged && !committed ==> {
        &&& asked.len() == 3
        &&& asked[2] == abort
        &&& answered(record, 2) ==> outcome == no(
            "Merge failed: "@ + target.label + " commit failed: "@ + util::compacted(
                all_written("git"@, reply(record, 1)),
                120,
            ),
        )
    }
    &&& answered(record, 1) && merged && committed ==> makes_sure(
        config,
        target,
        before,
        asked.skip(2),
        later(record, 2),
        outcome,
    )
}

/// A merge from the rebase of the worktree on. The rebase is aborted where it does
/// not go well. Otherwise the base branch is taken forward, or else a merge commit
/// is made; what makes sure of it comes last.
pub open spec fn rebases_and_merges(
    config: ConfigView,
    target: RowView,
    before: Seq<char>,
    asked: Seq<RequestView>,
    record: Record,
    outcome: Result<ResultView, RequestView>,
) -> bool {
    let rebased = went_well(reply(record, 0));
    let forward = went_well(reply(record, 1));
    &&& asked.len() > 0
    &&& asked[0] == runs(seq!["git"@, "rebase"@, config.base_branch], target.path)
    &&& answered(record, 0) && !rebased ==> {
        &&& asked.len() == 2
        &&& asked[1] == runs(seq!["git"@, "rebase"@, "--abort"@], target.path)
        &&& answered(record, 1) ==> outcome == no(
            "Merge blocked: "@ + target.label + " rebase failed: "@ + util::compacted(
                all_written("git"@, reply(record, 0)),
                160,
            ),
        )
    }
    &&& answered(record, 0) && rebased ==> {
        &&& asked.len() > 1
        &&& asked[1] == runs(
            seq!["git"@, "merge"@, "--ff-only"@, target.branch],
            config.repo_path,
        )
    }
    &&& answered(record, 1) && rebased && forward ==> makes_sure(
        config,
        target,
        before,
        asked.skip(2),
        later(record, 2),
        outcome,
    )
    &&& answered(record, 1) && rebased && !forward ==> merges_by_commit(
        config,
        target,
        before,
        asked.skip(2),
        later(record, 2),
        outcome,
    )
}

/// The steps of a merge: the commits that the base checkout and the branch are on
/// are asked for, and then the worktree is rebased.
pub open spec fn takes_the_steps(
    config: ConfigView,
    target: RowView,
    asked: Seq<RequestView>,
    record: Record,
    outcome: Result<ResultView, RequestView>,
) -> bool {
    &&& asked.len() > 0
    &&& asked[0] == asks_commit("HEAD"@, config.repo_path)
    &&& answered(record, 0) ==> asked.len() > 1 && asked[1] == asks_commit(
        target.branch,
        config.repo_path,
    )
    &&& answered(record, 1) ==> rebases_and_merges(
        config,
        target,
        name_in(reply(record, 0)),
        asked.skip(2),
        later(record, 2),
        outcome,
    )
}

/// Two records with the same replies from here on.
pub open spec fn in_step(left: Record, right: Record) -> bool {
    left.replies == right.replies && left.heard == right.heard
}

proof fn lemma_short(commit: Seq<char>)
    ensures
        git::short_name(commit) == short(commit),
{
}

proof fn lemma_makes_sure(
    config: ConfigView,
    target: RowView,
    before: Seq<char>,
    record: Record,
    seen: Record,
)
    requires
        in_step(record, seen),
    ensures
        ({
            let script = ops::verified_script(config, target, before);
            makes_sure(
                config,
                target,
                before,
                conversation::requests(script, record),
                seen,
                conversation::play(script, record).1,
            )
        }),
{
    lemma_short(before);
    if answered(record, 0) {
        lemma_short(name_in(reply(record, 0)));
    }
}

#[verifier::rlimit(60)]
proof fn lemma_merges_by_commit(
    config: ConfigView,
    target: RowView,
    before: Seq<char>,
    record: Record,
    seen: Record,
)
    requires
        in_step(record, seen),
    ensures
        ({
            let script = ops::merge_commit_script(config, target, before);
            merges_by_commit(
                config,
                target,
                before,
                conversation::requests(script, record),
                seen,
                conversation::play(script, record).1,
            )
        }),
{
    let script = ops::merge_commit_script(config, target, before);
    let asked = conversation::requests(script, record);
    let merge = ops::command_script(ops::merge_argv(target.branch), config.repo_path);
    let commit = ops::command_script(ops::commit_argv(), config.repo_path);
    if let (merged, Ok(first)) = conversation::play(merge, record) {
        if let (committed, Ok(second)) = conversation::play(commit, merged) {
            if first.code == 0 && second.code == 0 {
                lemma_makes_sure(config, target, before, committed, later(seen, 2));
                let rest = conversation::requests(
                    ops::verified_script(config, target, before),
                    committed,
                );
                assert(asked.skip(2) =~= rest);
            }
        }
    }
}

#[verifier::rlimit(60)]
proof fn lemma_rebases_and_merges(
    config: ConfigView,
    target: RowView,
    before: Seq<char>,
    record: Record,
    seen: Record,
)
    requires
        in_step(record, seen),
    ensures
        ({
            let script = ops::merge_rebase_script(config, target, before);
            rebases_and_merges(
                config,
                target,
                before,
                conversation::requests(script, record),
                seen,
                conversation::play(script, record).1,
            )
        }),
{
    let script = ops::merge_rebase_script(config, target, before);
    let asked = conversation::requests(script, record);
    let rebase = ops::command_script(ops::rebase_argv(config.base_branch), target.path);
    let forward = ops::command_script(ops::forward_argv(target.branch), config.repo_path);
    if let (rebased, Ok(first)) = conversation::play(rebase, record) {
        if let (moved, Ok(second)) = conversation::play(forward, rebased) {
            if first.code == 0 && second.code != 0 {
                lemma_merges_by_commit(config, target, before, moved, later(seen, 2));
                let rest = conversation::requests(
                    ops::merge_commit_script(config, target, before),
                    moved,
                );
                assert(asked.skip(2) =~= rest);
            } else if first.code == 0 {
                lemma_makes_sure(config, target, before, moved, later(seen, 2));
                let rest = conversation::requests(
                    ops::verified_script(config, target, before),
                    moved,
                );
                assert(asked.skip(2) =~= rest);
            }
        }
    }
}

#[verifier::rlimit(60)]
proof fn lemma_takes_the_steps(config: ConfigView, target: RowView, record: Record, seen: Record)
    requires
        in_step(record, seen),
    ensures
        ({
            let script = ops::merge_steps_script(config, target);
            takes_the_steps(
                config,
                target,
                conversation::requests(script, record),
                seen,
                conversation::play(script, record).1,
            )
        }),
{
    let script = ops::merge_steps_script(config, target);
    let asked = conversation::requests(script, record);
    let head = git::ref_script(config.repo_path, "HEAD"@);
    let tip = git::ref_script(config.repo_path, target.branch);
    if let (one, Ok(before)) = conversation::play(head, record) {
        if let (two, Ok(branch_before)) = conversation::play(tip, one) {
            let line = target.label + ": base "@ + git::short_name(before) + " branch "@
                + git::short_name(branch_before);
            let said = Record { log: two.log.push(line), ..two };
            lemma_rebases_and_merges(config, target, before, said, later(seen, 2));
            let rest = conversation::requests(
                ops::merge_rebase_script(config, target, before),
                said,
            );
            assert(asked.skip(2) =~= rest);
        }
    }
}

/// Row `i` is the first one with a label.
pub open spec fn is_first_with(rows: Seq<RowView>, label: Seq<char>, i: int) -> bool {
    &&& 0 <= i < rows.len()
    &&& rows[i].label == label
    &&& forall|j: int| 0 <= j < i ==> (#[trigger] rows[j]).label != label
}

pub(crate) proof fn lemma_labelled(rows: Seq<RowView>, label: Seq<char>, from: int)
    requires
        0 <= from <= rows.len(),
        forall|j: int| 0 <= j < from ==> (#[trigger] rows[j]).label != label,
    ensures
        match ops::labelled_from(rows, label, from) {
            Some(row) => exists|i: int| #[trigger]
                is_first_with(rows, label, i) && rows[i] == row,
            None => forall|j: int| 0 <= j < rows.len() ==> (#[trigger] rows[j]).label != label,
        },
    decreases rows.len() - from,
{
    if from < rows.len() {
        if rows[from].label == label {
            assert(is_first_with(rows, label, from));
        } else {
            lemma_labelled(rows, label, from + 1);
        }
    }
}

/// The name of a state, as a refusal tells it.
pub open spec fn state_words(state: WorktreeState) -> Seq<char> {
    match state {
        WorktreeState::Ready => "ready"@,
        WorktreeState::Dirty => "dirty"@,
        WorktreeState::Behind => "behind"@,
        WorktreeState::Merged => "merged"@,
        WorktreeState::Missing => "missing"@,
        WorktreeState::WrongBranch => "wrong branch"@,
    }
}

/// The course of the merge of a ready worktree: both checkouts are looked at, and
/// where both pass, the steps are taken.
pub open spec fn merges(
    config: ConfigView,
    target: RowView,
    asked: Seq<RequestView>,
    record: Record,
    outcome: Result<ResultView, RequestView>,
) -> bool {
    &&& looks_at_base(config, "Merge"@, asked, record, outcome)
    &&& base_passes(config, record) ==> looks_at_target(
        target,
        asked.skip(2),
        later(record, 2),
        outcome,
    )
    &&& base_passes(config, record) && target_passes(target, later(record, 2))
        ==> takes_the_steps(config, target, asked.skip(5), later(record, 5), outcome)
}

#[verifier::rlimit(40)]
proof fn lemma_clearance_looks(config: ConfigView, target: RowView, record: Record)
    ensures
        ({
            let script = ops::merge_clearance_script(config, target);
            let asked = conversation::requests(script, record);
            let outcome = match conversation::play(script, record).1 {
                Ok(Ok(row)) => Err(asks_branch(seq![])),
                Ok(Err(result)) => Ok(result),
                Err(request) => Err(request),
            };
            &&& looks_at_base(config, "Merge"@, asked, record, outcome)
            &&& base_passes(config, record) ==> looks_at_target(
                target,
                asked.skip(2),
                later(record, 2),
                outcome,
            )
            &&& conversation::play(script, record).1 matches Ok(Ok(row)) ==> {
                &&& row == target
                &&& asked.len() == 5
                &&& base_passes(config, record)
                &&& target_passes(target, later(record, 2))
                &&& conversation::play(script, record).0 == later(record, 5)
            }
            &&& base_passes(config, record) && target_passes(target, later(record, 2))
                ==> conversation::play(script, record).1 == Ok::<
                Result<RowView, ResultView>,
                RequestView,
            >(Ok(target))
        }),
{
    let script = ops::merge_clearance_script(config, target);
    let asked = conversation::requests(script, record);
    let base = ops::base_blocker_script(config, "Merge"@);
    if let (looked, Ok(None)) = conversation::play(base, record) {
        assert(looked == later(record, 2));
        let rest = conversation::requests(ops::target_blocker_script(target), looked);
        assert(asked =~= conversation::requests(base, record) + rest);
        assert(asked.skip(2) =~= rest);
    }
}

proof fn lemma_checked_merge(config: ConfigView, label: Seq<char>, record: Record)
    ensures
        ({
            let script = ops::merge_script(config, label);
            let asked = conversation::requests(script, record);
            let outcome = conversation::play(script, record).1;
            conversation::play(git::snapshot_script(config), record) matches (at, Ok(snapshot))
                ==> match ops::labelled_from(snapshot.worktrees, label, 0) {
                None => {
                    &&& asked == conversation::requests(git::snapshot_script(config), record)
                    &&& outcome == no("Merge blocked: unknown worktree "@ + label)
                },
                Some(target) => if target.state != WorktreeState::Ready {
                    &&& asked == conversation::requests(git::snapshot_script(config), record)
                    &&& outcome == no(
                        "Merge blocked: "@ + target.label + " is "@ + state_words(target.state),
                    )
                } else {
                    let first = conversation::requests(git::snapshot_script(config), record);
                    let looks = ops::merge_clearance_script(config, target);
                    &&& match conversation::play(looks, at) {
                        (cleared, Ok(Ok(row))) => {
                            &&& asked == first + conversation::requests(looks, at)
                                + conversation::requests(
                                ops::merge_steps_script(config, row),
                                cleared,
                            )
                            &&& outcome == conversation::play(
                                ops::merge_steps_script(config, row),
                                cleared,
                            ).1
                        },
                        (cleared, Ok(Err(result))) => {
                            &&& asked == first + conversation::requests(looks, at)
                            &&& outcome == Ok::<ResultView, RequestView>(result)
                        },
                        (cleared, Err(request)) => {
                            &&& asked == first + conversation::requests(looks, at)
                            &&& outcome == Err::<ResultView, RequestView>(request)
                        },
                    }
                },
            }
        }),
{
    let script = ops::merge_script(config, label);
    let asked = conversation::requests(script, record);
    let checks = ops::merge_checks_script(config, label);
    let first = conversation::requests(git::snapshot_script(config), record);
    if let (at, Ok(snapshot)) = conversation::play(git::snapshot_script(config), record) {
        if let Some(target) = ops::labelled_from(snapshot.worktrees, label, 0) {
            if target.state == WorktreeState::Ready {
                let looks = ops::merge_clearance_script(config, target);
                assert(conversation::requests(checks, record) == first + conversation::requests(
                    looks,
                    at,
                ));
                assert(conversation::play(checks, record) == conversation::play(looks, at));
            } else {
                assert(asked =~= first);
            }
        } else {
            assert(asked =~= first);
        }
    }
}

/// A merge takes a snapshot and looks for the first worktree with the label. Where
/// there is none, or it is not ready, the merge is refused and nothing more is
/// asked. Where it is ready, both checkouts are looked at, and where both pass, the
/// merge goes on: it asks for the commits, rebases the worktree and merges it.
pub proof fn merges_that_may_be_done_are_done(
    config: ConfigView,
    label: Seq<char>,
    record: Record,
)
    ensures
        ({
            let take = conversation::requests(git::snapshot_script(config), record);
            let asked = conversation::requests(ops::merge_script(config, label), record);
            let outcome = conversation::play(ops::merge_script(config, label), record).1;
            match conversation::play(git::snapshot_script(config), record) {
                (at, Err(request)) => asked == take && outcome == Err::<ResultView, RequestView>(
                    request,
                ),
                (at, Ok(snapshot)) => {
                    let rows = snapshot.worktrees;
                    &&& take.is_prefix_of(asked)
                    &&& (forall|i: int| 0 <= i < rows.len() ==> (#[trigger] rows[i]).label != label)
                        ==> {
                        &&& asked == take
                        &&& outcome == no("Merge blocked: unknown worktree "@ + label)
                    }
                    &&& forall|i: int| #[trigger]
                        is_first_with(rows, label, i) ==> if rows[i].state
                            == WorktreeState::Ready {
                            merges(config, rows[i], asked.skip(take.len() as int), at, outcome)
                        } else {
                            &&& asked == take
                            &&& outcome == no(
                                "Merge blocked: "@ + label + " is "@ + state_words(rows[i].state),
                            )
                        }
                },
            }
        }),
{
    let take = conversation::requests(git::snapshot_script(config), record);
    let asked = conversation::requests(ops::merge_script(config, label), record);
    let outcome = conversation::play(ops::merge_script(config, label), record).1;
    lemma_checked_merge(config, label, record);
    if let (at, Ok(snapshot)) = conversation::play(git::snapshot_script(config), record) {
        let rows = snapshot.worktrees;
        lemma_labelled(rows, label, 0);
        assert forall|i: int| #[trigger] is_first_with(rows, label, i) implies if rows[i].state
            == WorktreeState::Ready {
            merges(config, rows[i], asked.skip(take.len() as int), at, outcome)
        } else {
            &&& asked == take
            &&& outcome == no("Merge blocked: "@ + label + " is "@ + state_words(rows[i].state))
        } by {
            assert(ops::labelled_from(rows, label, 0) == Some(rows[i]));
            if rows[i].state == WorktreeState::Ready {
                lemma_merge_course(config, label, rows[i], record);
            }
        }
    }
}

#[verifier::rlimit(60)]
proof fn lemma_merge_course(
    config: ConfigView,
    label: Seq<char>,
    target: RowView,
    record: Record,
)
    ensures
        ({
            let take = conversation::requests(git::snapshot_script(config), record);
            let asked = conversation::requests(ops::merge_script(config, label), record);
            let outcome = conversation::play(ops::merge_script(config, label), record).1;
            conversation::play(git::snapshot_script(config), record) matches (at, Ok(snapshot))
                ==> ops::labelled_from(snapshot.worktrees, label, 0) == Some(target)
                && target.state == WorktreeState::Ready ==> {
                &&& take.is_prefix_of(asked)
                &&& merges(config, target, asked.skip(take.len() as int), at, outcome)
            }
        }),
{
    let take = conversation::requests(git::snapshot_script(config), record);
    let asked = conversation::requests(ops::merge_script(config, label), record);
    let outcome = conversation::play(ops::merge_script(config, label), record).1;
    lemma_checked_merge(config, label, record);
    if let (at, Ok(snapshot)) = conversation::play(git::snapshot_script(config), record) {
        if ops::labelled_from(snapshot.worktrees, label, 0) == Some(target) && target.state
            == WorktreeState::Ready {
            let looks = ops::merge_clearance_script(config, target);
            let looked = conversation::requests(looks, at);
            lemma_clearance_looks(config, target, at);
            let own = asked.skip(take.len() as int);
            if let (cleared, Ok(Ok(row))) = conversation::play(looks, at) {
                lemma_takes_the_steps(config, target, cleared, later(at, 5));
                let rest = conversation::requests(
                    ops::merge_steps_script(config, target),
                    cleared,
                );
                assert(own =~= looked + rest);
                assert(own.skip(5) =~= rest);
            } else {
                assert(own =~= looked);
            }
        }
    }
}

/// A rebase of a worktree that has no local changes, or none any more. Where it does
/// not go well, it is aborted; either way, what was put aside is brought back, and
/// nothing more is asked.
pub open spec fn rebases_and_restores(
    config: ConfigView,
    row: RowView,
    stashed: bool,
    asked: Seq<RequestView>,
    record: Record,
    outcome: Result<ResultView, RequestView>,
) -> bool {
    let rebased = went_well(reply(record, 0));
    let pop = runs(seq!["git"@, "stash"@, "pop"@, "--index"@], row.path);
    let conflicts = no(
        "Rebase blocked: "@ + row.label + " conflicts: "@ + util::compacted(
            all_written("git"@, reply(record, 0)),
            120,
        ),
    );
    &&& asked.len() > 0
    &&& asked[0] == runs(seq!["git"@, "rebase"@, config.base_branch], row.path)
    &&& answered(record, 0) && !rebased ==> asked.len() > 1 && asked[1] == runs(
        seq!["git"@, "rebase"@, "--abort"@],
        row.path,
    )
    &&& answered(record, 1) && !rebased && !stashed ==> asked.len() == 2 && outcome == conflicts
    &&& answered(record, 1) && !rebased && stashed ==> asked.len() == 3 && asked[2] == pop
    &&& answered(record, 2) && !rebased && stashed ==> outcome == conflicts
    &&& answered(record, 0) && rebased && !stashed ==> asked.len() == 1 && outcome == yes(
        "Rebased "@ + row.label,
    )
    &&& answered(record, 0) && rebased && stashed ==> asked.len() == 2 && asked[1] == pop
    &&& answered(record, 1) && rebased && stashed ==> outcome == if went_well(reply(record, 1)) {
        yes("Rebased "@ + row.label)
    } else {
        no(
            "Rebase blocked: "@ + row.label + " stash restore failed: "@ + util::compacted(
                all_written("git"@, reply(record, 1)),
                120,
            ),
        )
    }
}

/// The rebase of one worktree. It is refused where the worktree is not there, or on
/// another branch. Local changes are put aside first, and a clean worktree is
/// rebased right away.
pub open spec fn rebases(
    config: ConfigView,
    row: RowView,
    asked: Seq<RequestView>,
    record: Record,
    outcome: Result<ResultView, RequestView>,
) -> bool {
    let found = reply(record, 0) == ReplyView::Exists(true);
    let branch = name_in(reply(record, 1));
    let fit = found && branch == row.branch;
    let dirty = !shows_nothing(reply(record, 2));
    &&& asked.len() > 0
    &&& asked[0] == asks_checkout(row.path)
    &&& answered(record, 0) && !found ==> {
        &&& asked.len() == 1
        &&& outcome == no(
            text::replaced(
                "Merge blocked: "@ + row.label + " worktree missing"@,
                "Merge"@,
                "Rebase"@,
            ),
        )
    }
    &&& answered(record, 0) && found ==> asked.len() > 1 && asked[1] == asks_branch(row.path)
    &&& answered(record, 1) && found && branch != row.branch ==> {
        &&& asked.len() == 2
        &&& outcome == no(
            text::replaced(
                "Merge blocked: "@ + row.label + " on "@ + branch_words(branch),
                "Merge"@,
                "Rebase"@,
            ),
        )
    }
    &&& answered(record, 1) && fit ==> asked.len() > 2 && asked[2] == asks_status(row.path)
    &&& answered(record, 2) && fit && !dirty ==> rebases_and_restores(
        config,
        row,
        false,
        asked.skip(3),
        later(record, 3),
        outcome,
    )
    &&& answered(record, 2) && fit && dirty ==> asked.len() > 3 && asked[3] == runs(
        seq![
            "git"@,
            "stash"@,
            "push"@,
            "-u"@,
            "-m"@,
            "sp auto-stash before rebase "@ + row.label,
        ],
        row.path,
    )
    &&& answered(record, 3) && fit && dirty && !went_well(reply(record, 3)) ==> {
        &&& asked.len() == 4
        &&& outcome == no(
            "Rebase blocked: "@ + row.label + " stash failed: "@ + util::compacted(
                all_written("git"@, reply(record, 3)),
                120,
            ),
        )
    }
    &&& answered(record, 3) && fit && dirty && went_well(reply(record, 3))
        ==> rebases_and_restores(
        config,
        row,
        true,
        asked.skip(4),
        later(record, 4),
        outcome,
    )
}

proof fn lemma_rebases_and_restores(
    config: ConfigView,
    row: RowView,
    stashed: bool,
    record: Record,
    seen: Record,
)
    requires
        in_step(record, seen),
    ensures
        ({
            let script = ops::rebase_step_script(config, row, stashed);
            rebases_and_restores(
                config,
                row,
                stashed,
                conversation::requests(script, record),
                seen,
                conversation::play(script, record).1,
            )
        }),
{
}

proof fn lemma_stashes_first(config: ConfigView, row: RowView, record: Record, seen: Record)
    requires
        in_step(record, seen),
    ensures
        ({
            let script = ops::stash_script(config, row);
            let asked = conversation::requests(script, record);
            let outcome = conversation::play(script, record).1;
            &&& asked.len() > 0
            &&& asked[0] == runs(
                seq![
                    "git"@,
                    "stash"@,
                    "push"@,
                    "-u"@,
                    "-m"@,
                    "sp auto-stash before rebase "@ + row.label,
                ],
                row.path,
            )
            &&& answered(seen, 0) && !went_well(reply(seen, 0)) ==> {
                &&& asked.len() == 1
                &&& outcome == no(
                    "Rebase blocked: "@ + row.label + " stash failed: "@ + util::compacted(
                        all_written("git"@, reply(seen, 0)),
                        120,
                    ),
                )
            }
            &&& answered(seen, 0) && went_well(reply(seen, 0)) ==> rebases_and_restores(
                config,
                row,
                true,
                asked.skip(1),
                later(seen, 1),
                outcome,
            )
        }),
{
    let script = ops::stash_script(config, row);
    let asked = conversation::requests(script, record);
    let stash = ops::command_script(ops::stash_argv(row.label), row.path);
    if let (stashed, Ok(result)) = conversation::play(stash, record) {
        lemma_rebases_and_restores(config, row, true, stashed, later(seen, 1));
        if result.code == 0 {
            let rest = conversation::requests(
                ops::rebase_step_script(config, row, true),
                stashed,
            );
            assert(asked.skip(1) =~= rest);
        }
    }
}

/// The rebase of one worktree takes its course, from the look whether it is there
/// to the local changes that are brought back.
pub proof fn rebases_take_their_course(config: ConfigView, row: RowView, record: Record)
    ensures
        rebases(
            config,
            row,
            conversation::requests(ops::rebase_script(config, row), record),
            record,
            conversation::play(ops::rebase_script(config, row), record).1,
        ),
{
    let script = ops::rebase_script(config, row);
    let asked = conversation::requests(script, record);
    let away = ops::away_script(row);
    let status = git::status_script(row.path);
    if let (after, Ok(None)) = conversation::play(away, record) {
        assert(after == later(record, 2));
        if let (looked, Ok(summary)) = conversation::play(status, after) {
            assert(looked == later(record, 3));
            lemma_rebases_and_restores(config, row, false, looked, later(record, 3));
            lemma_stashes_first(config, row, looked, later(record, 3));
            let last = if summary.len() > 0 {
                ops::stash_script(config, row)
            } else {
                ops::rebase_step_script(config, row, false)
            };
            let rest = conversation::requests(last, looked);
            assert(asked.skip(3) =~= rest);
            if summary.len() > 0 {
                assert(asked.skip(4) =~= rest.skip(1));
            }
        }
    }
}

/// How the base branch is brought up to date: is there a remote, then the fetch, is
/// the base branch known there, and then the base branch is taken forward. Without
/// a remote, or where the remote does not know the base branch, nothing more is
/// asked, and nothing stands in the way.
pub open spec fn syncs(
    config: ConfigView,
    asked: Seq<RequestView>,
    record: Record,
    outcome: Result<Option<ResultView>, RequestView>,
) -> bool {
    let remote = "origin/"@ + config.base_branch;
    let has_remote = went_well(reply(record, 0));
    let fetched = has_remote && went_well(reply(record, 1));
    let known = fetched && went_well(reply(record, 2));
    &&& asked.len() > 0
    &&& asked[0] == tries(seq!["git"@, "remote"@, "get-url"@, "origin"@], config.repo_path)
    &&& answered(record, 0) && !has_remote ==> asked.len() == 1 && outcome == Ok::<
        Option<ResultView>,
        RequestView,
    >(None)
    &&& answered(record, 0) && has_remote ==> asked.len() > 1 && asked[1] == runs(
        seq!["git"@, "fetch"@, "origin"@],
        config.repo_path,
    )
    &&& answered(record, 1) && has_remote && !fetched ==> {
        &&& asked.len() == 2
        &&& outcome == Ok::<Option<ResultView>, RequestView>(
            Some(
                ResultView {
                    ok: false,
                    message: "Rebase blocked: fetch origin failed: "@ + util::compacted(
                        all_written("git"@, reply(record, 1)),
                        120,
                    ),
                },
            ),
        )
    }
    &&& answered(record, 1) && fetched ==> asked.len() > 2 && asked[2] == tries(
        seq!["git"@, "rev-parse"@, "--verify"@, remote],
        config.repo_path,
    )
    &&& answered(record, 2) && fetched && !known ==> asked.len() == 3 && outcome == Ok::<
        Option<ResultView>,
        RequestView,
    >(None)
    &&& answered(record, 2) && known ==> asked.len() == 4 && asked[3] == runs(
        seq!["git"@, "merge"@, "--ff-only"@, remote],
        config.repo_path,
    )
    &&& answered(record, 3) && known ==> outcome == Ok::<Option<ResultView>, RequestView>(
        if went_well(reply(record, 3)) {
            None
        } else {
            Some(
                ResultView {
                    ok: false,
                    message: "Rebase blocked: base does not fast-forward to "@ + remote + ": "@
                        + util::compacted(all_written("git"@, reply(record, 3)), 120),
                },
            )
        },
    )
}

/// The base branch is brought up to date where it can be.
pub proof fn the_base_is_brought_up_to_date(config: ConfigView, record: Record)
    ensures
        syncs(
            config,
            conversation::requests(ops::sync_script(config), record),
            record,
            conversation::play(ops::sync_script(config), record).1,
        ),
{
}

/// The lines of a text that hold more than white space.
pub open spec fn filled_lines_of(written: Seq<char>) -> Seq<Seq<char>> {
    text::lines(written).filter(|line: Seq<char>| !text::is_blank(line))
}

/// A command is announced before it is run, and what it wrote is logged line by line,
/// but for blank lines. Its exit code and all that it wrote come of it; one that ended
/// without a code counts as failed, and so does one that did not start.
pub proof fn commands_are_logged(words: Seq<Seq<char>>, path: Seq<char>, record: Record)
    ensures
        ({
            let (after, outcome) = conversation::play(ops::command_script(words, path), record);
            let announced = record.log.push("$ "@ + util::command_line(words));
            let written = all_written(words[0], reply(record, 0));
            &&& !answered(record, 0) ==> after.log == announced && outcome == Err::<
                ops::CommandView,
                RequestView,
            >(runs(words, path))
            &&& answered(record, 0) ==> {
                &&& outcome is Ok
                &&& outcome->Ok_0.output == written
                &&& match reply(record, 0) {
                    ReplyView::Ran { code: Some(code), .. } => {
                        &&& outcome->Ok_0.code == code
                        &&& after.log == announced + filled_lines_of(written)
                    },
                    ReplyView::Ran { code: None, .. } => {
                        &&& outcome->Ok_0.code == 1
                        &&& after.log == announced + filled_lines_of(written)
                    },
                    _ => {
                        &&& outcome->Ok_0.code == 127
                        &&& after.log == announced.push(written)
                    },
                }
            }
        }),
{
    ops::command_log(words, path, record);
    if answered(record, 0) {
        let announced = record.log.push("$ "@ + util::command_line(words));
        let written = all_written(words[0], reply(record, 0));
        assert(announced + seq![written] =~= announced.push(written));
    }
}

/// What a reply says: whether a program went well, and what it wrote then.
pub proof fn replies_are_taken_at_their_word(answer: ReplyView)
    ensures
        conversation::succeeded(answer) == went_well(answer),
        util::output_text(answer) == wrote(answer),
{
}

/// A program that is run for what it writes is run by its words, where it has one or more,
/// and what it wrote comes of it where it went well. Without a word nothing is asked.
pub proof fn programs_are_run_by_their_words(
    words: Seq<Seq<char>>,
    place: Option<Seq<char>>,
    record: Record,
)
    ensures
        ({
            let script = util::output_script(words, place);
            let asked = conversation::requests(script, record);
            let (after, outcome) = conversation::play(script, record);
            &&& after.log == record.log
            &&& words.len() == 0 ==> asked.len() == 0 && outcome == Ok::<Seq<char>, RequestView>(
                seq![],
            )
            &&& words.len() > 0 ==> asked == seq![
                RequestView::Output { argv: words, cwd: place },
            ]
            &&& words.len() > 0 && answered(record, 0) ==> outcome == Ok::<Seq<char>, RequestView>(
                wrote(reply(record, 0)),
            )
        }),
{
}

/// A program that is run for its exit status is run by its words.
pub proof fn programs_are_tried_by_their_words(
    words: Seq<Seq<char>>,
    path: Seq<char>,
    record: Record,
)
    ensures
        ({
            let script = git::success_script(words, path);
            let (after, outcome) = conversation::play(script, record);
            &&& after.log == record.log
            &&& conversation::requests(script, record) == seq![tries(words, path)]
            &&& answered(record, 0) ==> outcome == Ok::<bool, RequestView>(
                went_well(reply(record, 0)),
            )
        }),
{
}

/// A commit is named by what git writes of it.
pub proof fn commits_are_named_by_git(path: Seq<char>, name: Seq<char>, record: Record)
    ensures
        ({
            let script = git::ref_script(path, name);
            let outcome = conversation::play(script, record).1;
            &&& conversation::requests(script, record) == seq![asks_commit(name, path)]
            &&& answered(record, 0) ==> outcome == Ok::<Seq<char>, RequestView>(
                name_in(reply(record, 0)),
            )
        }),
        git::short_name(name) == short(name),
{
    assert(git::short_name(name) =~= short(name));
}

/// A result says whether the operation is done, and what there is to say.
pub proof fn results_say_how_it_went(message: Seq<char>)
    ensures
        ops::done(message).ok,
        ops::done(message).message == message,
        !ops::refused(message).ok,
        ops::refused(message).message == message,
{
}

}
