//! What the operations write into the log beside their commands.
use vstd::prelude::*;

use crate::config::ConfigView;
use crate::conversation;
use crate::conversation::{Record, Script};
use crate::course;
use crate::git;
use crate::model::RowView;
use crate::ops;
use crate::ops::ResultView;
use crate::util;

verus! {

broadcast use {crate::conversation::group_play, crate::ops::group_commands};

/// The log ends with a line.
pub open spec fn ends_with(record: Record, line: Seq<char>) -> bool {
    record.log.len() > 0 && record.log[record.log.len() - 1] == line
}

/// Where a script is done, what it says is the last line of the log.
pub open spec fn says_when_done(script: Script<ResultView>, record: Record) -> bool {
    conversation::play(script, record) matches (after, Ok(result)) ==> result.ok ==> ends_with(
        after,
        result.message,
    )
}

proof fn lemma_contained_says(
    config: ConfigView,
    target: RowView,
    before: Seq<char>,
    after: Seq<char>,
    record: Record,
)
    ensures
        says_when_done(ops::contained_script(config, target, before, after), record),
{
}

proof fn lemma_verified_says(
    config: ConfigView,
    target: RowView,
    before: Seq<char>,
    record: Record,
)
    ensures
        says_when_done(ops::verified_script(config, target, before), record),
{
    let head = git::ref_script(config.repo_path, "HEAD"@);
    let status = git::status_script(config.repo_path);
    if let (at, Ok(after)) = conversation::play(head, record) {
        if let (then, Ok(changes)) = conversation::play(status, at) {
            lemma_contained_says(config, target, before, after, then);
        }
    }
}

proof fn lemma_commit_says(
    config: ConfigView,
    target: RowView,
    before: Seq<char>,
    record: Record,
)
    ensures
        says_when_done(ops::merge_commit_script(config, target, before), record),
{
    let merge = ops::command_script(ops::merge_argv(target.branch), config.repo_path);
    let commit = ops::command_script(ops::commit_argv(), config.repo_path);
    if let (at, Ok(merged)) = conversation::play(merge, record) {
        if let (then, Ok(committed)) = conversation::play(commit, at) {
            lemma_verified_says(config, target, before, then);
        }
    }
}

proof fn lemma_rebase_says(
    config: ConfigView,
    target: RowView,
    before: Seq<char>,
    record: Record,
)
    ensures
        says_when_done(ops::merge_rebase_script(config, target, before), record),
{
    let rebase = ops::command_script(ops::rebase_argv(config.base_branch), target.path);
    let forward = ops::command_script(ops::forward_argv(target.branch), config.repo_path);
    if let (at, Ok(rebased)) = conversation::play(rebase, record) {
        if let (then, Ok(forwarded)) = conversation::play(forward, at) {
            lemma_commit_says(config, target, before, then);
            lemma_verified_says(config, target, before, then);
        }
    }
}

/// A merge writes down where it starts from: once both commits are known, and before the
/// worktree is rebased, the log names them. When it is done, what it says is the last
/// line.
pub proof fn merges_write_down_their_commits(config: ConfigView, target: RowView, record: Record)
    ensures
        ({
            let script = ops::merge_steps_script(config, target);
            let seen = conversation::exchanges(script, record);
            let line = target.label + ": base "@ + course::short(
                course::name_in(course::reply(record, 0)),
            ) + " branch "@ + course::short(course::name_in(course::reply(record, 1)));
            &&& course::answered(record, 2) ==> {
                &&& seen.len() > 2
                &&& seen[2].log == record.log.push(line).push(
                    "$ "@ + util::command_line(seq!["git"@, "rebase"@, config.base_branch]),
                )
            }
            &&& says_when_done(script, record)
        }),
{
    broadcast use crate::conversation::group_exchanges;

    let head = git::ref_script(config.repo_path, "HEAD"@);
    let tip = git::ref_script(config.repo_path, target.branch);
    if let (at, Ok(before)) = conversation::play(head, record) {
        if let (then, Ok(branch)) = conversation::play(tip, at) {
            let line = target.label + ": base "@ + git::short_name(before) + " branch "@
                + git::short_name(branch);
            let said = Record { log: then.log.push(line), ..then };
            lemma_rebase_says(config, target, before, said);
            assert(git::short_name(before) =~= course::short(before));
            assert(git::short_name(branch) =~= course::short(branch));
        }
    }
}

/// Where the base branch cannot be brought up to date because there is no remote, or the
/// remote does not know it, the log says so.
pub proof fn missing_remotes_are_written_down(config: ConfigView, record: Record)
    ensures
        ({
            let after = conversation::play(ops::sync_script(config), record).0;
            let no_remote = !course::went_well(course::reply(record, 0));
            let fetched = course::went_well(course::reply(record, 1));
            let known = course::went_well(course::reply(record, 2));
            &&& course::answered(record, 0) && no_remote ==> ends_with(
                after,
                "No origin remote; rebasing onto local base branch"@,
            )
            &&& course::answered(record, 2) && !no_remote && fetched && !known ==> ends_with(
                after,
                "origin/"@ + config.base_branch + " missing; rebasing onto local base branch"@,
            )
        }),
{
}

}
