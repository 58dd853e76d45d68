//! What the operations take back when a step fails, and what they make sure of
//! before they call themselves done.
use vstd::prelude::*;

use crate::config::ConfigView;
use crate::conversation;
use crate::conversation::{Exchange, Record, RequestView};
use crate::git;
use crate::model::RowView;
use crate::ops;
use crate::ops::ResultView;
use crate::safety;
use crate::text;
use crate::util;

verus! {

broadcast use {
    crate::conversation::group_play,
    crate::conversation::group_exchanges,
    crate::ops::group_commands,
};

/// The request that takes back what another one has left half done: a rebase is
/// aborted, and so is a merge, also where it is the commit that failed.
pub open spec fn undo_of(config: ConfigView, request: RequestView) -> Option<RequestView> {
    match request {
        RequestView::Output { argv, cwd } => if argv == ops::rebase_argv(config.base_branch) {
            Some(RequestView::Output { argv: ops::rebase_abort_argv(), cwd })
        } else if argv.len() == 5 && argv == ops::merge_argv(argv[4]) || argv
            == ops::commit_argv() {
            Some(RequestView::Output { argv: ops::merge_abort_argv(), cwd })
        } else {
            None
        },
        _ => None,
    }
}

/// Whether a command failed: it did not start, or its exit code is not zero.
pub open spec fn command_failed(exchange: Exchange) -> bool {
    exchange.request matches RequestView::Output { argv, .. } && ops::command_result(
        argv[0],
        exchange.reply,
    ).code != 0
}

/// Nothing is left half done: right behind every command that failed and that can
/// be taken back comes the one that takes it back.
pub open spec fn settled(config: ConfigView, seen: Seq<Exchange>) -> bool {
    forall|i: int|
        #![trigger seen[i]]
        0 <= i < seen.len() && command_failed(seen[i]) && undo_of(config, seen[i].request) is Some
            ==> i + 1 < seen.len() && undo_of(config, seen[i].request) == Some(seen[i + 1].request)
}

pub(crate) proof fn lemma_settled_append(
    config: ConfigView,
    first: Seq<Exchange>,
    second: Seq<Exchange>,
)
    requires
        settled(config, first),
        settled(config, second),
    ensures
        settled(config, first + second),
{
    let both = first + second;
    assert forall|i: int|
        #![trigger both[i]]
        0 <= i < both.len() && command_failed(both[i]) && undo_of(
            config,
            both[i].request,
        ) is Some implies i + 1 < both.len() && undo_of(config, both[i].request) == Some(
        both[i + 1].request,
    ) by {
        if i < first.len() {
            assert(both[i] == first[i]);
            assert(both[i + 1] == first[i + 1]);
        } else {
            assert(both[i] == second[i - first.len()]);
            assert(both[i + 1] == second[i + 1 - first.len()]);
        }
    }
}

/// The second words of git's commands are told apart.
pub(crate) proof fn lemma_commands_differ()
    ensures
        "rebase"@ != "branch"@,
        "rebase"@ != "status"@,
        "rebase"@ != "worktree"@,
        "rebase"@ != "remote"@,
        "rebase"@ != "rev-parse"@,
        "rebase"@ != "rev-list"@,
        "rebase"@ != "log"@,
        "rebase"@ != "merge-base"@,
        "rebase"@ != "merge"@,
        "rebase"@ != "-c"@,
        "rebase"@ != "stash"@,
        "rebase"@ != "fetch"@,
        "merge"@ != "branch"@,
        "merge"@ != "status"@,
        "merge"@ != "worktree"@,
        "merge"@ != "remote"@,
        "merge"@ != "rev-parse"@,
        "merge"@ != "rev-list"@,
        "merge"@ != "log"@,
        "merge"@ != "merge-base"@,
        "merge"@ != "-c"@,
        "merge"@ != "stash"@,
        "merge"@ != "fetch"@,
        "-c"@ != "branch"@,
        "-c"@ != "status"@,
        "-c"@ != "worktree"@,
        "-c"@ != "remote"@,
        "-c"@ != "rev-parse"@,
        "-c"@ != "rev-list"@,
        "-c"@ != "log"@,
        "-c"@ != "merge-base"@,
        "-c"@ != "stash"@,
        "-c"@ != "fetch"@,
        "stash"@ != "branch"@,
        "stash"@ != "status"@,
        "stash"@ != "worktree"@,
        "stash"@ != "remote"@,
        "stash"@ != "rev-parse"@,
        "stash"@ != "rev-list"@,
        "stash"@ != "log"@,
        "stash"@ != "merge-base"@,
        "stash"@ != "fetch"@,
{
    reveal_strlit("rebase");
    reveal_strlit("merge");
    reveal_strlit("-c");
    reveal_strlit("stash");
    reveal_strlit("fetch");
    reveal_strlit("branch");
    reveal_strlit("status");
    reveal_strlit("worktree");
    reveal_strlit("remote");
    reveal_strlit("rev-parse");
    reveal_strlit("rev-list");
    reveal_strlit("log");
    reveal_strlit("merge-base");
    assert("-c"@.len() == 2 && "log"@.len() == 3 && "merge"@.len() == 5 && "rebase"@.len() == 6);
    assert("stash"@.len() == 5 && "fetch"@.len() == 5 && "status"@.len() == 6);
    assert("branch"@.len() == 6 && "remote"@.len() == 6 && "rev-list"@.len() == 8);
    assert("worktree"@.len() == 8 && "rev-parse"@.len() == 9 && "merge-base"@.len() == 10);
    assert("rebase"@[2] == 'b' && "remote"@[2] == 'm');
    assert("rebase"@[0] == 'r' && "branch"@[0] == 'b' && "status"@[0] == 's');
    assert("merge"@[0] == 'm' && "stash"@[0] == 's' && "fetch"@[0] == 'f');
}

proof fn lemma_reads_need_no_undo(config: ConfigView, request: RequestView)
    requires
        safety::is_read(request),
    ensures
        undo_of(config, request) is None,
{
    lemma_commands_differ();
    if let RequestView::Output { argv, .. } = request {
        let second = argv[1];
        assert(second == "branch"@ || second == "status"@ || second == "worktree"@ || second
            == "remote"@ || second == "rev-parse"@ || second == "rev-list"@ || second == "log"@
            || second == "merge-base"@);
        assert(ops::rebase_argv(config.base_branch)[1] == "rebase"@);
        assert(ops::merge_argv(argv[4])[1] == "merge"@);
        assert(ops::commit_argv()[1] == "-c"@);
    }
}

pub(crate) proof fn lemma_reading_is_settled<T>(
    config: ConfigView,
    script: conversation::Script<T>,
    record: Record,
)
    requires
        conversation::asks_only(script, record, safety::reading()),
    ensures
        settled(config, conversation::exchanges(script, record)),
{
    conversation::every_request_is_judged(script, record, safety::reading());
    let seen = conversation::exchanges(script, record);
    assert forall|i: int| 0 <= i < seen.len() implies undo_of(
        config,
        (#[trigger] seen[i]).request,
    ) is None by {
        assert((safety::reading())(seen[i].request, seen[i].log));
        lemma_reads_need_no_undo(config, seen[i].request);
    }
}

/// The commands that take something back need not be taken back themselves, nor
/// does a merge that only goes forward, nor do stashes.
pub(crate) proof fn lemma_no_undo(config: ConfigView, cwd: Option<Seq<char>>)
    requires
        config.base_branch != "--abort"@,
    ensures
        undo_of(config, RequestView::Output { argv: ops::rebase_abort_argv(), cwd }) is None,
        undo_of(config, RequestView::Output { argv: ops::merge_abort_argv(), cwd }) is None,
        undo_of(config, RequestView::Output { argv: ops::restore_argv(), cwd }) is None,
        forall|branch: Seq<char>|
            #![trigger ops::forward_argv(branch)]
            undo_of(
                config,
                RequestView::Output { argv: ops::forward_argv(branch), cwd },
            ) is None,
        forall|label: Seq<char>|
            #![trigger ops::stash_argv(label)]
            undo_of(config, RequestView::Output { argv: ops::stash_argv(label), cwd }) is None,
{
    lemma_commands_differ();
    let rebase = ops::rebase_argv(config.base_branch);
    assert(rebase[1] == "rebase"@ && rebase[2] == config.base_branch && rebase.len() == 3);
    assert(ops::rebase_abort_argv()[2] == "--abort"@);
    assert(ops::merge_abort_argv()[1] == "merge"@);
    assert(ops::commit_argv().len() == 5);
}

proof fn lemma_undo_settles(
    config: ConfigView,
    undo: Seq<Seq<char>>,
    cwd: Seq<char>,
    message: Seq<char>,
    record: Record,
)
    requires
        undo_of(config, RequestView::Output { argv: undo, cwd: Some(cwd) }) is None,
    ensures
        ({
            let script = ops::undo_script(undo, cwd, message);
            let seen = conversation::exchanges(script, record);
            conversation::play(script, record).1 matches Ok(result) ==> {
                &&& seen.len() == 1
                &&& seen[0].request == RequestView::Output { argv: undo, cwd: Some(cwd) }
                &&& settled(config, seen)
                &&& result == ops::refused(message)
            }
        }),
{
}

proof fn lemma_verified_settles(
    config: ConfigView,
    target: RowView,
    main_before: Seq<char>,
    record: Record,
)
    ensures
        conversation::asks_only(
            ops::verified_script(config, target, main_before),
            record,
            safety::reading(),
        ),
        settled(
            config,
            conversation::exchanges(ops::verified_script(config, target, main_before), record),
        ),
{
    broadcast use crate::conversation::group_asks;

    lemma_reading_is_settled(config, ops::verified_script(config, target, main_before), record);
}

/// A command and what follows it, where the command is taken back at once if it
/// failed.
pub(crate) proof fn lemma_step_settles(config: ConfigView, step: Exchange, rest: Seq<Exchange>)
    requires
        settled(config, rest),
        command_failed(step) && undo_of(config, step.request) is Some ==> rest.len() > 0
            && undo_of(config, step.request) == Some(rest[0].request),
    ensures
        settled(config, seq![step] + rest),
{
    let both = seq![step] + rest;
    assert forall|i: int|
        #![trigger both[i]]
        0 <= i < both.len() && command_failed(both[i]) && undo_of(
            config,
            both[i].request,
        ) is Some implies i + 1 < both.len() && undo_of(config, both[i].request) == Some(
        both[i + 1].request,
    ) by {
        if i > 0 {
            assert(both[i] == rest[i - 1]);
            assert(both[i + 1] == rest[i]);
        } else {
            assert(both[1] == rest[0]);
        }
    }
}

proof fn lemma_commit_settles(
    config: ConfigView,
    target: RowView,
    main_before: Seq<char>,
    record: Record,
)
    requires
        config.base_branch != "--abort"@,
    ensures
        ({
            let script = ops::merge_commit_script(config, target, main_before);
            conversation::play(script, record).1 is Ok ==> settled(
                config,
                conversation::exchanges(script, record),
            )
        }),
{
    let script = ops::merge_commit_script(config, target, main_before);
    let cwd = config.repo_path;
    lemma_no_undo(config, Some(cwd));
    lemma_commands_differ();
    let merge = ops::merge_argv(target.branch);
    assert(merge[4] == target.branch && merge.len() == 5);
    if record.heard < record.replies.len() {
        let (merged, merge_outcome) = conversation::play(ops::command_script(merge, cwd), record);
        let merge_result = merge_outcome->Ok_0;
        let first = conversation::exchanges(ops::command_script(merge, cwd), record);
        let conflict = "Merge blocked: "@ + target.label + " conflicts: "@ + util::compacted(
            merge_result.output,
            160,
        );
        if merge_result.code != 0 {
            lemma_undo_settles(config, ops::merge_abort_argv(), cwd, conflict, merged);
            let rest = conversation::exchanges(
                ops::undo_script(ops::merge_abort_argv(), cwd, conflict),
                merged,
            );
            if conversation::play(script, record).1 is Ok {
                lemma_step_settles(config, first[0], rest);
                assert(conversation::exchanges(script, record) =~= seq![first[0]] + rest);
            }
        } else if merged.heard < merged.replies.len() {
            let commit = ops::commit_argv();
            let (committed, commit_outcome) = conversation::play(
                ops::command_script(commit, cwd),
                merged,
            );
            let commit_result = commit_outcome->Ok_0;
            let second = conversation::exchanges(ops::command_script(commit, cwd), merged);
            let failure = "Merge failed: "@ + target.label + " commit failed: "@
                + util::compacted(commit_result.output, 120);
            let rest = if commit_result.code != 0 {
                conversation::exchanges(
                    ops::undo_script(ops::merge_abort_argv(), cwd, failure),
                    committed,
                )
            } else {
                conversation::exchanges(
                    ops::verified_script(config, target, main_before),
                    committed,
                )
            };
            lemma_undo_settles(config, ops::merge_abort_argv(), cwd, failure, committed);
            lemma_verified_settles(config, target, main_before, committed);
            if conversation::play(script, record).1 is Ok {
                lemma_step_settles(config, second[0], rest);
                lemma_step_settles(config, first[0], seq![second[0]] + rest);
                assert(conversation::exchanges(script, record) =~= seq![first[0]] + (
                seq![second[0]] + rest));
            }
        }
    }
}

proof fn lemma_rebase_settles(
    config: ConfigView,
    target: RowView,
    main_before: Seq<char>,
    record: Record,
)
    requires
        config.base_branch != "--abort"@,
    ensures
        ({
            let script = ops::merge_rebase_script(config, target, main_before);
            conversation::play(script, record).1 is Ok ==> settled(
                config,
                conversation::exchanges(script, record),
            )
        }),
{
    let script = ops::merge_rebase_script(config, target, main_before);
    lemma_no_undo(config, Some(config.repo_path));
    lemma_no_undo(config, Some(target.path));
    let rebase = ops::rebase_argv(config.base_branch);
    if record.heard < record.replies.len() {
        let (rebased, rebase_outcome) = conversation::play(
            ops::command_script(rebase, target.path),
            record,
        );
        let rebase_result = rebase_outcome->Ok_0;
        let first = conversation::exchanges(ops::command_script(rebase, target.path), record);
        let failure = "Merge blocked: "@ + target.label + " rebase failed: "@ + util::compacted(
            rebase_result.output,
            160,
        );
        if rebase_result.code != 0 {
            let undo = ops::rebase_abort_argv();
            lemma_undo_settles(config, undo, target.path, failure, rebased);
            let rest = conversation::exchanges(
                ops::undo_script(undo, target.path, failure),
                rebased,
            );
            if conversation::play(script, record).1 is Ok {
                lemma_step_settles(config, first[0], rest);
                assert(conversation::exchanges(script, record) =~= seq![first[0]] + rest);
            }
        } else if rebased.heard < rebased.replies.len() {
            let forward = ops::forward_argv(target.branch);
            let (moved, forward_outcome) = conversation::play(
                ops::command_script(forward, config.repo_path),
                rebased,
            );
            let second = conversation::exchanges(
                ops::command_script(forward, config.repo_path),
                rebased,
            );
            let rest = if (forward_outcome->Ok_0).code != 0 {
                conversation::exchanges(
                    ops::merge_commit_script(config, target, main_before),
                    moved,
                )
            } else {
                conversation::exchanges(ops::verified_script(config, target, main_before), moved)
            };
            lemma_commit_settles(config, target, main_before, moved);
            lemma_verified_settles(config, target, main_before, moved);
            if conversation::play(script, record).1 is Ok {
                lemma_step_settles(config, second[0], rest);
                lemma_step_settles(config, first[0], seq![second[0]] + rest);
                assert(conversation::exchanges(script, record) =~= seq![first[0]] + (
                seq![second[0]] + rest));
            }
        }
    }
}

proof fn lemma_steps_settle(config: ConfigView, target: RowView, record: Record)
    requires
        config.base_branch != "--abort"@,
    ensures
        ({
            let script = ops::merge_steps_script(config, target);
            conversation::play(script, record).1 is Ok ==> settled(
                config,
                conversation::exchanges(script, record),
            )
        }),
{
    broadcast use crate::conversation::group_asks;

    let head = git::ref_script(config.repo_path, "HEAD"@);
    let tip = git::ref_script(config.repo_path, target.branch);
    lemma_reading_is_settled(config, head, record);
    if let (after, Ok(main_before)) = conversation::play(head, record) {
        lemma_reading_is_settled(config, tip, after);
        if let (later, Ok(branch_before)) = conversation::play(tip, after) {
            let line = target.label + ": base "@ + git::short_name(main_before) + " branch "@
                + git::short_name(branch_before);
            let said = Record { log: later.log.push(line), ..later };
            lemma_rebase_settles(config, target, main_before, said);
            let first = conversation::exchanges(head, record);
            let second = conversation::exchanges(tip, after);
            let rest = conversation::exchanges(
                ops::merge_rebase_script(config, target, main_before),
                said,
            );
            if conversation::play(ops::merge_steps_script(config, target), record).1 is Ok {
                lemma_settled_append(config, second, rest);
                lemma_settled_append(config, first, second + rest);
                assert(conversation::exchanges(ops::merge_steps_script(config, target), record)
                    =~= first + (second + rest));
            }
        }
    }
}

/// A merge that has come to its end has left nothing half done: a rebase, a merge
/// or a commit that failed has been aborted at once, where it was tried.
pub proof fn merges_leave_nothing_half_done(config: ConfigView, label: Seq<char>, record: Record)
    requires
        config.base_branch != "--abort"@,
    ensures
        conversation::play(ops::merge_script(config, label), record).1 is Ok ==> settled(
            config,
            conversation::exchanges(ops::merge_script(config, label), record),
        ),
{
    safety::merges_look_before_they_change(config, label, record);
    let checks = ops::merge_checks_script(config, label);
    lemma_reading_is_settled(config, checks, record);
    let first = conversation::exchanges(checks, record);
    if let (after, Ok(Ok(target))) = conversation::play(checks, record) {
        lemma_steps_settle(config, target, after);
        let rest = conversation::exchanges(ops::merge_steps_script(config, target), after);
        if conversation::play(ops::merge_script(config, label), record).1 is Ok {
            lemma_settled_append(config, first, rest);
        }
    } else if let (after, Ok(Err(result))) = conversation::play(checks, record) {
        assert(conversation::exchanges(ops::merge_script(config, label), record) =~= first);
    }
}

/// The commit that an exchange found.
pub open spec fn commit_in(exchange: Exchange) -> Seq<char> {
    text::trimmed(util::output_text(exchange.reply))
}

/// The request for the commit that the base checkout is on.
pub open spec fn head_request(config: ConfigView) -> RequestView {
    RequestView::Output {
        argv: seq!["git"@, "rev-parse"@, "HEAD"@],
        cwd: Some(config.repo_path),
    }
}

/// The last three exchanges show that the merge worked: the base checkout is on a
/// commit, on another one than before if there was something to merge; it is
/// clean; and the base branch contains the branch that was merged.
pub open spec fn proven(
    config: ConfigView,
    target: RowView,
    main_before: Seq<char>,
    seen: Seq<Exchange>,
    result: ResultView,
) -> bool {
    let n = seen.len();
    &&& n >= 3
    &&& seen[n - 3].request == head_request(config)
    &&& target.ahead > 0 ==> commit_in(seen[n - 3]) != main_before
    &&& safety::shows_clean(seen[n - 2], config.repo_path)
    &&& seen[n - 1].request == RequestView::Status {
        argv: ops::ancestor_argv(target.branch, config.base_branch),
        cwd: Some(config.repo_path),
    }
    &&& conversation::succeeded(seen[n - 1].reply)
    &&& result.message == ops::merged_message(
        config,
        target,
        main_before,
        commit_in(seen[n - 3]),
    )
}

proof fn lemma_verified_proves(
    config: ConfigView,
    target: RowView,
    main_before: Seq<char>,
    record: Record,
)
    ensures
        ({
            let script = ops::verified_script(config, target, main_before);
            conversation::play(script, record).1 matches Ok(result) ==> result.ok ==> proven(
                config,
                target,
                main_before,
                conversation::exchanges(script, record),
                result,
            )
        }),
{
    if record.heard + 1 < record.replies.len() {
        let reply = record.replies[record.heard as int + 1];
        safety::lemma_change_summary(git::filled_lines(util::output_text(reply)));
    }
}

proof fn lemma_proven_behind(
    config: ConfigView,
    target: RowView,
    main_before: Seq<char>,
    first: Seq<Exchange>,
    seen: Seq<Exchange>,
    result: ResultView,
)
    requires
        proven(config, target, main_before, seen, result),
    ensures
        proven(config, target, main_before, first + seen, result),
{
    let both = first + seen;
    let n = seen.len();
    let m = both.len();
    assert(both[m - 3] == seen[n - 3]);
    assert(both[m - 2] == seen[n - 2]);
    assert(both[m - 1] == seen[n - 1]);
}

proof fn lemma_commit_proves(
    config: ConfigView,
    target: RowView,
    main_before: Seq<char>,
    record: Record,
)
    ensures
        ({
            let script = ops::merge_commit_script(config, target, main_before);
            conversation::play(script, record).1 matches Ok(result) ==> result.ok ==> proven(
                config,
                target,
                main_before,
                conversation::exchanges(script, record),
                result,
            )
        }),
{
    let script = ops::merge_commit_script(config, target, main_before);
    let merge = ops::command_script(ops::merge_argv(target.branch), config.repo_path);
    let commit = ops::command_script(ops::commit_argv(), config.repo_path);
    if let (merged, Ok(merge_result)) = conversation::play(merge, record) {
        if let (committed, Ok(commit_result)) = conversation::play(commit, merged) {
            lemma_verified_proves(config, target, main_before, committed);
            let first = conversation::exchanges(merge, record);
            let second = conversation::exchanges(commit, merged);
            let rest = conversation::exchanges(
                ops::verified_script(config, target, main_before),
                committed,
            );
            if let (after, Ok(result)) = conversation::play(script, record) {
                if result.ok {
                    lemma_proven_behind(config, target, main_before, second, rest, result);
                    lemma_proven_behind(
                        config,
                        target,
                        main_before,
                        first,
                        second + rest,
                        result,
                    );
                }
            }
        }
    }
}

proof fn lemma_rebase_proves(
    config: ConfigView,
    target: RowView,
    main_before: Seq<char>,
    record: Record,
)
    ensures
        ({
            let script = ops::merge_rebase_script(config, target, main_before);
            conversation::play(script, record).1 matches Ok(result) ==> result.ok ==> proven(
                config,
                target,
                main_before,
                conversation::exchanges(script, record),
                result,
            )
        }),
{
    let script = ops::merge_rebase_script(config, target, main_before);
    let rebase = ops::command_script(ops::rebase_argv(config.base_branch), target.path);
    let forward = ops::command_script(ops::forward_argv(target.branch), config.repo_path);
    if let (rebased, Ok(rebase_result)) = conversation::play(rebase, record) {
        if let (moved, Ok(forward_result)) = conversation::play(forward, rebased) {
            lemma_verified_proves(config, target, main_before, moved);
            lemma_commit_proves(config, target, main_before, moved);
            let first = conversation::exchanges(rebase, record);
            let second = conversation::exchanges(forward, rebased);
            let rest = if forward_result.code != 0 {
                conversation::exchanges(
                    ops::merge_commit_script(config, target, main_before),
                    moved,
                )
            } else {
                conversation::exchanges(ops::verified_script(config, target, main_before), moved)
            };
            if let (after, Ok(result)) = conversation::play(script, record) {
                if result.ok {
                    lemma_proven_behind(config, target, main_before, second, rest, result);
                    lemma_proven_behind(
                        config,
                        target,
                        main_before,
                        first,
                        second + rest,
                        result,
                    );
                }
            }
        }
    }
}

/// A merge calls itself done only when the base checkout has been seen to be
/// clean, to have moved on and to contain the branch; what it says names the
/// commits that the base branch was on before and after.
pub proof fn done_merges_are_proven(config: ConfigView, target: RowView, record: Record)
    ensures
        ({
            let script = ops::merge_steps_script(config, target);
            let seen = conversation::exchanges(script, record);
            conversation::play(script, record).1 matches Ok(result) ==> result.ok ==> {
                &&& seen.len() > 3
                &&& seen[0].request == head_request(config)
                &&& proven(config, target, commit_in(seen[0]), seen, result)
            }
        }),
{
    let script = ops::merge_steps_script(config, target);
    let head = git::ref_script(config.repo_path, "HEAD"@);
    let tip = git::ref_script(config.repo_path, target.branch);
    if let (after, Ok(main_before)) = conversation::play(head, record) {
        if let (later, Ok(branch_before)) = conversation::play(tip, after) {
            let line = target.label + ": base "@ + git::short_name(main_before) + " branch "@
                + git::short_name(branch_before);
            let said = Record { log: later.log.push(line), ..later };
            lemma_rebase_proves(config, target, main_before, said);
            let first = conversation::exchanges(head, record);
            let second = conversation::exchanges(tip, after);
            let rest = conversation::exchanges(
                ops::merge_rebase_script(config, target, main_before),
                said,
            );
            if let (last, Ok(result)) = conversation::play(script, record) {
                if result.ok {
                    lemma_proven_behind(config, target, main_before, second, rest, result);
                    lemma_proven_behind(
                        config,
                        target,
                        main_before,
                        first,
                        second + rest,
                        result,
                    );
                    assert(conversation::exchanges(script, record) =~= first + (second + rest));
                }
            }
        }
    }
}

}
