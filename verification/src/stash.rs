//! What a rebase does with local changes: they are put aside, and they are
//! brought back whatever comes of the rebase.
use vstd::prelude::*;

use crate::config::ConfigView;
use crate::conversation;
use crate::conversation::{Exchange, Record, RequestView, Script};
use crate::git;
use crate::model::RowView;
use crate::ops;
use crate::ops::ResultView;
use crate::safety;
use crate::undo;
use crate::util;

verus! {

broadcast use {
    crate::conversation::group_play,
    crate::conversation::group_exchanges,
    crate::ops::group_commands,
};

/// Whether a request puts local changes aside.
pub open spec fn is_stash(request: RequestView) -> bool {
    request matches RequestView::Output { argv, .. } && argv.len() == 6 && argv == seq![
        "git"@,
        "stash"@,
        "push"@,
        "-u"@,
        "-m"@,
        argv[5],
    ]
}

/// Whether a request brings local changes back.
pub open spec fn is_restore(request: RequestView) -> bool {
    request matches RequestView::Output { argv, .. } && argv == ops::restore_argv()
}

/// Whether `back` brings back, in the same checkout, what `stash` put aside.
pub open spec fn brings_back(stash: RequestView, back: RequestView) -> bool {
    &&& is_restore(back)
    &&& stash->Output_cwd == back->Output_cwd
}

/// Local changes that were put aside are brought back: right after the rebase, or
/// after the abort that follows a rebase that failed.
pub open spec fn brought_back(seen: Seq<Exchange>) -> bool {
    forall|i: int|
        #![trigger seen[i]]
        0 <= i < seen.len() && is_stash(seen[i].request) && !undo::command_failed(seen[i]) ==> {
            ||| i + 2 < seen.len() && brings_back(seen[i].request, seen[i + 2].request)
            ||| i + 3 < seen.len() && brings_back(seen[i].request, seen[i + 3].request)
        }
}

pub(crate) proof fn lemma_brought_back_append(first: Seq<Exchange>, second: Seq<Exchange>)
    requires
        brought_back(first),
        brought_back(second),
    ensures
        brought_back(first + second),
{
    let both = first + second;
    assert forall|i: int|
        #![trigger both[i]]
        0 <= i < both.len() && is_stash(both[i].request) && !undo::command_failed(
            both[i],
        ) implies {
        ||| i + 2 < both.len() && brings_back(both[i].request, both[i + 2].request)
        ||| i + 3 < both.len() && brings_back(both[i].request, both[i + 3].request)
    } by {
        if i < first.len() {
            assert(both[i] == first[i]);
            if i + 2 < first.len() {
                assert(both[i + 2] == first[i + 2]);
            }
            if i + 3 < first.len() {
                assert(both[i + 3] == first[i + 3]);
            }
        } else {
            let j = i - first.len();
            assert(both[i] == second[j]);
            if j + 2 < second.len() {
                assert(both[i + 2] == second[j + 2]);
            }
            if j + 3 < second.len() {
                assert(both[i + 3] == second[j + 3]);
            }
        }
    }
}

/// Nothing is put aside or brought back.
pub open spec fn leaves_changes_alone(seen: Seq<Exchange>) -> bool {
    forall|i: int|
        0 <= i < seen.len() ==> !is_stash((#[trigger] seen[i]).request) && !is_restore(
            seen[i].request,
        )
}

/// Where nothing is put aside, all of it has been brought back.
pub(crate) proof fn lemma_alone_is_brought_back(seen: Seq<Exchange>)
    requires
        leaves_changes_alone(seen),
    ensures
        brought_back(seen),
        forall|i: int| 0 <= i < seen.len() ==> !restore_failed(#[trigger] seen[i]),
{
}

pub(crate) proof fn lemma_reading_leaves_changes_alone<T>(script: Script<T>, record: Record)
    requires
        conversation::asks_only(script, record, safety::reading()),
    ensures
        leaves_changes_alone(conversation::exchanges(script, record)),
        brought_back(conversation::exchanges(script, record)),
{
    conversation::every_request_is_judged(script, record, safety::reading());
    undo::lemma_commands_differ();
    let seen = conversation::exchanges(script, record);
    assert forall|i: int| 0 <= i < seen.len() implies !is_stash((#[trigger] seen[i]).request)
        && !is_restore(seen[i].request) by {
        assert((safety::reading())(seen[i].request, seen[i].log));
        if let RequestView::Output { argv, .. } = seen[i].request {
            let second = argv[1];
            assert(second == "branch"@ || second == "status"@ || second == "worktree"@ || second
                == "remote"@ || second == "rev-parse"@ || second == "rev-list"@ || second == "log"@
                || second == "merge-base"@);
            assert(ops::restore_argv()[1] == "stash"@);
        }
    }
}

proof fn lemma_other_commands(config: ConfigView, cwd: Option<Seq<char>>)
    ensures
        !is_stash(RequestView::Output { argv: ops::rebase_argv(config.base_branch), cwd }),
        !is_restore(RequestView::Output { argv: ops::rebase_argv(config.base_branch), cwd }),
        !is_stash(RequestView::Output { argv: ops::rebase_abort_argv(), cwd }),
        !is_restore(RequestView::Output { argv: ops::rebase_abort_argv(), cwd }),
        !is_stash(RequestView::Output { argv: ops::restore_argv(), cwd }),
        is_restore(RequestView::Output { argv: ops::restore_argv(), cwd }),
        forall|label: Seq<char>|
            #![trigger ops::stash_argv(label)]
            is_stash(RequestView::Output { argv: ops::stash_argv(label), cwd }) && !is_restore(
                RequestView::Output { argv: ops::stash_argv(label), cwd },
            ),
{
    undo::lemma_commands_differ();
    assert forall|label: Seq<char>| #![trigger ops::stash_argv(label)] is_stash(
        RequestView::Output { argv: ops::stash_argv(label), cwd },
    ) && !is_restore(RequestView::Output { argv: ops::stash_argv(label), cwd }) by {
        let argv = ops::stash_argv(label);
        assert(argv =~= seq!["git"@, "stash"@, "push"@, "-u"@, "-m"@, argv[5]]);
        assert(ops::restore_argv().len() == 4);
    }
    assert(ops::rebase_argv(config.base_branch).len() == 3);
    assert(ops::rebase_abort_argv().len() == 3);
    assert(ops::restore_argv().len() == 4);
}

/// A rebase of one worktree, from the rebase itself on: what was put aside comes
/// back last.
proof fn lemma_step_restores(config: ConfigView, row: RowView, stashed: bool, record: Record)
    requires
        config.base_branch != "--abort"@,
    ensures
        ({
            let script = ops::rebase_step_script(config, row, stashed);
            let seen = conversation::exchanges(script, record);
            let n = seen.len();
            conversation::play(script, record).1 matches Ok(result) ==> {
                &&& undo::settled(config, seen)
                &&& brought_back(seen)
                &&& !stashed ==> leaves_changes_alone(seen)
                &&& stashed ==> {
                    &&& n == 2 || n == 3
                    &&& seen[n - 1].request == RequestView::Output {
                        argv: ops::restore_argv(),
                        cwd: Some(row.path),
                    }
                    &&& leaves_changes_alone(seen.drop_last())
                    &&& undo::command_failed(seen[n - 1]) ==> !result.ok
                }
                &&& !result.ok ==> ("Rebase blocked: "@ + row.label).is_prefix_of(result.message)
                &&& result.ok ==> result.message == "Rebased "@ + row.label
            }
        }),
{
    let cwd = Some(row.path);
    lemma_other_commands(config, cwd);
    undo::lemma_no_undo(config, cwd);
    let script = ops::rebase_step_script(config, row, stashed);
    let seen = conversation::exchanges(script, record);
    let rebase = ops::command_script(ops::rebase_argv(config.base_branch), row.path);
    let start = "Rebase blocked: "@ + row.label;
    if let (rebased, Ok(rebase_result)) = conversation::play(rebase, record) {
        let first = conversation::exchanges(rebase, record);
        assert(first.len() == 1);
        if rebase_result.code != 0 {
            let tail = " conflicts: "@ + util::compacted(rebase_result.output, 120);
            let message = "Rebase blocked: "@ + row.label + " conflicts: "@ + util::compacted(
                rebase_result.output,
                120,
            );
            assert(message =~= start + tail);
            let abort = ops::command_script(ops::rebase_abort_argv(), row.path);
            if let (aborted, Ok(abort_result)) = conversation::play(abort, rebased) {
                let second = conversation::exchanges(abort, rebased);
                let restore = ops::undo_script(ops::restore_argv(), row.path, message);
                if stashed {
                    if let (restored, Ok(result)) = conversation::play(restore, aborted) {
                        let third = conversation::exchanges(restore, aborted);
                        assert(seen =~= first + (second + third));
                        assert(seen.len() == 3);
                    }
                } else {
                    assert(seen =~= first + second);
                }
            }
        } else if stashed {
            let restore = ops::command_script(ops::restore_argv(), row.path);
            if let (restored, Ok(result)) = conversation::play(restore, rebased) {
                let second = conversation::exchanges(restore, rebased);
                let tail = " stash restore failed: "@ + util::compacted(result.output, 120);
                assert("Rebase blocked: "@ + row.label + " stash restore failed: "@
                    + util::compacted(result.output, 120) =~= start + tail);
                assert(seen =~= first + second);
                assert(seen.len() == 2);
            }
        } else {
            assert(seen =~= first);
        }
    }
}

/// Local changes could not be brought back.
pub open spec fn restore_failed(exchange: Exchange) -> bool {
    is_restore(exchange.request) && undo::command_failed(exchange)
}

/// Where local changes could not be brought back, nothing follows, and the result
/// names the worktree of one of the `rows` that they belong to.
pub open spec fn stops_at_failed_restore(
    rows: Seq<RowView>,
    seen: Seq<Exchange>,
    result: ResultView,
) -> bool {
    forall|i: int|
        #![trigger seen[i]]
        0 <= i < seen.len() && restore_failed(seen[i]) ==> {
            &&& i + 1 == seen.len()
            &&& !result.ok
            &&& exists|k: int|
                #![trigger rows[k]]
                {
                    &&& 0 <= k < rows.len()
                    &&& seen[i].request->Output_cwd == Some(rows[k].path)
                    &&& ("Rebase blocked: "@ + rows[k].label).is_prefix_of(result.message)
                }
        }
}

proof fn lemma_stash_restores(config: ConfigView, row: RowView, record: Record)
    requires
        config.base_branch != "--abort"@,
    ensures
        ({
            let script = ops::stash_script(config, row);
            let seen = conversation::exchanges(script, record);
            conversation::play(script, record).1 matches Ok(result) ==> {
                &&& undo::settled(config, seen)
                &&& brought_back(seen)
                &&& stops_at_failed_restore(seq![row], seen, result)
                &&& result.ok ==> result.message == "Rebased "@ + row.label
            }
        }),
{
    let cwd = Some(row.path);
    lemma_other_commands(config, cwd);
    undo::lemma_no_undo(config, cwd);
    let script = ops::stash_script(config, row);
    let seen = conversation::exchanges(script, record);
    let stash = ops::command_script(ops::stash_argv(row.label), row.path);
    if let (stashed, Ok(stash_result)) = conversation::play(stash, record) {
        let first = conversation::exchanges(stash, record);
        assert(first.len() == 1);
        assert(is_stash(first[0].request));
        if stash_result.code != 0 {
            assert(seen =~= first);
        } else {
            let step = ops::rebase_step_script(config, row, true);
            lemma_step_restores(config, row, true, stashed);
            let rest = conversation::exchanges(step, stashed);
            if let (after, Ok(result)) = conversation::play(step, stashed) {
                assert(seen =~= first + rest);
                undo::lemma_settled_append(config, first, rest);
                let n = rest.len();
                assert(seen[n as int] == rest[n - 1]);
                assert(brings_back(seen[0].request, seen[n as int].request));
                assert(brought_back(seen)) by {
                    assert forall|i: int|
                        #![trigger seen[i]]
                        0 <= i < seen.len() && is_stash(seen[i].request) && !undo::command_failed(
                            seen[i],
                        ) implies i == 0 by {
                        if i > 0 {
                            assert(seen[i] == rest[i - 1]);
                            if i < n {
                                assert(rest.drop_last()[i - 1] == rest[i - 1]);
                            }
                        }
                    }
                }
                assert forall|i: int|
                    #![trigger seen[i]]
                    0 <= i < seen.len() && restore_failed(seen[i]) implies i == n && !result.ok by {
                    if i > 0 {
                        assert(seen[i] == rest[i - 1]);
                        if i < n {
                            assert(rest.drop_last()[i - 1] == rest[i - 1]);
                        }
                    }
                }
                assert(seq![row][0] == row);
            }
        }
    }
}

/// A rebase of one worktree that has come to its end has left nothing half done,
/// and has brought back what it put aside; where that failed, it has stopped and
/// names the worktree.
pub proof fn rebases_bring_changes_back(config: ConfigView, row: RowView, record: Record)
    requires
        config.base_branch != "--abort"@,
    ensures
        ({
            let script = ops::rebase_script(config, row);
            let seen = conversation::exchanges(script, record);
            conversation::play(script, record).1 matches Ok(result) ==> {
                &&& undo::settled(config, seen)
                &&& brought_back(seen)
                &&& stops_at_failed_restore(seq![row], seen, result)
                &&& result.ok ==> result.message == "Rebased "@ + row.label
            }
        }),
{
    let script = ops::rebase_script(config, row);
    let seen = conversation::exchanges(script, record);
    let away = ops::away_script(row);
    let status = git::status_script(row.path);
    lemma_away_reads(row, record);
    lemma_reading_leaves_changes_alone(away, record);
    undo::lemma_reading_is_settled(config, away, record);
    if let (after, Ok(found)) = conversation::play(away, record) {
        let first = conversation::exchanges(away, record);
        if found is Some {
            assert(seen =~= first);
        } else {
            lemma_status_reads(row.path, after);
            lemma_reading_leaves_changes_alone(status, after);
            undo::lemma_reading_is_settled(config, status, after);
            if let (later, Ok(summary)) = conversation::play(status, after) {
                let second = conversation::exchanges(status, after);
                lemma_stash_restores(config, row, later);
                lemma_step_restores(config, row, false, later);
                let last = if summary.len() > 0 {
                    ops::stash_script(config, row)
                } else {
                    ops::rebase_step_script(config, row, false)
                };
                let rest = conversation::exchanges(last, later);
                if let (end, Ok(result)) = conversation::play(last, later) {
                    assert(seen =~= first + (second + rest));
                    undo::lemma_settled_append(config, second, rest);
                    undo::lemma_settled_append(config, first, second + rest);
                    lemma_brought_back_append(second, rest);
                    lemma_brought_back_append(first, second + rest);
                    assert(stops_at_failed_restore(seq![row], rest, result));
                    lemma_stops_behind(seq![row], second, rest, result);
                    lemma_stops_behind(seq![row], first, second + rest, result);
                }
            }
        }
    }
}

pub(crate) proof fn lemma_stops_behind(
    rows: Seq<RowView>,
    first: Seq<Exchange>,
    seen: Seq<Exchange>,
    result: ResultView,
)
    requires
        forall|i: int| 0 <= i < first.len() ==> !restore_failed(#[trigger] first[i]),
        stops_at_failed_restore(rows, seen, result),
    ensures
        stops_at_failed_restore(rows, first + seen, result),
{
    let both = first + seen;
    assert forall|i: int|
        #![trigger both[i]]
        0 <= i < both.len() && restore_failed(both[i]) implies {
        &&& i + 1 == both.len()
        &&& !result.ok
        &&& exists|k: int|
            #![trigger rows[k]]
            {
                &&& 0 <= k < rows.len()
                &&& both[i].request->Output_cwd == Some(rows[k].path)
                &&& ("Rebase blocked: "@ + rows[k].label).is_prefix_of(result.message)
            }
    } by {
        if i < first.len() {
            assert(both[i] == first[i]);
        } else {
            assert(both[i] == seen[i - first.len()]);
        }
    }
}

pub(crate) proof fn lemma_away_reads(row: RowView, record: Record)
    ensures
        conversation::asks_only(ops::away_script(row), record, safety::reading()),
{
    broadcast use crate::conversation::group_asks;

}

pub(crate) proof fn lemma_status_reads(path: Seq<char>, record: Record)
    ensures
        conversation::asks_only(git::status_script(path), record, safety::reading()),
{
    broadcast use crate::conversation::group_asks;

}

/// A dirty worktree is not refused: its changes are put aside, and only then is it
/// rebased. A clean one is rebased right away.
pub proof fn dirty_worktrees_are_rebased_too(config: ConfigView, row: RowView, record: Record)
    ensures
        ({
            let seen = conversation::exchanges(ops::rebase_script(config, row), record);
            let outcome = conversation::play(ops::rebase_script(config, row), record).1;
            let n = conversation::exchanges(ops::away_script(row), record).len() as int;
            conversation::play(ops::away_script(row), record) matches (after, Ok(None))
                ==> after.heard < after.replies.len() ==> {
                let reply = after.replies[after.heard as int];
                let dirty = git::filled_lines(util::output_text(reply)) > 0;
                let next = RequestView::Output {
                    argv: if dirty {
                        ops::stash_argv(row.label)
                    } else {
                        ops::rebase_argv(config.base_branch)
                    },
                    cwd: Some(row.path),
                };
                &&& seen.len() > n
                &&& seen.len() > n + 1 ==> seen[n + 1].request == next
                &&& seen.len() == n + 1 ==> outcome == Err::<ResultView, RequestView>(next)
            }
        }),
{
    let away = ops::away_script(row);
    let status = git::status_script(row.path);
    if let (after, Ok(None)) = conversation::play(away, record) {
        if after.heard < after.replies.len() {
            let reply = after.replies[after.heard as int];
            safety::lemma_change_summary(git::filled_lines(util::output_text(reply)));
            let first = conversation::exchanges(away, record);
            let second = conversation::exchanges(status, after);
            assert(second.len() == 1);
            if let (later, Ok(summary)) = conversation::play(status, after) {
                let last = if summary.len() > 0 {
                    ops::stash_script(config, row)
                } else {
                    ops::rebase_step_script(config, row, false)
                };
                let rest = conversation::exchanges(last, later);
                let seen = conversation::exchanges(ops::rebase_script(config, row), record);
                assert(seen =~= first + (second + rest));
            }
        }
    }
}

}
