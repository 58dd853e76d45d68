//! What the operations on every worktree promise: each worktree in its turn, none
//! after the first that fails, and an account of those that were done.
use vstd::prelude::*;

use crate::config::ConfigView;
use crate::conversation;
use crate::conversation::{Exchange, Record, RequestView};
use crate::git;
use crate::model;
use crate::model::{RowView, WorktreeState};
use crate::ops;
use crate::ops::ResultView;
use crate::safety;
use crate::stash;
use crate::text;
use crate::undo;

verus! {

broadcast use {
    crate::conversation::play_end,
    crate::conversation::play_chain,
    crate::conversation::exchanges_end,
    crate::conversation::exchanges_chain,
};

/// The labels of the rows that are wanted, in order.
pub open spec fn labels_where(rows: Seq<RowView>, wanted: spec_fn(RowView) -> bool) -> Seq<
    Seq<char>,
> {
    rows.filter(wanted).map_values(|row: RowView| row.label)
}

/// A row that a merge of all worktrees goes for.
pub open spec fn ready() -> spec_fn(RowView) -> bool {
    |row: RowView| row.state == WorktreeState::Ready
}

/// A row that a rebase of all worktrees goes for.
pub open spec fn present() -> spec_fn(RowView) -> bool {
    |row: RowView| row.state != WorktreeState::Missing
}

proof fn lemma_labels_step(rows: Seq<RowView>, wanted: spec_fn(RowView) -> bool, at: int)
    requires
        0 <= at < rows.len(),
    ensures
        labels_where(rows.take(at + 1), wanted) == if wanted(rows[at]) {
            labels_where(rows.take(at), wanted).push(rows[at].label)
        } else {
            labels_where(rows.take(at), wanted)
        },
{
    reveal(Seq::filter);
    assert(rows.take(at + 1).drop_last() =~= rows.take(at));
    assert(labels_where(rows.take(at + 1), wanted) =~= if wanted(rows[at]) {
        labels_where(rows.take(at), wanted).push(rows[at].label)
    } else {
        labels_where(rows.take(at), wanted)
    });
}

proof fn lemma_missing_step(rows: Seq<RowView>, at: int)
    requires
        0 <= at < rows.len(),
    ensures
        model::count_of(rows.take(at + 1), WorktreeState::Missing) == if rows[at].state
            == WorktreeState::Missing {
            model::count_of(rows.take(at), WorktreeState::Missing) + 1
        } else {
            model::count_of(rows.take(at), WorktreeState::Missing)
        },
{
    reveal(Seq::filter);
    assert(rows.take(at + 1).drop_last() =~= rows.take(at));
}

/// The account of an operation on every wanted row. Where it is done, it names all
/// of them, in order, and ends in `ending`. Where it stopped, the message is one
/// with which one of them can fail, and then names those before it. Where there is
/// none, it says so.
pub open spec fn accounts_for(
    rows: Seq<RowView>,
    wanted: spec_fn(RowView) -> bool,
    fails: spec_fn(RowView, Seq<char>) -> bool,
    all_done: Seq<char>,
    ending: Seq<char>,
    stopped: Seq<char>,
    none: Seq<char>,
    result: ResultView,
) -> bool {
    let labels = labels_where(rows, wanted);
    if result.ok {
        &&& labels.len() > 0
        &&& result.message == all_done + text::joined(labels, ", "@) + ending
    } else if labels.len() == 0 {
        result.message == none
    } else {
        exists|k: int, message: Seq<char>|
            #![trigger stopped_at(rows, wanted, stopped, k, message)]
            0 <= k < rows.len() && wanted(rows[k]) && fails(rows[k], message) && result.message
                == stopped_at(
                rows,
                wanted,
                stopped,
                k,
                message,
            )
    }
}

/// Whether the merge of a row can fail with a message.
pub open spec fn merge_fails(config: ConfigView) -> spec_fn(RowView, Seq<char>) -> bool {
    |row: RowView, message: Seq<char>|
        exists|record: Record|
            #[trigger] conversation::play(ops::merge_script(config, row.label), record).1 == Ok::<
                ResultView,
                RequestView,
            >(ops::refused(message))
}

/// Whether the rebase of a row can fail with a message.
pub open spec fn rebase_fails(config: ConfigView) -> spec_fn(RowView, Seq<char>) -> bool {
    |row: RowView, message: Seq<char>|
        exists|record: Record|
            #[trigger] conversation::play(ops::rebase_script(config, row), record).1 == Ok::<
                ResultView,
                RequestView,
            >(ops::refused(message))
}

/// What is said where row `k` was the first that failed, with a message.
pub open spec fn stopped_at(
    rows: Seq<RowView>,
    wanted: spec_fn(RowView) -> bool,
    stopped: Seq<char>,
    k: int,
    message: Seq<char>,
) -> Seq<char> {
    message + ops::after_some(stopped, labels_where(rows.take(k), wanted))
}

proof fn lemma_labels_grow(rows: Seq<RowView>, wanted: spec_fn(RowView) -> bool, k: int)
    requires
        0 <= k < rows.len(),
        wanted(rows[k]),
    ensures
        labels_where(rows, wanted).len() > 0,
    decreases rows.len(),
{
    reveal(Seq::filter);
    if k < rows.len() - 1 {
        lemma_labels_grow(rows.drop_last(), wanted, k);
    }
}

proof fn lemma_merge_rows(
    config: ConfigView,
    rows: Seq<RowView>,
    from: int,
    merged: Seq<Seq<char>>,
    record: Record,
)
    requires
        config.base_branch != "--abort"@,
        0 <= from <= rows.len(),
        merged == labels_where(rows.take(from), ready()),
    ensures
        ({
            let script = ops::merge_rows_script(config, rows, from, merged);
            conversation::play(script, record).1 matches Ok(result) ==> {
                &&& undo::settled(config, conversation::exchanges(script, record))
                &&& accounts_for(
                    rows,
                    ready(),
                    merge_fails(config),
                    "Merged "@,
                    seq![],
                    " after merging "@,
                    "Merge skipped: no ready worktrees"@,
                    result,
                )
            }
        }),
    decreases rows.len() - from,
{
    let script = ops::merge_rows_script(config, rows, from, merged);
    if from == rows.len() {
        assert(rows.take(from) =~= rows);
    } else {
        lemma_labels_step(rows, ready(), from);
        if rows[from].state != WorktreeState::Ready {
            lemma_merge_rows(config, rows, from + 1, merged, record);
        } else {
            let label = rows[from].label;
            let merge = ops::merge_script(config, label);
            undo::merges_leave_nothing_half_done(config, label, record);
            if let (after, Ok(result)) = conversation::play(merge, record) {
                let first = conversation::exchanges(merge, record);
                if !result.ok {
                    lemma_labels_grow(rows, ready(), from);
                    assert(result == ops::refused(result.message));
                    assert((merge_fails(config))(rows[from], result.message));
                    let message = stopped_at(
                        rows,
                        ready(),
                        " after merging "@,
                        from,
                        result.message,
                    );
                    assert(conversation::exchanges(script, record) =~= first);
                } else {
                    let done = merged.push(label);
                    lemma_merge_rows(config, rows, from + 1, done, after);
                    let rest = conversation::exchanges(
                        ops::merge_rows_script(config, rows, from + 1, done),
                        after,
                    );
                    if conversation::play(script, record).1 is Ok {
                        undo::lemma_settled_append(config, first, rest);
                    }
                }
            }
        }
    }
}

/// A merge of every ready worktree goes through them in order and stops at the
/// first that fails; it says which ones it has merged, and leaves nothing half
/// done.
pub proof fn merge_all_accounts_for_every_worktree(config: ConfigView, record: Record)
    requires
        config.base_branch != "--abort"@,
    ensures
        ({
            let script = ops::merge_all_script(config);
            conversation::play(script, record).1 matches Ok(result) ==> {
                &&& undo::settled(config, conversation::exchanges(script, record))
                &&& conversation::play(git::snapshot_script(config), record).1 matches Ok(snapshot)
                    && accounts_for(
                    snapshot.worktrees,
                    ready(),
                    merge_fails(config),
                    "Merged "@,
                    seq![],
                    " after merging "@,
                    "Merge skipped: no ready worktrees"@,
                    result,
                )
            }
        }),
{
    let take = git::snapshot_script(config);
    safety::snapshots_only_read(config, record);
    undo::lemma_reading_is_settled(config, take, record);
    if let (after, Ok(snapshot)) = conversation::play(take, record) {
        let rows = snapshot.worktrees;
        reveal(Seq::filter);
        assert(rows.take(0) =~= seq![]);
        assert(labels_where(rows.take(0), ready()) =~= seq![]);
        lemma_merge_rows(config, rows, 0, seq![], after);
        let first = conversation::exchanges(take, record);
        let rest = conversation::exchanges(
            ops::merge_rows_script(config, rows, 0, seq![]),
            after,
        );
        if conversation::play(ops::merge_all_script(config), record).1 is Ok {
            undo::lemma_settled_append(config, first, rest);
        }
    }
}

proof fn lemma_rebase_rows(
    config: ConfigView,
    rows: Seq<RowView>,
    from: int,
    rebased: Seq<Seq<char>>,
    skipped: nat,
    record: Record,
)
    requires
        config.base_branch != "--abort"@,
        0 <= from <= rows.len(),
        rebased == labels_where(rows.take(from), present()),
        skipped == model::count_of(rows.take(from), WorktreeState::Missing),
    ensures
        ({
            let script = ops::rebase_rows_script(config, rows, from, rebased, skipped);
            let seen = conversation::exchanges(script, record);
            conversation::play(script, record).1 matches Ok(result) ==> {
                &&& undo::settled(config, seen)
                &&& stash::brought_back(seen)
                &&& stash::stops_at_failed_restore(rows, seen, result)
                &&& accounts_for(
                    rows,
                    present(),
                    rebase_fails(config),
                    "Rebased "@,
                    ops::skipped_words(model::count_of(rows, WorktreeState::Missing)),
                    " after rebasing "@,
                    "Rebase skipped: no present worktrees"@,
                    result,
                )
            }
        }),
    decreases rows.len() - from,
{
    let script = ops::rebase_rows_script(config, rows, from, rebased, skipped);
    let seen = conversation::exchanges(script, record);
    if from == rows.len() {
        assert(rows.take(from) =~= rows);
    } else {
        lemma_labels_step(rows, present(), from);
        lemma_missing_step(rows, from);
        if rows[from].state == WorktreeState::Missing {
            lemma_rebase_rows(config, rows, from + 1, rebased, skipped + 1, record);
        } else {
            let rebase = ops::rebase_script(config, rows[from]);
            stash::rebases_bring_changes_back(config, rows[from], record);
            if let (after, Ok(result)) = conversation::play(rebase, record) {
                let first = conversation::exchanges(rebase, record);
                if !result.ok {
                    lemma_labels_grow(rows, present(), from);
                    assert(result == ops::refused(result.message));
                    assert((rebase_fails(config))(rows[from], result.message));
                    let message = stopped_at(
                        rows,
                        present(),
                        " after rebasing "@,
                        from,
                        result.message,
                    );
                    assert(seen =~= first);
                    lemma_stops_among(rows, from, first, result, message);
                } else {
                    let done = rebased.push(rows[from].label);
                    lemma_rebase_rows(config, rows, from + 1, done, skipped, after);
                    let rest = conversation::exchanges(
                        ops::rebase_rows_script(config, rows, from + 1, done, skipped),
                        after,
                    );
                    if let (end, Ok(last)) = conversation::play(script, record) {
                        undo::lemma_settled_append(config, first, rest);
                        stash::lemma_brought_back_append(first, rest);
                        stash::lemma_stops_behind(rows, first, rest, last);
                    }
                }
            }
        }
    }
}

/// What holds of one row holds of all rows that it is among, and what is added to
/// the message does not hide whose it is.
proof fn lemma_stops_among(
    rows: Seq<RowView>,
    at: int,
    seen: Seq<Exchange>,
    result: ResultView,
    message: Seq<char>,
)
    requires
        0 <= at < rows.len(),
        stash::stops_at_failed_restore(seq![rows[at]], seen, result),
        result.message.is_prefix_of(message),
    ensures
        stash::stops_at_failed_restore(rows, seen, ops::refused(message)),
{
    let one = seq![rows[at]];
    assert forall|i: int|
        #![trigger seen[i]]
        0 <= i < seen.len() && stash::restore_failed(seen[i]) implies {
        &&& i + 1 == seen.len()
        &&& !ops::refused(message).ok
        &&& exists|k: int|
            #![trigger rows[k]]
            {
                &&& 0 <= k < rows.len()
                &&& seen[i].request->Output_cwd == Some(rows[k].path)
                &&& ("Rebase blocked: "@ + rows[k].label).is_prefix_of(message)
            }
    } by {
        let k = choose|k: int|
            #![trigger one[k]]
            {
                &&& 0 <= k < one.len()
                &&& seen[i].request->Output_cwd == Some(one[k].path)
                &&& ("Rebase blocked: "@ + one[k].label).is_prefix_of(result.message)
            };
        assert(one[k] == rows[at]);
        assert(("Rebase blocked: "@ + rows[at].label).is_prefix_of(message));
    }
}

proof fn lemma_sync_settles(config: ConfigView, record: Record)
    requires
        config.base_branch != "--abort"@,
    ensures
        undo::settled(config, conversation::exchanges(ops::sync_script(config), record)),
        stash::leaves_changes_alone(
            conversation::exchanges(ops::sync_script(config), record),
        ),
{
    broadcast use {
        crate::conversation::group_play,
        crate::conversation::group_exchanges,
        crate::ops::group_commands,
    };

    let cwd = config.repo_path;
    undo::lemma_commands_differ();
    undo::lemma_no_undo(config, Some(cwd));
    let fetch = seq!["git"@, "fetch"@, "origin"@];
    let forward = ops::forward_argv(ops::remote_name(config.base_branch));
    assert(fetch[1] == "fetch"@ && fetch.len() == 3);
    assert(forward.len() == 4 && forward[1] == "merge"@);
    assert(ops::rebase_argv(config.base_branch)[1] == "rebase"@);
    assert(ops::restore_argv()[1] == "stash"@);
    let asked = git::success_script(seq!["git"@, "remote"@, "get-url"@, "origin"@], cwd);
    if let (after, Ok(true)) = conversation::play(asked, record) {
        if let (fetched, Ok(result)) = conversation::play(ops::command_script(fetch, cwd), after) {
            lemma_forward_settles(config, fetched);
        }
    }
}

proof fn lemma_sync_announces(config: ConfigView, record: Record)
    ensures
        conversation::asks_only(ops::sync_script(config), record, safety::announcing()),
{
    broadcast use {
        crate::conversation::group_play,
        crate::conversation::group_asks,
        crate::ops::group_commands,
    };

}

proof fn lemma_forward_settles(config: ConfigView, record: Record)
    requires
        config.base_branch != "--abort"@,
    ensures
        undo::settled(config, conversation::exchanges(ops::forward_base_script(config), record)),
        stash::leaves_changes_alone(
            conversation::exchanges(ops::forward_base_script(config), record),
        ),
{
    broadcast use {
        crate::conversation::group_play,
        crate::conversation::group_exchanges,
        crate::ops::group_commands,
    };

    undo::lemma_commands_differ();
    undo::lemma_no_undo(config, Some(config.repo_path));
    let forward = ops::forward_argv(ops::remote_name(config.base_branch));
    assert(forward.len() == 4 && forward[1] == "merge"@);
    assert(ops::restore_argv()[1] == "stash"@);
}

/// A rebase of every worktree changes nothing unless the base checkout is clean
/// and on the base branch: this is looked at before anything else.
pub proof fn rebase_all_looks_before_it_changes(config: ConfigView, record: Record)
    ensures
        ({
            let look = ops::base_blocker_script(config, "Rebase"@);
            let seen = conversation::exchanges(look, record);
            &&& conversation::asks_only(look, record, safety::reading())
            &&& seen.is_prefix_of(conversation::exchanges(ops::rebase_all_script(config), record))
            &&& match conversation::play(look, record).1 {
                Ok(None) => safety::base_is_fit(config, seen),
                _ => conversation::asks_only(
                    ops::rebase_all_script(config),
                    record,
                    safety::reading(),
                ),
            }
        }),
{
    broadcast use {crate::conversation::asks_end, crate::conversation::asks_chain};

    safety::lemma_base_blocker(config, "Rebase"@, record);
}

/// A rebase of every worktree that has come to its end has left nothing half done,
/// and has brought back whatever it put aside. Where the base checkout is not fit,
/// or cannot be brought up to date, it says why and puts nothing aside. Otherwise
/// it goes through the worktrees of the snapshot that it takes then: it accounts
/// for them, with the number of those that are missing, and where local changes
/// could not be brought back, it has stopped there and names the worktree.
pub proof fn rebase_all_brings_changes_back(config: ConfigView, record: Record)
    requires
        config.base_branch != "--abort"@,
    ensures
        ({
            let script = ops::rebase_all_script(config);
            let seen = conversation::exchanges(script, record);
            let (looked, base) = conversation::play(
                ops::base_blocker_script(config, "Rebase"@),
                record,
            );
            let (synced, stop) = conversation::play(ops::sync_script(config), looked);
            let (taken, snapshot) = conversation::play(git::snapshot_script(config), synced);
            conversation::play(script, record).1 matches Ok(result) ==> {
                &&& undo::settled(config, seen)
                &&& stash::brought_back(seen)
                &&& base is Ok
                &&& match base->Ok_0 {
                    Some(blocker) => {
                        &&& result == ops::refused(blocker)
                        &&& stash::leaves_changes_alone(seen)
                    },
                    None => {
                        &&& stop is Ok
                        &&& match stop->Ok_0 {
                            Some(stopped) => {
                                &&& result == stopped
                                &&& stash::leaves_changes_alone(seen)
                            },
                            None => {
                                let rows = snapshot->Ok_0.worktrees;
                                &&& snapshot is Ok
                                &&& stash::stops_at_failed_restore(rows, seen, result)
                                &&& accounts_for(
                                    rows,
                                    present(),
                                    rebase_fails(config),
                                    "Rebased "@,
                                    ops::skipped_words(
                                        model::count_of(rows, WorktreeState::Missing),
                                    ),
                                    " after rebasing "@,
                                    "Rebase skipped: no present worktrees"@,
                                    result,
                                )
                            },
                        }
                    },
                }
            }
        }),
{
    let script = ops::rebase_all_script(config);
    let seen = conversation::exchanges(script, record);
    let look = ops::base_blocker_script(config, "Rebase"@);
    let sync = ops::sync_script(config);
    let take = git::snapshot_script(config);
    safety::lemma_base_blocker(config, "Rebase"@, record);
    undo::lemma_reading_is_settled(config, look, record);
    stash::lemma_reading_leaves_changes_alone(look, record);
    let first = conversation::exchanges(look, record);
    stash::lemma_alone_is_brought_back(first);
    if let (looked, Ok(base)) = conversation::play(look, record) {
        if base is Some {
            assert(seen =~= first);
        } else {
            lemma_sync_settles(config, looked);
            let second = conversation::exchanges(sync, looked);
            stash::lemma_alone_is_brought_back(second);
            undo::lemma_settled_append(config, first, second);
            if let (synced, Ok(stopped)) = conversation::play(sync, looked) {
                if stopped is Some {
                    assert(seen =~= first + second);
                    lemma_alone_append(first, second);
                    stash::lemma_alone_is_brought_back(seen);
                } else {
                    safety::snapshots_only_read(config, synced);
                    undo::lemma_reading_is_settled(config, take, synced);
                    stash::lemma_reading_leaves_changes_alone(take, synced);
                    let third = conversation::exchanges(take, synced);
                    stash::lemma_alone_is_brought_back(third);
                    if let (taken, Ok(snapshot)) = conversation::play(take, synced) {
                        let rows = snapshot.worktrees;
                        reveal(Seq::filter);
                        assert(rows.take(0) =~= seq![]);
                        assert(labels_where(rows.take(0), present()) =~= seq![]);
                        assert(model::count_of(rows.take(0), WorktreeState::Missing) == 0);
                        lemma_rebase_rows(config, rows, 0, seq![], 0, taken);
                        let rest = conversation::exchanges(
                            ops::rebase_rows_script(config, rows, 0, seq![], 0),
                            taken,
                        );
                        if let (end, Ok(result)) = conversation::play(script, record) {
                            assert(seen =~= first + (second + (third + rest)));
                            undo::lemma_settled_append(config, third, rest);
                            undo::lemma_settled_append(config, second, third + rest);
                            undo::lemma_settled_append(config, first, second + (third + rest));
                            stash::lemma_brought_back_append(third, rest);
                            stash::lemma_brought_back_append(second, third + rest);
                            stash::lemma_brought_back_append(first, second + (third + rest));
                            stash::lemma_stops_behind(rows, third, rest, result);
                            stash::lemma_stops_behind(rows, second, third + rest, result);
                            stash::lemma_stops_behind(
                                rows,
                                first,
                                second + (third + rest),
                                result,
                            );
                        }
                    }
                }
            }
        }
    }
}

proof fn lemma_alone_append(first: Seq<Exchange>, second: Seq<Exchange>)
    requires
        stash::leaves_changes_alone(first),
        stash::leaves_changes_alone(second),
    ensures
        stash::leaves_changes_alone(first + second),
{
}

proof fn lemma_rebase_announces(config: ConfigView, row: RowView, record: Record)
    ensures
        conversation::asks_only(
            ops::rebase_script(config, row),
            record,
            safety::announcing(),
        ),
{
    broadcast use {crate::conversation::asks_end, crate::conversation::asks_chain};

    let away = ops::away_script(row);
    let status = git::status_script(row.path);
    stash::lemma_away_reads(row, record);
    conversation::asks_weaken(away, record, safety::reading(), safety::announcing());
    if let (after, Ok(None)) = conversation::play(away, record) {
        stash::lemma_status_reads(row.path, after);
        conversation::asks_weaken(status, after, safety::reading(), safety::announcing());
        if let (later, Ok(summary)) = conversation::play(status, after) {
            lemma_step_announces(config, row, false, later);
            lemma_stash_announces(config, row, later);
        }
    }
}

proof fn lemma_step_announces(config: ConfigView, row: RowView, stashed: bool, record: Record)
    ensures
        conversation::asks_only(
            ops::rebase_step_script(config, row, stashed),
            record,
            safety::announcing(),
        ),
{
    broadcast use {crate::conversation::group_asks, crate::ops::group_commands};

}

proof fn lemma_stash_announces(config: ConfigView, row: RowView, record: Record)
    ensures
        conversation::asks_only(
            ops::stash_script(config, row),
            record,
            safety::announcing(),
        ),
{
    broadcast use {crate::conversation::group_asks, crate::ops::group_commands};

    let stash = ops::command_script(ops::stash_argv(row.label), row.path);
    if let (after, Ok(result)) = conversation::play(stash, record) {
        lemma_step_announces(config, row, true, after);
    }
}

proof fn lemma_rebase_rows_announce(
    config: ConfigView,
    rows: Seq<RowView>,
    from: int,
    rebased: Seq<Seq<char>>,
    skipped: nat,
    record: Record,
)
    ensures
        conversation::asks_only(
            ops::rebase_rows_script(config, rows, from, rebased, skipped),
            record,
            safety::announcing(),
        ),
    decreases rows.len() - from,
{
    broadcast use {crate::conversation::asks_end, crate::conversation::asks_chain};

    if 0 <= from < rows.len() {
        if rows[from].state == WorktreeState::Missing {
            lemma_rebase_rows_announce(config, rows, from + 1, rebased, skipped + 1, record);
        } else {
            let rebase = ops::rebase_script(config, rows[from]);
            lemma_rebase_announces(config, rows[from], record);
            if let (after, Ok(result)) = conversation::play(rebase, record) {
                let done = rebased.push(rows[from].label);
                lemma_rebase_rows_announce(config, rows, from + 1, done, skipped, after);
            }
        }
    }
}

/// Whatever a rebase of every worktree runs that does not only look is announced
/// right before it is run.
pub proof fn rebase_all_announces_what_it_runs(config: ConfigView, record: Record)
    ensures
        conversation::asks_only(
            ops::rebase_all_script(config),
            record,
            safety::announcing(),
        ),
{
    broadcast use {crate::conversation::asks_end, crate::conversation::asks_chain};

    let look = ops::base_blocker_script(config, "Rebase"@);
    let sync = ops::sync_script(config);
    let take = git::snapshot_script(config);
    safety::lemma_base_blocker(config, "Rebase"@, record);
    conversation::asks_weaken(look, record, safety::reading(), safety::announcing());
    if let (looked, Ok(None)) = conversation::play(look, record) {
        lemma_sync_announces(config, looked);
        if let (synced, Ok(None)) = conversation::play(sync, looked) {
            safety::snapshots_only_read(config, synced);
            conversation::asks_weaken(take, synced, safety::reading(), safety::announcing());
            if let (taken, Ok(snapshot)) = conversation::play(take, synced) {
                lemma_rebase_rows_announce(config, snapshot.worktrees, 0, seq![], 0, taken);
            }
        }
    }
}

proof fn lemma_merge_rows_announce(
    config: ConfigView,
    rows: Seq<RowView>,
    from: int,
    merged: Seq<Seq<char>>,
    record: Record,
)
    ensures
        conversation::asks_only(
            ops::merge_rows_script(config, rows, from, merged),
            record,
            safety::announcing(),
        ),
    decreases rows.len() - from,
{
    broadcast use {crate::conversation::asks_end, crate::conversation::asks_chain};

    if 0 <= from < rows.len() {
        if rows[from].state != WorktreeState::Ready {
            lemma_merge_rows_announce(config, rows, from + 1, merged, record);
        } else {
            let label = rows[from].label;
            safety::merges_announce_what_they_run(config, label, record);
            if let (after, Ok(result)) = conversation::play(
                ops::merge_script(config, label),
                record,
            ) {
                lemma_merge_rows_announce(config, rows, from + 1, merged.push(label), after);
            }
        }
    }
}

/// Whatever a merge of every ready worktree runs that does not only look is
/// announced right before it is run.
pub proof fn merge_all_announces_what_it_runs(config: ConfigView, record: Record)
    ensures
        conversation::asks_only(ops::merge_all_script(config), record, safety::announcing()),
{
    broadcast use {crate::conversation::asks_end, crate::conversation::asks_chain};

    let take = git::snapshot_script(config);
    safety::snapshots_only_read(config, record);
    conversation::asks_weaken(take, record, safety::reading(), safety::announcing());
    if let (taken, Ok(snapshot)) = conversation::play(take, record) {
        lemma_merge_rows_announce(config, snapshot.worktrees, 0, seq![], taken);
    }
}

/// A deploy runs the deploy command in the base checkout and nothing else, only
/// when the base checkout is clean and on the base branch, and not unannounced. It
/// is done exactly where the command succeeds.
pub proof fn deploys_look_before_they_run(config: ConfigView, record: Record)
    ensures
        ({
            let script = ops::deploy_script(config);
            let seen = conversation::exchanges(script, record);
            let outcome = conversation::play(script, record).1;
            &&& seen.len() <= 3
            &&& outcome is Ok && outcome->Ok_0.ok ==> seen.len() == 3 && !undo::command_failed(
                seen[2],
            )
            &&& seen.len() == 3 ==> {
                &&& safety::base_is_fit(config, seen.take(2))
                &&& config.deploy_command is Some
                &&& seen[2].request == RequestView::Output {
                    argv: config.deploy_command->Some_0,
                    cwd: Some(config.repo_path),
                }
                &&& safety::announced(seen[2].request, seen[2].log)
                &&& outcome is Ok
                &&& outcome->Ok_0.ok == !undo::command_failed(seen[2])
            }
            &&& conversation::asks_only(script, record, safety::announcing())
        }),
{
    broadcast use {
        crate::conversation::asks_end,
        crate::conversation::asks_chain,
        crate::ops::group_commands,
    };

    let script = ops::deploy_script(config);
    let look = ops::base_blocker_script(config, "Deploy"@);
    safety::lemma_base_blocker(config, "Deploy"@, record);
    conversation::asks_weaken(look, record, safety::reading(), safety::announcing());
    lemma_base_blocker_is_short(config, "Deploy"@, record);
    let first = conversation::exchanges(look, record);
    let seen = conversation::exchanges(script, record);
    if let (looked, Ok(None)) = conversation::play(look, record) {
        if config.deploy_command is Some && config.deploy_command->Some_0.len() > 0 {
            let command = ops::command_script(config.deploy_command->Some_0, config.repo_path);
            let rest = conversation::exchanges(command, looked);
            assert(seen =~= first + rest);
            assert(seen.len() == 3 ==> seen.take(2) =~= first);
        } else {
            assert(seen =~= first);
        }
    } else {
        assert(seen =~= first);
    }
}

proof fn lemma_base_blocker_is_short(config: ConfigView, action: Seq<char>, record: Record)
    ensures
        conversation::exchanges(ops::base_blocker_script(config, action), record).len() <= 2,
{
    broadcast use {crate::conversation::group_play, crate::conversation::group_exchanges};

}

/// In the five exchanges before exchange `at`, the base checkout and a worktree
/// that is ready proved to be fit for a merge.
pub open spec fn fit_before(
    config: ConfigView,
    target: RowView,
    seen: Seq<Exchange>,
    at: int,
) -> bool {
    &&& 5 <= at <= seen.len()
    &&& target.state == WorktreeState::Ready
    &&& safety::fits_its_state(target)
    &&& safety::base_is_fit(config, seen.subrange(at - 5, at - 3))
    &&& safety::target_is_fit(target, seen.subrange(at - 3, at))
}

/// Before exchange `upto`, a worktree and the base checkout proved to be fit for a
/// merge that a request is a step of.
pub open spec fn guarded_by(
    config: ConfigView,
    seen: Seq<Exchange>,
    upto: int,
    request: RequestView,
) -> bool {
    exists|at: int, target: RowView|
        #![trigger fit_before(config, target, seen, at)]
        at <= upto && fit_before(config, target, seen, at) && safety::is_merge_step(
            config,
            target,
            request,
        )
}

/// Whatever does not only look is guarded.
pub open spec fn guarded(config: ConfigView, seen: Seq<Exchange>) -> bool {
    forall|i: int|
        #![trigger seen[i]]
        0 <= i < seen.len() && !safety::is_read(seen[i].request) ==> guarded_by(
            config,
            seen,
            i,
            seen[i].request,
        )
}

proof fn lemma_guarded_behind(
    config: ConfigView,
    first: Seq<Exchange>,
    seen: Seq<Exchange>,
    upto: int,
    request: RequestView,
)
    requires
        upto <= seen.len(),
        guarded_by(config, seen, upto, request),
    ensures
        guarded_by(config, first + seen, first.len() + upto, request),
{
    let (at, target) = choose|at: int, target: RowView|
        #![trigger fit_before(config, target, seen, at)]
        at <= upto && fit_before(config, target, seen, at) && safety::is_merge_step(
            config,
            target,
            request,
        );
    let both = first + seen;
    let n = first.len() + at;
    assert(both.subrange(n - 5, n - 3) =~= seen.subrange(at - 5, at - 3));
    assert(both.subrange(n - 3, n) =~= seen.subrange(at - 3, at));
    assert(fit_before(config, target, both, n));
}

proof fn lemma_guarded_before(
    config: ConfigView,
    seen: Seq<Exchange>,
    rest: Seq<Exchange>,
    upto: int,
    request: RequestView,
)
    requires
        upto <= seen.len(),
        guarded_by(config, seen, upto, request),
    ensures
        guarded_by(config, seen + rest, upto, request),
{
    let (at, target) = choose|at: int, target: RowView|
        #![trigger fit_before(config, target, seen, at)]
        at <= upto && fit_before(config, target, seen, at) && safety::is_merge_step(
            config,
            target,
            request,
        );
    let both = seen + rest;
    assert(both.subrange(at - 5, at - 3) =~= seen.subrange(at - 5, at - 3));
    assert(both.subrange(at - 3, at) =~= seen.subrange(at - 3, at));
    assert(fit_before(config, target, both, at));
}

proof fn lemma_guarded_append(config: ConfigView, first: Seq<Exchange>, second: Seq<Exchange>)
    requires
        guarded(config, first),
        guarded(config, second),
    ensures
        guarded(config, first + second),
{
    let both = first + second;
    assert forall|i: int|
        #![trigger both[i]]
        0 <= i < both.len() && !safety::is_read(both[i].request) implies guarded_by(
        config,
        both,
        i,
        both[i].request,
    ) by {
        if i < first.len() {
            assert(both[i] == first[i]);
            lemma_guarded_before(config, first, second, i, first[i].request);
        } else {
            let j = i - first.len();
            assert(both[i] == second[j]);
            lemma_guarded_behind(config, first, second, j, second[j].request);
        }
    }
}

proof fn lemma_reading_is_guarded<T>(
    config: ConfigView,
    script: conversation::Script<T>,
    record: Record,
)
    requires
        conversation::asks_only(script, record, safety::reading()),
    ensures
        guarded(config, conversation::exchanges(script, record)),
        conversation::play(script, record) matches (after, Err(request)) ==> safety::is_read(
            request,
        ),
{
    conversation::every_request_is_judged(script, record, safety::reading());
    let seen = conversation::exchanges(script, record);
    assert forall|i: int| 0 <= i < seen.len() implies safety::is_read(
        (#[trigger] seen[i]).request,
    ) by {
        assert((safety::reading())(seen[i].request, seen[i].log));
    }
    if let (after, Err(request)) = conversation::play(script, record) {
        assert((safety::reading())(request, after.log));
    }
}

proof fn lemma_merge_is_guarded(config: ConfigView, label: Seq<char>, record: Record)
    ensures
        ({
            let script = ops::merge_script(config, label);
            let seen = conversation::exchanges(script, record);
            &&& guarded(config, seen)
            &&& conversation::play(script, record) matches (after, Err(request))
                ==> !safety::is_read(request) ==> guarded_by(
                config,
                seen,
                seen.len() as int,
                request,
            )
        }),
{
    let script = ops::merge_script(config, label);
    let seen = conversation::exchanges(script, record);
    let checks = ops::merge_checks_script(config, label);
    safety::merges_look_before_they_change(config, label, record);
    if let (cleared, Ok(Ok(target))) = conversation::play(checks, record) {
        let first = conversation::exchanges(checks, record);
        let steps = ops::merge_steps_script(config, target);
        let rest = conversation::exchanges(steps, cleared);
        let good = safety::merging(config, target);
        lemma_reading_is_guarded(config, checks, record);
        safety::merges_do_nothing_else(config, target, cleared);
        conversation::every_request_is_judged(steps, cleared, good);
        assert(seen =~= first + rest);
        let n = first.len() as int;
        assert(seen.subrange(n - 5, n - 3) =~= first.subrange(n - 5, n - 3));
        assert(seen.subrange(n - 3, n) =~= first.subrange(n - 3, n));
        assert(fit_before(config, target, seen, n));
        assert forall|i: int|
            #![trigger seen[i]]
            0 <= i < seen.len() && !safety::is_read(seen[i].request) implies guarded_by(
            config,
            seen,
            i,
            seen[i].request,
        ) by {
            if i < n {
                assert(seen[i] == first[i]);
                lemma_guarded_before(config, first, rest, i, first[i].request);
            } else {
                assert(seen[i] == rest[i - n]);
                assert(good(rest[i - n].request, rest[i - n].log));
            }
        }
        if let (after, Err(request)) = conversation::play(steps, cleared) {
            assert(good(request, after.log));
        }
    } else {
        lemma_reading_is_guarded(config, script, record);
    }
}

proof fn lemma_merge_rows_are_guarded(
    config: ConfigView,
    rows: Seq<RowView>,
    from: int,
    merged: Seq<Seq<char>>,
    record: Record,
)
    ensures
        ({
            let script = ops::merge_rows_script(config, rows, from, merged);
            let seen = conversation::exchanges(script, record);
            &&& guarded(config, seen)
            &&& conversation::play(script, record) matches (after, Err(request))
                ==> !safety::is_read(request) ==> guarded_by(
                config,
                seen,
                seen.len() as int,
                request,
            )
        }),
    decreases rows.len() - from,
{
    let script = ops::merge_rows_script(config, rows, from, merged);
    let seen = conversation::exchanges(script, record);
    if 0 <= from < rows.len() {
        if rows[from].state != WorktreeState::Ready {
            lemma_merge_rows_are_guarded(config, rows, from + 1, merged, record);
        } else {
            let label = rows[from].label;
            let merge = ops::merge_script(config, label);
            let first = conversation::exchanges(merge, record);
            lemma_merge_is_guarded(config, label, record);
            if let (after, Ok(result)) = conversation::play(merge, record) {
                if result.ok {
                    let next = ops::merge_rows_script(config, rows, from + 1, merged.push(label));
                    let rest = conversation::exchanges(next, after);
                    lemma_merge_rows_are_guarded(
                        config,
                        rows,
                        from + 1,
                        merged.push(label),
                        after,
                    );
                    lemma_guarded_append(config, first, rest);
                    if let (later, Err(request)) = conversation::play(next, after) {
                        if !safety::is_read(request) {
                            lemma_guarded_behind(
                                config,
                                first,
                                rest,
                                rest.len() as int,
                                request,
                            );
                        }
                    }
                } else {
                    assert(seen =~= first);
                }
            }
        }
    }
}

/// Nothing that a merge of every ready worktree does goes unguarded: whatever does
/// not only look, answered or not, is a step of the merge of a worktree that is
/// clean, on its branch and ahead of the base branch; and before it both that
/// worktree and the base checkout have been seen to be fit for it.
pub proof fn merge_all_guards_every_change(config: ConfigView, record: Record)
    ensures
        ({
            let script = ops::merge_all_script(config);
            let seen = conversation::exchanges(script, record);
            &&& guarded(config, seen)
            &&& conversation::play(script, record) matches (after, Err(request))
                ==> !safety::is_read(request) ==> guarded_by(
                config,
                seen,
                seen.len() as int,
                request,
            )
        }),
{
    let take = git::snapshot_script(config);
    let first = conversation::exchanges(take, record);
    safety::snapshots_only_read(config, record);
    lemma_reading_is_guarded(config, take, record);
    if let (taken, Ok(snapshot)) = conversation::play(take, record) {
        let next = ops::merge_rows_script(config, snapshot.worktrees, 0, seq![]);
        let rest = conversation::exchanges(next, taken);
        lemma_merge_rows_are_guarded(config, snapshot.worktrees, 0, seq![], taken);
        lemma_guarded_append(config, first, rest);
        if let (later, Err(request)) = conversation::play(next, taken) {
            if !safety::is_read(request) {
                lemma_guarded_behind(config, first, rest, rest.len() as int, request);
            }
        }
    }
}

}
