//! How the operations on every worktree take their turns: one worktree after the
//! other, none left out, none after the first that fails.
use vstd::prelude::*;

use crate::config::ConfigView;
use crate::conversation;
use crate::conversation::{Exchange, Record, RequestView, Script};
use crate::course;
use crate::git;
use crate::model::{RowView, SnapshotView, WorktreeState};
use crate::number;
use crate::ops;
use crate::ops::ResultView;
use crate::text;

verus! {

broadcast use {
    crate::conversation::play_end,
    crate::conversation::play_chain,
    crate::conversation::exchanges_end,
    crate::conversation::exchanges_chain,
    crate::conversation::requests_end,
    crate::conversation::requests_chain,
};

/// What is said where the turn of a worktree failed, given those before it.
pub open spec fn failure(message: Seq<char>, stopped: Seq<char>, labels: Seq<Seq<char>>) -> Seq<
    char,
> {
    if labels.len() == 0 {
        message
    } else {
        message + stopped + text::joined(labels, ", "@)
    }
}

/// The scripts are played one after the other, from a record on, each where the one
/// before it left off. The first that fails ends it all, with its message and the
/// labels of those before it, `done` and then more. Where none fails, all of them
/// have been played, and the end is `all_done` of all labels.
pub open spec fn takes_turns(
    scripts: Seq<Script<ResultView>>,
    labels: Seq<Seq<char>>,
    done: Seq<Seq<char>>,
    stopped: Seq<char>,
    all_done: spec_fn(Seq<Seq<char>>) -> ResultView,
    record: Record,
    seen: Seq<Exchange>,
    end: (Record, Result<ResultView, RequestView>),
) -> bool
    decreases scripts.len(),
{
    if scripts.len() == 0 {
        seen.len() == 0 && end == (record, Ok::<ResultView, RequestView>(all_done(done)))
    } else {
        let first = conversation::exchanges(scripts[0], record);
        match conversation::play(scripts[0], record) {
            (after, Err(request)) => {
                &&& seen == first
                &&& end == (after, Err::<ResultView, RequestView>(request))
            },
            (after, Ok(result)) => if result.ok {
                &&& first.is_prefix_of(seen)
                &&& takes_turns(
                    scripts.skip(1),
                    labels.skip(1),
                    done.push(labels[0]),
                    stopped,
                    all_done,
                    after,
                    seen.skip(first.len() as int),
                    end,
                )
            } else {
                &&& seen == first
                &&& end == (after, course::no(failure(result.message, stopped, done)))
            },
        }
    }
}

/// The rows that are ready, in order.
pub open spec fn ready_rows(rows: Seq<RowView>) -> Seq<RowView> {
    rows.filter(|row: RowView| row.state == WorktreeState::Ready)
}

/// The rows that are not missing, in order.
pub open spec fn present_rows(rows: Seq<RowView>) -> Seq<RowView> {
    rows.filter(|row: RowView| row.state != WorktreeState::Missing)
}

/// How many rows are missing.
pub open spec fn missing_count(rows: Seq<RowView>) -> int {
    rows.len() - present_rows(rows).len()
}

/// The labels of rows.
pub open spec fn labels_of(rows: Seq<RowView>) -> Seq<Seq<char>> {
    rows.map_values(|row: RowView| row.label)
}

/// The merges of rows.
pub open spec fn merges_of(config: ConfigView, rows: Seq<RowView>) -> Seq<Script<ResultView>> {
    rows.map_values(|row: RowView| ops::merge_script(config, row.label))
}

/// The rebases of rows.
pub open spec fn rebases_of(config: ConfigView, rows: Seq<RowView>) -> Seq<Script<ResultView>> {
    rows.map_values(|row: RowView| ops::rebase_script(config, row))
}

/// What is said when all ready worktrees have been merged.
pub open spec fn merged_all() -> spec_fn(Seq<Seq<char>>) -> ResultView {
    |labels: Seq<Seq<char>>|
        if labels.len() == 0 {
            ResultView { ok: false, message: "Merge skipped: no ready worktrees"@ }
        } else {
            ResultView { ok: true, message: "Merged "@ + text::joined(labels, ", "@) }
        }
}

/// What is said when all worktrees but the missing ones have been rebased.
pub open spec fn rebased_all(missing: int) -> spec_fn(Seq<Seq<char>>) -> ResultView {
    |labels: Seq<Seq<char>>|
        if labels.len() == 0 {
            ResultView { ok: false, message: "Rebase skipped: no present worktrees"@ }
        } else if missing == 0 {
            ResultView { ok: true, message: "Rebased "@ + text::joined(labels, ", "@) }
        } else {
            ResultView {
                ok: true,
                message: "Rebased "@ + text::joined(labels, ", "@) + "; skipped "@
                    + number::decimal(missing) + " missing"@,
            }
        }
}

pub(crate) proof fn lemma_filter_front<T>(
    rows: Seq<T>,
    wanted: spec_fn(T) -> bool,
    from: int,
)
    requires
        0 <= from < rows.len(),
    ensures
        rows.skip(from).filter(wanted) == if wanted(rows[from]) {
            seq![rows[from]] + rows.skip(from + 1).filter(wanted)
        } else {
            rows.skip(from + 1).filter(wanted)
        },
{
    let one = seq![rows[from]];
    let rest = rows.skip(from + 1);
    reveal(Seq::filter);
    assert(rows.skip(from) =~= one + rest);
    Seq::filter_distributes_over_add(one, rest, wanted);
    assert(one.drop_last() =~= seq![]);
    assert(one.drop_last().filter(wanted) =~= seq![]);
    assert(one.last() == rows[from]);
    if wanted(rows[from]) {
        assert(one.filter(wanted) =~= one);
    } else {
        assert(one.filter(wanted) =~= seq![]);
        assert(one.filter(wanted) + rest.filter(wanted) =~= rest.filter(wanted));
    }
}

proof fn lemma_failure(message: Seq<char>, stopped: Seq<char>, labels: Seq<Seq<char>>)
    ensures
        message + ops::after_some(stopped, labels) == failure(message, stopped, labels),
{
    assert(message + ops::after_some(stopped, labels) =~= failure(message, stopped, labels));
}

proof fn lemma_merges_take_turns(
    config: ConfigView,
    rows: Seq<RowView>,
    from: int,
    merged: Seq<Seq<char>>,
    record: Record,
)
    requires
        0 <= from <= rows.len(),
    ensures
        ({
            let script = ops::merge_rows_script(config, rows, from, merged);
            let left = ready_rows(rows.skip(from));
            takes_turns(
                merges_of(config, left),
                labels_of(left),
                merged,
                " after merging "@,
                merged_all(),
                record,
                conversation::exchanges(script, record),
                conversation::play(script, record),
            )
        }),
    decreases rows.len() - from,
{
    let wanted = |row: RowView| row.state == WorktreeState::Ready;
    let script = ops::merge_rows_script(config, rows, from, merged);
    let left = ready_rows(rows.skip(from));
    if from == rows.len() {
        reveal(Seq::filter);
        assert(left =~= seq![]);
    } else {
        lemma_filter_front(rows, wanted, from);
        let rest = ready_rows(rows.skip(from + 1));
        if wanted(rows[from]) {
            let label = rows[from].label;
            assert(left == seq![rows[from]] + rest);
            assert(merges_of(config, left)[0] == ops::merge_script(config, label));
            assert(merges_of(config, left).skip(1) =~= merges_of(config, rest));
            assert(labels_of(left)[0] == label);
            assert(labels_of(left).skip(1) =~= labels_of(rest));
            let merge = ops::merge_script(config, label);
            if let (after, Ok(result)) = conversation::play(merge, record) {
                let first = conversation::exchanges(merge, record);
                if result.ok {
                    lemma_merges_take_turns(config, rows, from + 1, merged.push(label), after);
                    let next = ops::merge_rows_script(config, rows, from + 1, merged.push(label));
                    let seen = conversation::exchanges(script, record);
                    assert(seen.skip(first.len() as int) =~= conversation::exchanges(
                        next,
                        after,
                    ));
                } else {
                    lemma_failure(result.message, " after merging "@, merged);
                    assert(conversation::exchanges(script, record) =~= first);
                }
            }
        } else {
            lemma_merges_take_turns(config, rows, from + 1, merged, record);
        }
    }
}

/// A merge of every ready worktree takes a snapshot, and then plays the merge of
/// each of its ready rows, in order, and nothing else. It is done where each of
/// these merges is done, and says so of each; the first that fails ends it.
pub proof fn merge_all_merges_each_ready_worktree(config: ConfigView, record: Record)
    ensures
        ({
            let script = ops::merge_all_script(config);
            let seen = conversation::exchanges(script, record);
            let take = conversation::exchanges(git::snapshot_script(config), record);
            match conversation::play(git::snapshot_script(config), record) {
                (taken, Err(request)) => {
                    &&& seen == take
                    &&& conversation::play(script, record) == (
                        taken,
                        Err::<ResultView, RequestView>(request),
                    )
                },
                (taken, Ok(snapshot)) => {
                    let rows = ready_rows(snapshot.worktrees);
                    &&& take.is_prefix_of(seen)
                    &&& takes_turns(
                        merges_of(config, rows),
                        labels_of(rows),
                        seq![],
                        " after merging "@,
                        merged_all(),
                        taken,
                        seen.skip(take.len() as int),
                        conversation::play(script, record),
                    )
                },
            }
        }),
{
    let script = ops::merge_all_script(config);
    let seen = conversation::exchanges(script, record);
    let take = conversation::exchanges(git::snapshot_script(config), record);
    if let (taken, Ok(snapshot)) = conversation::play(git::snapshot_script(config), record) {
        let rows = snapshot.worktrees;
        lemma_merges_take_turns(config, rows, 0, seq![], taken);
        assert(rows.skip(0) =~= rows);
        let rest = conversation::exchanges(
            ops::merge_rows_script(config, rows, 0, seq![]),
            taken,
        );
        assert(seen.skip(take.len() as int) =~= rest);
    }
}

proof fn lemma_rebased_message(rebased: Seq<Seq<char>>, skipped: nat)
    requires
        rebased.len() > 0,
    ensures
        rebased_all(skipped as int)(rebased) == ops::done(
            "Rebased "@ + text::joined(rebased, ", "@) + ops::skipped_words(skipped),
        ),
{
    let said = "Rebased "@ + text::joined(rebased, ", "@);
    assert(said + seq![] =~= said);
    assert(said + ("; skipped "@ + number::digits(skipped) + " missing"@) =~= said + "; skipped "@
        + number::digits(skipped) + " missing"@);
}

proof fn lemma_rebase_turn(
    config: ConfigView,
    rows: Seq<RowView>,
    from: int,
    rebased: Seq<Seq<char>>,
    skipped: nat,
    record: Record,
)
    requires
        0 <= from < rows.len(),
        rows[from].state != WorktreeState::Missing,
    ensures
        ({
            let script = ops::rebase_rows_script(config, rows, from, rebased, skipped);
            let rebase = ops::rebase_script(config, rows[from]);
            let more = rebased.push(rows[from].label);
            let next = ops::rebase_rows_script(config, rows, from + 1, more, skipped);
            let seen = conversation::exchanges(script, record);
            let first = conversation::exchanges(rebase, record);
            match conversation::play(rebase, record) {
                (after, Err(request)) => {
                    &&& seen == first
                    &&& conversation::play(script, record) == (
                        after,
                        Err::<ResultView, RequestView>(request),
                    )
                },
                (after, Ok(result)) => if result.ok {
                    &&& seen == first + conversation::exchanges(next, after)
                    &&& conversation::play(script, record) == conversation::play(next, after)
                } else {
                    &&& seen == first
                    &&& conversation::play(script, record) == (
                        after,
                        course::no(failure(result.message, " after rebasing "@, rebased)),
                    )
                },
            }
        }),
{
    let rebase = ops::rebase_script(config, rows[from]);
    if let (after, Ok(result)) = conversation::play(rebase, record) {
        if !result.ok {
            lemma_failure(result.message, " after rebasing "@, rebased);
            let script = ops::rebase_rows_script(config, rows, from, rebased, skipped);
            assert(conversation::exchanges(script, record) =~= conversation::exchanges(
                rebase,
                record,
            ));
        }
    }
}

#[verifier::rlimit(40)]
proof fn lemma_rebases_take_turns(
    config: ConfigView,
    rows: Seq<RowView>,
    from: int,
    rebased: Seq<Seq<char>>,
    skipped: nat,
    record: Record,
)
    requires
        0 <= from <= rows.len(),
    ensures
        ({
            let script = ops::rebase_rows_script(config, rows, from, rebased, skipped);
            let left = present_rows(rows.skip(from));
            takes_turns(
                rebases_of(config, left),
                labels_of(left),
                rebased,
                " after rebasing "@,
                rebased_all(skipped + missing_count(rows.skip(from))),
                record,
                conversation::exchanges(script, record),
                conversation::play(script, record),
            )
        }),
    decreases rows.len() - from,
{
    let wanted = |row: RowView| row.state != WorktreeState::Missing;
    let script = ops::rebase_rows_script(config, rows, from, rebased, skipped);
    let left = present_rows(rows.skip(from));
    if from == rows.len() {
        reveal(Seq::filter);
        assert(left =~= seq![]);
        assert(rows.skip(from).len() == 0);
        if rebased.len() > 0 {
            lemma_rebased_message(rebased, skipped);
        }
    } else {
        lemma_filter_front(rows, wanted, from);
        let rest = present_rows(rows.skip(from + 1));
        if wanted(rows[from]) {
            let row = rows[from];
            assert(left == seq![row] + rest);
            assert(rebases_of(config, left)[0] == ops::rebase_script(config, row));
            assert(rebases_of(config, left).skip(1) =~= rebases_of(config, rest));
            assert(labels_of(left)[0] == row.label);
            assert(labels_of(left).skip(1) =~= labels_of(rest));
            assert(missing_count(rows.skip(from)) == missing_count(rows.skip(from + 1)));
            let rebase = ops::rebase_script(config, row);
            lemma_rebase_turn(config, rows, from, rebased, skipped, record);
            if let (after, Ok(result)) = conversation::play(rebase, record) {
                let first = conversation::exchanges(rebase, record);
                if result.ok {
                    let more = rebased.push(row.label);
                    lemma_rebases_take_turns(config, rows, from + 1, more, skipped, after);
                    let next = ops::rebase_rows_script(config, rows, from + 1, more, skipped);
                    let seen = conversation::exchanges(script, record);
                    assert(seen.skip(first.len() as int) =~= conversation::exchanges(
                        next,
                        after,
                    ));
                }
            }
        } else {
            assert(missing_count(rows.skip(from)) == 1 + missing_count(rows.skip(from + 1)));
            lemma_rebases_take_turns(config, rows, from + 1, rebased, skipped + 1, record);
        }
    }
}

/// A rebase of every worktree looks at the base checkout, and goes on only where
/// that passes. It brings the base branch up to date, takes a snapshot, and then
/// plays the rebase of each row that is not missing, in order, and nothing else. It
/// is done where each of these rebases is done, and says so of each, with the number
/// of the rows that are missing; the first that fails ends it.
pub proof fn rebase_all_rebases_each_present_worktree(config: ConfigView, record: Record)
    ensures
        ({
            let script = ops::rebase_all_script(config);
            let asked = conversation::requests(script, record);
            let end = conversation::play(script, record);
            &&& course::looks_at_base(config, "Rebase"@, asked, record, end.1)
            &&& course::base_passes(config, record) ==> goes_on(
                config,
                course::later(record, 2),
                conversation::exchanges(script, record).skip(2),
                end,
            )
        }),
{
    let script = ops::rebase_all_script(config);
    let seen = conversation::exchanges(script, record);
    lemma_rebase_all_looks(config, record);
    if course::base_passes(config, record) {
        let looked = course::later(record, 2);
        lemma_goes_on(config, looked);
        assert(seen.skip(2) =~= conversation::exchanges(rest_of_rebase(config), looked));
    }
}

/// A rebase of every worktree from the base branch on.
spec fn rest_of_rebase(config: ConfigView) -> Script<ResultView> {
    conversation::chain(
        ops::sync_script(config),
        |stopped: Option<ResultView>|
            match stopped {
                Some(result) => Script::End(result),
                None => conversation::chain(
                    git::snapshot_script(config),
                    |snapshot: SnapshotView|
                        ops::rebase_rows_script(config, snapshot.worktrees, 0, seq![], 0),
                ),
            },
    )
}

proof fn lemma_goes_on(config: ConfigView, record: Record)
    ensures
        goes_on(
            config,
            record,
            conversation::exchanges(rest_of_rebase(config), record),
            conversation::play(rest_of_rebase(config), record),
        ),
{
    let seen = conversation::exchanges(rest_of_rebase(config), record);
    let sync = ops::sync_script(config);
    let synced = conversation::exchanges(sync, record);
    if let (at, Ok(None)) = conversation::play(sync, record) {
        let take = conversation::exchanges(git::snapshot_script(config), at);
        if let (taken, Ok(snapshot)) = conversation::play(git::snapshot_script(config), at) {
            let rows = snapshot.worktrees;
            lemma_rebases_take_turns(config, rows, 0, seq![], 0, taken);
            assert(rows.skip(0) =~= rows);
            let rest = conversation::exchanges(
                ops::rebase_rows_script(config, rows, 0, seq![], 0),
                taken,
            );
            assert(seen.skip((synced.len() + take.len()) as int) =~= rest);
        } else {
            assert(seen =~= synced + take);
        }
    } else {
        assert(seen =~= synced);
    }
}

/// How a rebase of every worktree goes on after the look at the base checkout.
pub open spec fn goes_on(
    config: ConfigView,
    record: Record,
    seen: Seq<Exchange>,
    end: (Record, Result<ResultView, RequestView>),
) -> bool {
    let synced = conversation::exchanges(ops::sync_script(config), record);
    match conversation::play(ops::sync_script(config), record) {
        (at, Err(request)) => {
            &&& seen == synced
            &&& end == (at, Err::<ResultView, RequestView>(request))
        },
        (at, Ok(Some(result))) => {
            &&& seen == synced
            &&& end == (at, Ok::<ResultView, RequestView>(result))
        },
        (at, Ok(None)) => {
            let take = conversation::exchanges(git::snapshot_script(config), at);
            match conversation::play(git::snapshot_script(config), at) {
                (taken, Err(request)) => {
                    &&& seen == synced + take
                    &&& end == (taken, Err::<ResultView, RequestView>(request))
                },
                (taken, Ok(snapshot)) => {
                    let rows = present_rows(snapshot.worktrees);
                    &&& (synced + take).is_prefix_of(seen)
                    &&& takes_turns(
                        rebases_of(config, rows),
                        labels_of(rows),
                        seq![],
                        " after rebasing "@,
                        rebased_all(missing_count(snapshot.worktrees)),
                        taken,
                        seen.skip((synced.len() + take.len()) as int),
                        end,
                    )
                },
            }
        },
    }
}

proof fn lemma_base_look(config: ConfigView, record: Record)
    ensures
        ({
            let look = ops::base_blocker_script(config, "Rebase"@);
            let asked = conversation::requests(look, record);
            let outcome = match conversation::play(look, record).1 {
                Ok(None) => Err(course::asks_branch(seq![])),
                Ok(Some(message)) => course::no(message),
                Err(request) => Err(request),
            };
            &&& course::looks_at_base(config, "Rebase"@, asked, record, outcome)
            &&& conversation::play(look, record).1 == Ok::<Option<Seq<char>>, RequestView>(None)
                <==> course::base_passes(config, record)
            &&& course::base_passes(config, record) ==> {
                &&& conversation::play(look, record).0 == course::later(record, 2)
                &&& conversation::exchanges(look, record).len() == 2
            }
        }),
{
    broadcast use {
        crate::conversation::group_play,
        crate::conversation::group_requests,
        crate::conversation::group_exchanges,
        crate::safety::blank_status_is_clean,
    };

}

proof fn lemma_rebase_all_looks(config: ConfigView, record: Record)
    ensures
        ({
            let script = ops::rebase_all_script(config);
            let asked = conversation::requests(script, record);
            let end = conversation::play(script, record);
            let look = ops::base_blocker_script(config, "Rebase"@);
            &&& course::looks_at_base(config, "Rebase"@, asked, record, end.1)
            &&& course::base_passes(config, record) ==> {
                &&& conversation::play(look, record) == (
                    course::later(record, 2),
                    Ok::<Option<Seq<char>>, RequestView>(None),
                )
                &&& conversation::exchanges(look, record).len() == 2
            }
        }),
{
    lemma_base_look(config, record);
    let look = ops::base_blocker_script(config, "Rebase"@);
    let asked = conversation::requests(ops::rebase_all_script(config), record);
    if conversation::play(look, record).1 is Err {
        assert(asked =~= conversation::requests(look, record));
    } else if let Ok(Some(message)) = conversation::play(look, record).1 {
        assert(asked =~= conversation::requests(look, record));
    }
}

/// The scripts are played one after the other, each where the one before it left
/// off, and each of them is done.
pub open spec fn done_in_turn(
    scripts: Seq<Script<ResultView>>,
    record: Record,
    seen: Seq<Exchange>,
    last: Record,
) -> bool
    decreases scripts.len(),
{
    if scripts.len() == 0 {
        seen.len() == 0 && last == record
    } else {
        let first = conversation::exchanges(scripts[0], record);
        conversation::play(scripts[0], record) matches (after, Ok(result)) && result.ok
            && first.is_prefix_of(seen) && done_in_turn(
            scripts.skip(1),
            after,
            seen.skip(first.len() as int),
            last,
        )
    }
}

proof fn lemma_done_in_turn(
    scripts: Seq<Script<ResultView>>,
    labels: Seq<Seq<char>>,
    done: Seq<Seq<char>>,
    stopped: Seq<char>,
    all_done: spec_fn(Seq<Seq<char>>) -> ResultView,
    record: Record,
    seen: Seq<Exchange>,
    end: (Record, Result<ResultView, RequestView>),
)
    requires
        takes_turns(scripts, labels, done, stopped, all_done, record, seen, end),
        scripts.len() == labels.len(),
    ensures
        end.1 matches Ok(result) ==> result.ok ==> {
            &&& done_in_turn(scripts, record, seen, end.0)
            &&& result == all_done(done + labels)
        },
    decreases scripts.len(),
{
    if scripts.len() == 0 {
        assert(done + labels =~= done);
    } else if let (after, Ok(result)) = conversation::play(scripts[0], record) {
        if result.ok {
            let first = conversation::exchanges(scripts[0], record);
            let rest = seen.skip(first.len() as int);
            let more = done.push(labels[0]);
            lemma_done_in_turn(
                scripts.skip(1),
                labels.skip(1),
                more,
                stopped,
                all_done,
                after,
                rest,
                end,
            );
            assert(more + labels.skip(1) =~= done + labels);
        }
    }
}

/// A merge of every worktree that is done has merged each worktree that it names.
/// What it saw is what its snapshot saw, and then, for every ready row in order,
/// what the merge of that row saw, which is done. It names these rows and no others,
/// and there is one.
pub proof fn merged_worktrees_have_been_merged(config: ConfigView, record: Record)
    ensures
        ({
            let script = ops::merge_all_script(config);
            let seen = conversation::exchanges(script, record);
            let take = conversation::exchanges(git::snapshot_script(config), record);
            let (taken, snapshot) = conversation::play(git::snapshot_script(config), record);
            conversation::play(script, record) matches (last, Ok(result)) ==> result.ok ==> {
                let rows = ready_rows(snapshot->Ok_0.worktrees);
                &&& snapshot is Ok
                &&& take.is_prefix_of(seen)
                &&& done_in_turn(
                    merges_of(config, rows),
                    taken,
                    seen.skip(take.len() as int),
                    last,
                )
                &&& rows.len() > 0
                &&& result.message == "Merged "@ + text::joined(labels_of(rows), ", "@)
            }
        }),
{
    let script = ops::merge_all_script(config);
    let seen = conversation::exchanges(script, record);
    let take = conversation::exchanges(git::snapshot_script(config), record);
    merge_all_merges_each_ready_worktree(config, record);
    if let (taken, Ok(snapshot)) = conversation::play(git::snapshot_script(config), record) {
        let rows = ready_rows(snapshot.worktrees);
        lemma_done_in_turn(
            merges_of(config, rows),
            labels_of(rows),
            seq![],
            " after merging "@,
            merged_all(),
            taken,
            seen.skip(take.len() as int),
            conversation::play(script, record),
        );
        assert(seq![] + labels_of(rows) =~= labels_of(rows));
    }
}

/// Each worktree, in order, has been rebased onto a branch: among what was seen there
/// is the rebase, run in the worktree, which went well.
pub open spec fn rebased_in_order(
    base_branch: Seq<char>,
    rows: Seq<RowView>,
    seen: Seq<Exchange>,
) -> bool
    decreases rows.len(),
{
    rows.len() > 0 ==> exists|i: int|
        {
            &&& #[trigger] is_rebased(base_branch, rows[0], seen, i)
            &&& rebased_in_order(base_branch, rows.skip(1), seen.skip(i + 1))
        }
}

/// The `i`th exchange is the rebase of a worktree, which went well.
pub open spec fn is_rebased(
    base_branch: Seq<char>,
    row: RowView,
    seen: Seq<Exchange>,
    i: int,
) -> bool {
    &&& 0 <= i < seen.len()
    &&& seen[i].request == course::runs(seq!["git"@, "rebase"@, base_branch], row.path)
    &&& course::went_well(seen[i].reply)
}

proof fn lemma_later_rebased(
    base_branch: Seq<char>,
    rows: Seq<RowView>,
    before: Seq<Exchange>,
    seen: Seq<Exchange>,
)
    requires
        rebased_in_order(base_branch, rows, seen),
    ensures
        rebased_in_order(base_branch, rows, before + seen),
{
    if rows.len() > 0 {
        let i = choose|i: int|
            {
                &&& #[trigger] is_rebased(base_branch, rows[0], seen, i)
                &&& rebased_in_order(base_branch, rows.skip(1), seen.skip(i + 1))
            };
        let at = before.len() + i;
        assert(is_rebased(base_branch, rows[0], before + seen, at));
        assert((before + seen).skip(at + 1) =~= seen.skip(i + 1));
    }
}

proof fn lemma_done_rebase(config: ConfigView, row: RowView, record: Record)
    requires
        record.heard <= record.replies.len(),
    ensures
        ({
            let script = ops::rebase_script(config, row);
            let seen = conversation::exchanges(script, record);
            conversation::play(script, record).1 matches Ok(result) ==> result.ok ==> exists|i: int|
                #[trigger]
                is_rebased(config.base_branch, row, seen, i)
        }),
{
    let script = ops::rebase_script(config, row);
    let seen = conversation::exchanges(script, record);
    let asked = conversation::requests(script, record);
    course::rebases_take_their_course(config, row, record);
    conversation::requests_are_those_of_the_exchanges(script, record);
    conversation::exchanges_take_the_replies(script, record);
    if let (last, Ok(result)) = conversation::play(script, record) {
        if result.ok {
            conversation::heard_is_bounded(script, record);
            let clean = course::shows_nothing(course::reply(record, 2));
            let i: int = if clean { 3 } else { 4 };
            assert(asked[i] == seen[i].request);
            assert(asked.skip(i)[0] == asked[i]);
            assert(is_rebased(config.base_branch, row, seen, i));
        }
    }
}

#[verifier::rlimit(40)]
proof fn lemma_rebased_in_order(
    config: ConfigView,
    rows: Seq<RowView>,
    record: Record,
    seen: Seq<Exchange>,
    last: Record,
)
    requires
        record.heard <= record.replies.len(),
        done_in_turn(rebases_of(config, rows), record, seen, last),
    ensures
        rebased_in_order(config.base_branch, rows, seen),
    decreases rows.len(),
{
    if rows.len() > 0 {
        let script = ops::rebase_script(config, rows[0]);
        let first = conversation::exchanges(script, record);
        let after = conversation::play(script, record).0;
        assert(rebases_of(config, rows)[0] == script);
        assert(rebases_of(config, rows).skip(1) =~= rebases_of(config, rows.skip(1)));
        lemma_done_rebase(config, rows[0], record);
        conversation::heard_is_bounded(script, record);
        let rest = seen.skip(first.len() as int);
        lemma_rebased_in_order(config, rows.skip(1), after, rest, last);
        let i = choose|i: int| #[trigger] is_rebased(config.base_branch, rows[0], first, i);
        assert(seen =~= first + rest);
        assert(is_rebased(config.base_branch, rows[0], seen, i));
        assert(seen.skip(i + 1) =~= first.skip(i + 1) + rest);
        lemma_later_rebased(config.base_branch, rows.skip(1), first.skip(i + 1), rest);
    }
}

/// A rebase of every worktree that is done has rebased each worktree that it names.
/// The base checkout was fit and up to date, and of the snapshot that was taken then
/// every row that is not missing has been rebased, in order: there is an exchange
/// that ran the rebase in its place and went well. It names these rows and no
/// others, there is one, and it counts those that are missing.
pub proof fn rebased_worktrees_have_been_rebased(config: ConfigView, record: Record)
    requires
        record.heard <= record.replies.len(),
    ensures
        ({
            let script = ops::rebase_all_script(config);
            let seen = conversation::exchanges(script, record);
            let (synced, stop) = conversation::play(
                ops::sync_script(config),
                course::later(record, 2),
            );
            let (taken, snapshot) = conversation::play(git::snapshot_script(config), synced);
            conversation::play(script, record) matches (last, Ok(result)) ==> result.ok ==> {
                let rows = present_rows(snapshot->Ok_0.worktrees);
                &&& course::base_passes(config, record)
                &&& stop == Ok::<Option<ResultView>, RequestView>(None)
                &&& snapshot is Ok
                &&& rows.len() > 0
                &&& rebased_in_order(config.base_branch, rows, seen)
                &&& result == rebased_all(missing_count(snapshot->Ok_0.worktrees))(
                    labels_of(rows),
                )
            }
        }),
{
    let script = ops::rebase_all_script(config);
    let seen = conversation::exchanges(script, record);
    rebase_all_rebases_each_present_worktree(config, record);
    lemma_base_look(config, record);
    if let (last, Ok(result)) = conversation::play(script, record) {
        if result.ok && course::base_passes(config, record) {
            let looked = course::later(record, 2);
            let sync = ops::sync_script(config);
            conversation::heard_is_bounded(sync, looked);
            lemma_sync_stops(config, looked);
            if let (at, Ok(None)) = conversation::play(sync, looked) {
                let take = git::snapshot_script(config);
                conversation::heard_is_bounded(take, at);
                if let (taken, Ok(snapshot)) = conversation::play(take, at) {
                    let rows = present_rows(snapshot.worktrees);
                    let skipped = conversation::exchanges(sync, looked).len()
                        + conversation::exchanges(take, at).len();
                    let rest = seen.skip(2).skip(skipped as int);
                    lemma_done_in_turn(
                        rebases_of(config, rows),
                        labels_of(rows),
                        seq![],
                        " after rebasing "@,
                        rebased_all(missing_count(snapshot.worktrees)),
                        taken,
                        rest,
                        conversation::play(script, record),
                    );
                    assert(seq![] + labels_of(rows) =~= labels_of(rows));
                    lemma_rebased_in_order(config, rows, taken, rest, last);
                    lemma_rebase_all_behind(config, record);
                    assert(seen =~= seen.take(2 + skipped as int) + rest);
                    lemma_later_rebased(
                        config.base_branch,
                        rows,
                        seen.take(2 + skipped as int),
                        rest,
                    );
                }
            }
        }
    }
}

proof fn lemma_sync_stops(config: ConfigView, record: Record)
    ensures
        conversation::play(ops::sync_script(config), record).1 matches Ok(Some(result))
            ==> !result.ok,
{
    broadcast use {crate::conversation::group_play, crate::ops::group_commands};

}

proof fn lemma_rebase_all_behind(config: ConfigView, record: Record)
    requires
        course::base_passes(config, record),
    ensures
        conversation::exchanges(ops::rebase_all_script(config), record).len() >= 2,
{
    lemma_base_look(config, record);
}

/// The last three exchanges prove a merge: the base checkout is on a commit, on
/// another one than before if there was something to merge; it is clean; and the base
/// branch contains the branch. What is said names both commits.
pub open spec fn is_proven(
    config: ConfigView,
    target: RowView,
    before: Seq<char>,
    seen: Seq<Exchange>,
    message: Seq<char>,
) -> bool {
    let n = seen.len();
    let after = course::name_in(seen[n - 3].reply);
    &&& n >= 3
    &&& seen[n - 3].request == course::asks_commit("HEAD"@, config.repo_path)
    &&& target.ahead > 0 ==> after != before
    &&& seen[n - 2].request == course::asks_status(config.repo_path)
    &&& course::shows_nothing(seen[n - 2].reply)
    &&& seen[n - 1].request == course::tries(
        seq!["git"@, "merge-base"@, "--is-ancestor"@, target.branch, config.base_branch],
        config.repo_path,
    )
    &&& course::went_well(seen[n - 1].reply)
    &&& message == "Merged "@ + target.label + ": "@ + config.base_branch + " "@
        + course::short(before) + " -> "@ + course::short(after)
}

/// The exchanges are the requests, each with its reply.
spec fn fits(asked: Seq<RequestView>, record: Record, seen: Seq<Exchange>) -> bool {
    &&& seen.len() == asked.len()
    &&& forall|i: int|
        0 <= i < seen.len() ==> {
            &&& (#[trigger] seen[i]).request == asked[i]
            &&& seen[i].reply == course::reply(record, i)
            &&& course::answered(record, i)
        }
}

proof fn lemma_fits_later(asked: Seq<RequestView>, record: Record, seen: Seq<Exchange>, n: int)
    requires
        fits(asked, record, seen),
        0 <= n <= seen.len(),
    ensures
        fits(asked.skip(n), course::later(record, n), seen.skip(n)),
{
    assert forall|i: int| 0 <= i < seen.skip(n).len() implies {
        &&& (#[trigger] seen.skip(n)[i]).request == asked.skip(n)[i]
        &&& seen.skip(n)[i].reply == course::reply(course::later(record, n), i)
        &&& course::answered(course::later(record, n), i)
    } by {
        assert(seen.skip(n)[i] == seen[n + i]);
    }
}

proof fn lemma_all_fit<T>(script: Script<T>, record: Record)
    requires
        record.heard <= record.replies.len(),
        conversation::play(script, record).1 is Ok,
    ensures
        fits(
            conversation::requests(script, record),
            record,
            conversation::exchanges(script, record),
        ),
{
    conversation::requests_are_those_of_the_exchanges(script, record);
    conversation::exchanges_take_the_replies(script, record);
    conversation::heard_is_bounded(script, record);
    let seen = conversation::exchanges(script, record);
    assert forall|i: int| 0 <= i < seen.len() implies {
        &&& (#[trigger] seen[i]).request == conversation::requests(script, record)[i]
        &&& seen[i].reply == course::reply(record, i)
        &&& course::answered(record, i)
    } by {
        assert(conversation::requests(script, record)[i] == seen[i].request);
    }
}

proof fn lemma_made_sure(
    config: ConfigView,
    target: RowView,
    before: Seq<char>,
    asked: Seq<RequestView>,
    record: Record,
    result: ResultView,
    seen: Seq<Exchange>,
)
    requires
        course::makes_sure(
            config,
            target,
            before,
            asked,
            record,
            Ok::<ResultView, RequestView>(result),
        ),
        fits(asked, record, seen),
        result.ok,
    ensures
        is_proven(config, target, before, seen, result.message),
{
    assert(seen[0].request == asked[0]);
    assert(seen[1].request == asked[1]);
    assert(seen[2].request == asked[2]);
}

proof fn lemma_made_by_commit(
    config: ConfigView,
    target: RowView,
    before: Seq<char>,
    asked: Seq<RequestView>,
    record: Record,
    result: ResultView,
    seen: Seq<Exchange>,
)
    requires
        course::merges_by_commit(
            config,
            target,
            before,
            asked,
            record,
            Ok::<ResultView, RequestView>(result),
        ),
        fits(asked, record, seen),
        result.ok,
    ensures
        is_proven(config, target, before, seen, result.message),
{
    assert(seen[0].request == asked[0]);
    assert(seen[1].request == asked[1]);
    if !course::went_well(course::reply(record, 1)) {
        assert(seen[2].request == asked[2]);
    }
    lemma_fits_later(asked, record, seen, 2);
    let rest = seen.skip(2);
    lemma_made_sure(
        config,
        target,
        before,
        asked.skip(2),
        course::later(record, 2),
        result,
        rest,
    );
    assert(rest[rest.len() - 3] == seen[seen.len() - 3]);
    assert(rest[rest.len() - 2] == seen[seen.len() - 2]);
    assert(rest[rest.len() - 1] == seen[seen.len() - 1]);
}

proof fn lemma_rebased_and_merged(
    config: ConfigView,
    target: RowView,
    before: Seq<char>,
    asked: Seq<RequestView>,
    record: Record,
    result: ResultView,
    seen: Seq<Exchange>,
)
    requires
        course::rebases_and_merges(
            config,
            target,
            before,
            asked,
            record,
            Ok::<ResultView, RequestView>(result),
        ),
        fits(asked, record, seen),
        result.ok,
    ensures
        is_rebased(config.base_branch, target, seen, 0),
        is_proven(config, target, before, seen, result.message),
{
    assert(seen[0].request == asked[0]);
    assert(seen[1].request == asked[1]);
    lemma_fits_later(asked, record, seen, 2);
    let rest = seen.skip(2);
    let at = course::later(record, 2);
    if course::went_well(course::reply(record, 1)) {
        lemma_made_sure(config, target, before, asked.skip(2), at, result, rest);
    } else {
        lemma_made_by_commit(config, target, before, asked.skip(2), at, result, rest);
    }
    assert(rest[rest.len() - 3] == seen[seen.len() - 3]);
    assert(rest[rest.len() - 2] == seen[seen.len() - 2]);
    assert(rest[rest.len() - 1] == seen[seen.len() - 1]);
}

/// A merge saw all that it takes: the commits of both branches, the rebase of the
/// worktree, which went well, and at the end the proof.
pub open spec fn is_merged(
    config: ConfigView,
    target: RowView,
    seen: Seq<Exchange>,
    message: Seq<char>,
) -> bool {
    &&& seen.len() > 10
    &&& seen[5].request == course::asks_commit("HEAD"@, config.repo_path)
    &&& seen[6].request == course::asks_commit(target.branch, config.repo_path)
    &&& is_rebased(config.base_branch, target, seen, 7)
    &&& is_proven(config, target, course::name_in(seen[5].reply), seen, message)
}

proof fn lemma_merged(
    config: ConfigView,
    target: RowView,
    asked: Seq<RequestView>,
    record: Record,
    result: ResultView,
    seen: Seq<Exchange>,
)
    requires
        course::merges(config, target, asked, record, Ok::<ResultView, RequestView>(result)),
        fits(asked, record, seen),
        result.ok,
    ensures
        is_merged(config, target, seen, result.message),
{
    lemma_passed(config, target, asked, record, result, seen);
    let own = seen.skip(5);
    let at = course::later(record, 5);
    lemma_fits_later(asked, record, seen, 5);
    assert(own[0].request == asked.skip(5)[0]);
    assert(own[1].request == asked.skip(5)[1]);
    assert(own[0] == seen[5] && own[1] == seen[6]);
    lemma_fits_later(asked.skip(5), at, own, 2);
    let rest = own.skip(2);
    lemma_rebased_and_merged(
        config,
        target,
        course::name_in(seen[5].reply),
        asked.skip(5).skip(2),
        course::later(at, 2),
        result,
        rest,
    );
    assert(rest =~= seen.skip(7));
    assert(rest[0] == seen[7]);
    assert(rest[rest.len() - 3] == seen[seen.len() - 3]);
    assert(rest[rest.len() - 2] == seen[seen.len() - 2]);
    assert(rest[rest.len() - 1] == seen[seen.len() - 1]);
}

proof fn lemma_passed(
    config: ConfigView,
    target: RowView,
    asked: Seq<RequestView>,
    record: Record,
    result: ResultView,
    seen: Seq<Exchange>,
)
    requires
        course::merges(config, target, asked, record, Ok::<ResultView, RequestView>(result)),
        fits(asked, record, seen),
        result.ok,
    ensures
        course::base_passes(config, record),
        course::target_passes(target, course::later(record, 2)),
        seen.len() >= 5,
{
    assert(seen[0].request == asked[0]);
    assert(seen[1].request == asked[1]);
    lemma_fits_later(asked, record, seen, 2);
    let own = seen.skip(2);
    assert(own[0].request == asked.skip(2)[0]);
    assert(own[1].request == asked.skip(2)[1]);
    assert(own[2].request == asked.skip(2)[2]);
}

/// A merge that is done has merged the first worktree with the label, which was
/// ready: what it saw after its snapshot shows the rebase, and proves the merge.
#[verifier::rlimit(40)]
pub proof fn done_merges_have_merged(config: ConfigView, label: Seq<char>, record: Record)
    requires
        record.heard <= record.replies.len(),
    ensures
        ({
            let script = ops::merge_script(config, label);
            let seen = conversation::exchanges(script, record);
            let take = conversation::exchanges(git::snapshot_script(config), record);
            let snapshot = conversation::play(git::snapshot_script(config), record).1;
            conversation::play(script, record).1 matches Ok(result) ==> result.ok ==> {
                let rows = snapshot->Ok_0.worktrees;
                &&& snapshot is Ok
                &&& take.is_prefix_of(seen)
                &&& exists|i: int|
                    {
                        &&& #[trigger] course::is_first_with(rows, label, i)
                        &&& rows[i].state == WorktreeState::Ready
                        &&& is_merged(
                            config,
                            rows[i],
                            seen.skip(take.len() as int),
                            result.message,
                        )
                    }
            }
        }),
{
    let script = ops::merge_script(config, label);
    let seen = conversation::exchanges(script, record);
    let asked = conversation::requests(script, record);
    let take = conversation::exchanges(git::snapshot_script(config), record);
    course::merges_that_may_be_done_are_done(config, label, record);
    if let (last, Ok(result)) = conversation::play(script, record) {
        if result.ok {
            let (at, snapshot) = conversation::play(git::snapshot_script(config), record);
            let rows = snapshot->Ok_0.worktrees;
            lemma_all_fit(script, record);
            lemma_all_fit(git::snapshot_script(config), record);
            lemma_starts_with_snapshot(config, label, record);
            conversation::exchanges_take_the_replies(git::snapshot_script(config), record);
            conversation::heard_is_bounded(git::snapshot_script(config), record);
            let n = take.len() as int;
            lemma_fits_later(asked, record, seen, n);
            course::lemma_labelled(rows, label, 0);
            let i = choose|i: int| #[trigger] course::is_first_with(rows, label, i);
            assert(course::is_first_with(rows, label, i));
            let own = seen.skip(n);
            assert(fits(asked.skip(n), at, own)) by {
                let later = course::later(record, n);
                assert forall|k: int| 0 <= k < own.len() implies {
                    &&& (#[trigger] own[k]).request == asked.skip(n)[k]
                    &&& own[k].reply == course::reply(at, k)
                    &&& course::answered(at, k)
                } by {
                    assert(own[k].reply == course::reply(later, k));
                    assert(course::answered(later, k));
                }
            }
            lemma_merged(config, rows[i], asked.skip(n), at, result, own);
        }
    }
}

proof fn lemma_starts_with_snapshot(config: ConfigView, label: Seq<char>, record: Record)
    ensures
        conversation::exchanges(git::snapshot_script(config), record).is_prefix_of(
            conversation::exchanges(ops::merge_script(config, label), record),
        ),
{
    let take = git::snapshot_script(config);
    let checks = ops::merge_checks_script(config, label);
    let first = conversation::exchanges(take, record);
    let looked = conversation::exchanges(checks, record);
    let seen = conversation::exchanges(ops::merge_script(config, label), record);
    assert(first.is_prefix_of(looked));
    assert(looked.is_prefix_of(seen));
    assert(first =~= seen.take(first.len() as int));
}

/// The exchanges from number `from` up to number `to` are those of a merge that is done
/// of a worktree with a label, which was ready.
pub open spec fn is_merge_of(
    config: ConfigView,
    label: Seq<char>,
    seen: Seq<Exchange>,
    from: int,
    to: int,
    target: RowView,
    message: Seq<char>,
) -> bool {
    &&& 0 <= from <= to <= seen.len()
    &&& target.label == label
    &&& target.state == WorktreeState::Ready
    &&& is_merged(config, target, seen.subrange(from, to), message)
}

/// For each label, in order, there is a merge that is done, with its proof, among what
/// was seen.
pub open spec fn merged_in_order(
    config: ConfigView,
    labels: Seq<Seq<char>>,
    seen: Seq<Exchange>,
) -> bool
    decreases labels.len(),
{
    labels.len() > 0 ==> exists|from: int, to: int, target: RowView, message: Seq<char>|
        {
            &&& #[trigger] is_merge_of(config, labels[0], seen, from, to, target, message)
            &&& merged_in_order(config, labels.skip(1), seen.skip(to))
        }
}

#[verifier::rlimit(60)]
proof fn lemma_merge_found(config: ConfigView, label: Seq<char>, record: Record) -> (found: (
    int,
    RowView,
    Seq<char>,
))
    requires
        record.heard <= record.replies.len(),
        conversation::play(ops::merge_script(config, label), record).1 matches Ok(result)
            && result.ok,
    ensures
        ({
            let (n, target, message) = found;
            let first = conversation::exchanges(ops::merge_script(config, label), record);
            &&& 0 <= n <= first.len()
            &&& target.label == label
            &&& target.state == WorktreeState::Ready
            &&& is_merged(config, target, first.skip(n), message)
        }),
{
    done_merges_have_merged(config, label, record);
    let first = conversation::exchanges(ops::merge_script(config, label), record);
    let result = conversation::play(ops::merge_script(config, label), record).1->Ok_0;
    let take = conversation::exchanges(git::snapshot_script(config), record);
    let snapshot = conversation::play(git::snapshot_script(config), record).1->Ok_0;
    let rows = snapshot.worktrees;
    let n = take.len() as int;
    let i = choose|i: int|
        {
            &&& #[trigger] course::is_first_with(rows, label, i)
            &&& rows[i].state == WorktreeState::Ready
            &&& is_merged(config, rows[i], first.skip(n), result.message)
        };
    (n, rows[i], result.message)
}

proof fn lemma_merge_in_order(
    config: ConfigView,
    labels: Seq<Seq<char>>,
    first: Seq<Exchange>,
    rest: Seq<Exchange>,
    n: int,
    target: RowView,
    message: Seq<char>,
)
    requires
        labels.len() > 0,
        0 <= n <= first.len(),
        target.label == labels[0],
        target.state == WorktreeState::Ready,
        is_merged(config, target, first.skip(n), message),
        merged_in_order(config, labels.skip(1), rest),
    ensures
        merged_in_order(config, labels, first + rest),
{
    let to = first.len() as int;
    let seen = first + rest;
    assert(seen.subrange(n, to) =~= first.skip(n));
    assert(seen.skip(to) =~= rest);
    assert(is_merge_of(config, labels[0], seen, n, to, target, message));
}

#[verifier::rlimit(60)]
proof fn lemma_merged_in_order(
    config: ConfigView,
    rows: Seq<RowView>,
    record: Record,
    seen: Seq<Exchange>,
    last: Record,
)
    requires
        record.heard <= record.replies.len(),
        done_in_turn(merges_of(config, rows), record, seen, last),
    ensures
        merged_in_order(config, labels_of(rows), seen),
    decreases rows.len(),
{
    if rows.len() > 0 {
        let script = ops::merge_script(config, rows[0].label);
        let first = conversation::exchanges(script, record);
        let after = conversation::play(script, record).0;
        assert(merges_of(config, rows)[0] == script);
        assert(merges_of(config, rows).skip(1) =~= merges_of(config, rows.skip(1)));
        assert(labels_of(rows)[0] == rows[0].label);
        assert(labels_of(rows).skip(1) =~= labels_of(rows.skip(1)));
        conversation::heard_is_bounded(script, record);
        let rest = seen.skip(first.len() as int);
        lemma_merged_in_order(config, rows.skip(1), after, rest, last);
        let (n, target, message) = lemma_merge_found(config, rows[0].label, record);
        lemma_merge_in_order(config, labels_of(rows), first, rest, n, target, message);
        assert(seen =~= first + rest);
    }
}

/// A merge of every worktree that is done shows, for every ready row of its snapshot in
/// order, the merge of a worktree with its label: the rebase that went well, and the
/// three exchanges that prove that the base checkout moved on, is clean and contains the
/// branch.
pub proof fn merged_worktrees_are_proven(config: ConfigView, record: Record)
    requires
        record.heard <= record.replies.len(),
    ensures
        ({
            let script = ops::merge_all_script(config);
            let seen = conversation::exchanges(script, record);
            let take = conversation::exchanges(git::snapshot_script(config), record);
            let snapshot = conversation::play(git::snapshot_script(config), record).1;
            conversation::play(script, record).1 matches Ok(result) ==> result.ok ==> {
                &&& snapshot is Ok
                &&& merged_in_order(
                    config,
                    labels_of(ready_rows(snapshot->Ok_0.worktrees)),
                    seen.skip(take.len() as int),
                )
            }
        }),
{
    let script = ops::merge_all_script(config);
    let seen = conversation::exchanges(script, record);
    let take = conversation::exchanges(git::snapshot_script(config), record);
    merged_worktrees_have_been_merged(config, record);
    conversation::heard_is_bounded(git::snapshot_script(config), record);
    if let (last, Ok(result)) = conversation::play(script, record) {
        if result.ok {
            let (taken, snapshot) = conversation::play(git::snapshot_script(config), record);
            let rows = ready_rows(snapshot->Ok_0.worktrees);
            lemma_merged_in_order(config, rows, taken, seen.skip(take.len() as int), last);
        }
    }
}

}
