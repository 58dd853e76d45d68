//! What the operations promise: what they look at before they change anything,
//! what they change, and what they take back.
use vstd::prelude::*;

use crate::config::{ConfigView, SpecView};
use crate::conversation;
use crate::conversation::{Exchange, Record, ReplyView, RequestView};
use crate::git;
use crate::git::EntryView;
use crate::model::{RowView, WorktreeState};
use crate::ops;
use crate::order;
use crate::paths;
use crate::text;
use crate::util;

verus! {

broadcast use {crate::conversation::group_play, crate::conversation::group_asks};

/// Whether a command of git's only reads.
pub open spec fn reads(argv: Seq<Seq<char>>) -> bool {
    &&& argv.len() >= 3
    &&& argv[0] == "git"@
    &&& {
        ||| argv == seq!["git"@, "branch"@, "--show-current"@]
        ||| argv == seq!["git"@, "status"@, "--short"@]
        ||| argv == seq!["git"@, "worktree"@, "list"@, "--porcelain"@]
        ||| argv == seq!["git"@, "remote"@, "get-url"@, "origin"@]
        ||| argv[1] == "rev-parse"@
        ||| argv[1] == "rev-list"@
        ||| argv[1] == "log"@
        ||| argv[1] == "merge-base"@
    }
}

/// Whether a request only looks at something.
pub open spec fn is_read(request: RequestView) -> bool {
    match request {
        RequestView::Output { argv, .. } => reads(argv),
        RequestView::Status { argv, .. } => reads(argv),
        RequestView::Exists { path } => true,
        RequestView::Canonicalize { path } => true,
    }
}

/// To ask nothing but what only looks.
pub open spec fn reading() -> spec_fn(RequestView, Seq<Seq<char>>) -> bool {
    |request: RequestView, log: Seq<Seq<char>>| is_read(request)
}

proof fn lemma_row_reads(config: ConfigView, spec: SpecView, path: Seq<char>, record: Record)
    ensures
        conversation::asks_only(git::row_script(config, spec, path), record, reading()),
{
}

proof fn lemma_forms_read(entries: Seq<EntryView>, done: Seq<Seq<char>>, record: Record)
    ensures
        conversation::asks_only(git::forms_script(entries, done), record, reading()),
    decreases entries.len() - done.len(),
{
    if done.len() < entries.len() {
        let path = entries[done.len() as int].path;
        if let (after, Ok(form)) = conversation::play(git::canonical_script(path), record) {
            lemma_forms_read(entries, done.push(form), after);
        }
    }
}

proof fn lemma_named_read(
    config: ConfigView,
    entries: Seq<EntryView>,
    forms: Seq<Seq<char>>,
    done: Seq<RowView>,
    record: Record,
)
    ensures
        conversation::asks_only(
            git::named_script(config, entries, forms, done),
            record,
            reading(),
        ),
    decreases config.worktrees.len() - done.len(),
{
    if done.len() < config.worktrees.len() {
        let spec = config.worktrees[done.len() as int];
        let place = git::place_script(config, entries, forms, spec);
        if let (after, Ok(path)) = conversation::play(place, record) {
            lemma_row_reads(config, spec, path, after);
            if let (later, Ok(row)) = conversation::play(
                git::row_script(config, spec, path),
                after,
            ) {
                lemma_named_read(config, entries, forms, done.push(row), later);
            }
        }
    }
}

proof fn lemma_shown_read(
    config: ConfigView,
    entries: Seq<EntryView>,
    from: int,
    done: Seq<RowView>,
    record: Record,
)
    ensures
        conversation::asks_only(
            git::shown_script(config, entries, from, done),
            record,
            reading(),
        ),
    decreases entries.len() - from,
{
    if 0 <= from < entries.len() {
        if git::is_shown(config, entries[from]) {
            let spec = git::spec_of(entries[from]);
            let path = entries[from].path;
            lemma_row_reads(config, spec, path, record);
            if let (after, Ok(row)) = conversation::play(
                git::row_script(config, spec, path),
                record,
            ) {
                lemma_shown_read(config, entries, from + 1, done.push(row), after);
            }
        } else {
            lemma_shown_read(config, entries, from + 1, done, record);
        }
    }
}

/// A snapshot is taken without changing anything.
pub proof fn snapshots_only_read(config: ConfigView, record: Record)
    ensures
        conversation::asks_only(git::snapshot_script(config), record, reading()),
{
    reveal(git::snapshot_script);
    if let (after, Ok(repo)) = conversation::play(git::repo_script(config.repo_path), record) {
        if let (listed, Ok(entries)) = conversation::play(
            git::entries_script(config.repo_path),
            after,
        ) {
            lemma_shown_read(config, entries, 0, seq![], listed);
            lemma_forms_read(entries, seq![], listed);
            if let (formed, Ok(forms)) = conversation::play(
                git::forms_script(entries, seq![]),
                listed,
            ) {
                lemma_named_read(config, entries, forms, seq![], formed);
            }
        }
    }
}

/// An exchange in which the checkout at `path` proved to be on `branch`.
pub open spec fn shows_branch(exchange: Exchange, path: Seq<char>, branch: Seq<char>) -> bool {
    &&& exchange.request == RequestView::Output {
        argv: seq!["git"@, "branch"@, "--show-current"@],
        cwd: Some(path),
    }
    &&& text::trimmed(util::output_text(exchange.reply)) == branch
}

/// An exchange in which the checkout at `path` proved to be clean.
pub open spec fn shows_clean(exchange: Exchange, path: Seq<char>) -> bool {
    &&& exchange.request == RequestView::Output {
        argv: seq!["git"@, "status"@, "--short"@],
        cwd: Some(path),
    }
    &&& git::filled_lines(util::output_text(exchange.reply)) == 0
}

/// An exchange in which there proved to be a checkout at `path`.
pub open spec fn shows_checkout(exchange: Exchange, path: Seq<char>) -> bool {
    &&& exchange.request == RequestView::Exists {
        path: paths::joined_path(path, ".git"@),
    }
    &&& exchange.reply == ReplyView::Exists(true)
}

/// The base checkout proved to be fit for being worked on: on the base branch,
/// and then clean.
pub open spec fn base_is_fit(config: ConfigView, seen: Seq<Exchange>) -> bool {
    &&& seen.len() == 2
    &&& shows_branch(seen[0], config.repo_path, config.base_branch)
    &&& shows_clean(seen[1], config.repo_path)
}

/// A worktree proved to be fit for being merged: there, on its branch, and clean.
pub open spec fn target_is_fit(target: RowView, seen: Seq<Exchange>) -> bool {
    &&& seen.len() == 3
    &&& shows_checkout(seen[0], target.path)
    &&& shows_branch(seen[1], target.path, target.branch)
    &&& shows_clean(seen[2], target.path)
}

/// Only where no file is changed is there nothing to say of changed files.
pub proof fn lemma_change_summary(count: nat)
    ensures
        (git::change_summary(count).len() == 0) == (count == 0),
{
    reveal_strlit("1 changed file");
    reveal_strlit(" changed files");
}

/// Whether the characters from `from` up to `to` are white space.
pub open spec fn white_between(output: Seq<char>, from: int, to: int) -> bool {
    forall|i: int| from <= i < to ==> text::is_white(#[trigger] output[i])
}

proof fn lemma_blank_line(output: Seq<char>, from: int, end: int)
    requires
        0 <= from <= end <= output.len(),
        end < output.len() ==> output[end] == '\n',
    ensures
        end < output.len() ==> text::is_blank(
            text::without_return(output.subrange(from, end)),
        ) == white_between(output, from, end + 1),
        text::is_blank(output.subrange(from, end)) == white_between(output, from, end),
{
    let raw = output.subrange(from, end);
    let line = text::without_return(raw);
    assert(text::is_blank(raw) == white_between(output, from, end)) by {
        if text::is_blank(raw) {
            assert forall|i: int| from <= i < end implies text::is_white(#[trigger] output[i]) by {
                assert(raw[i - from] == output[i]);
            }
        } else {
            let j = choose|j: int| 0 <= j < raw.len() && !text::is_white(#[trigger] raw[j]);
            assert(raw[j] == output[from + j]);
        }
    }
    assert(text::is_blank(line) == text::is_blank(raw)) by {
        if text::is_blank(line) {
            assert forall|j: int| 0 <= j < raw.len() implies text::is_white(#[trigger] raw[j]) by {
                if j < line.len() {
                    assert(line[j] == raw[j]);
                }
            }
        } else {
            let j = choose|j: int| 0 <= j < line.len() && !text::is_white(#[trigger] line[j]);
            assert(line[j] == raw[j]);
        }
    }
}

proof fn lemma_filled_count(line: Seq<char>, rest: Seq<Seq<char>>)
    ensures
        ({
            let filled = |line: Seq<char>| !text::is_blank(line);
            ((seq![line] + rest).filter(filled).len() == 0) == (text::is_blank(line)
                && rest.filter(filled).len() == 0)
        }),
{
    let filled = |line: Seq<char>| !text::is_blank(line);
    let one = seq![line];
    reveal(Seq::filter);
    Seq::filter_distributes_over_add(one, rest, filled);
    assert(one.drop_last() =~= seq![]);
    assert(Seq::<Seq<char>>::empty().filter(filled) =~= seq![]);
    assert(one.drop_last().filter(filled) =~= seq![]);
    assert(one.last() == line);
}

proof fn lemma_blank_lines(output: Seq<char>, from: int)
    requires
        0 <= from <= output.len(),
    ensures
        (text::lines_from(output, from).filter(|line: Seq<char>| !text::is_blank(line)).len() == 0)
            == white_between(output, from, output.len() as int),
    decreases output.len() - from,
{
    if from < output.len() {
        text::lemma_line_end(output, from);
        let end = text::line_end(output, from);
        lemma_blank_line(output, from, end);
        if end < output.len() {
            let line = text::without_return(output.subrange(from, end));
            lemma_blank_lines(output, end + 1);
            lemma_filled_count(line, text::lines_from(output, end + 1));
            assert(white_between(output, from, output.len() as int) == (white_between(
                output,
                from,
                end + 1,
            ) && white_between(output, end + 1, output.len() as int)));
        } else {
            let line = output.subrange(from, end);
            lemma_filled_count(line, seq![]);
            reveal(Seq::filter);
            assert(seq![line] + Seq::<Seq<char>>::empty() =~= seq![line]);
        }
    } else {
        reveal(Seq::filter);
    }
}

/// There is nothing to say of changed files where, and only where, git writes
/// nothing but white space.
pub broadcast proof fn blank_status_is_clean(output: Seq<char>)
    ensures
        ((#[trigger] git::change_summary(git::filled_lines(output))).len() == 0) == text::is_blank(
            output,
        ),
{
    lemma_blank_lines(output, 0);
    lemma_change_summary(git::filled_lines(output));
}

pub(crate) proof fn lemma_base_blocker(config: ConfigView, action: Seq<char>, record: Record)
    ensures
        conversation::asks_only(ops::base_blocker_script(config, action), record, reading()),
        conversation::play(ops::base_blocker_script(config, action), record).1 == Ok::<
            Option<Seq<char>>,
            RequestView,
        >(None) ==> base_is_fit(
            config,
            conversation::exchanges(ops::base_blocker_script(config, action), record),
        ),
{
    broadcast use crate::conversation::group_exchanges;

    if record.heard + 1 < record.replies.len() {
        let reply = record.replies[record.heard as int + 1];
        lemma_change_summary(git::filled_lines(util::output_text(reply)));
    }
}

proof fn lemma_target_blocker(target: RowView, record: Record)
    ensures
        conversation::asks_only(ops::target_blocker_script(target), record, reading()),
        conversation::play(ops::target_blocker_script(target), record).1 == Ok::<
            Option<Seq<char>>,
            RequestView,
        >(None) ==> target_is_fit(
            target,
            conversation::exchanges(ops::target_blocker_script(target), record),
        ),
{
    broadcast use crate::conversation::group_exchanges;

    if record.heard + 2 < record.replies.len() {
        let reply = record.replies[record.heard as int + 2];
        lemma_change_summary(git::filled_lines(util::output_text(reply)));
    }
}

/// What the state of a row says of it.
pub open spec fn fits_its_state(row: RowView) -> bool {
    &&& row.state == WorktreeState::Ready ==> {
        &&& row.ahead > 0
        &&& !row.dirty
        &&& row.current_branch == row.branch
    }
    &&& row.state == WorktreeState::Dirty ==> row.dirty && row.current_branch == row.branch
    &&& row.state == WorktreeState::Behind ==> row.behind > 0 && row.ahead <= 0 && !row.dirty
    &&& row.state == WorktreeState::Merged ==> row.behind <= 0 && row.ahead <= 0 && !row.dirty
    &&& row.state == WorktreeState::WrongBranch ==> row.current_branch != row.branch
}

/// All rows say of themselves what is so.
pub open spec fn all_fit(rows: Seq<RowView>) -> bool {
    forall|i: int| 0 <= i < rows.len() ==> fits_its_state(#[trigger] rows[i])
}

proof fn lemma_row_fits(config: ConfigView, spec: SpecView, path: Seq<char>, record: Record)
    ensures
        conversation::play(git::row_script(config, spec, path), record).1 matches Ok(row)
            ==> fits_its_state(row) && row.path == path && row.branch == spec.branch && row.label
            == spec.label,
{
}

proof fn lemma_named_fit(
    config: ConfigView,
    entries: Seq<EntryView>,
    forms: Seq<Seq<char>>,
    done: Seq<RowView>,
    record: Record,
)
    requires
        all_fit(done),
    ensures
        conversation::play(git::named_script(config, entries, forms, done), record).1 matches Ok(
            rows,
        ) ==> all_fit(rows),
    decreases config.worktrees.len() - done.len(),
{
    if done.len() < config.worktrees.len() {
        let spec = config.worktrees[done.len() as int];
        let place = git::place_script(config, entries, forms, spec);
        if let (after, Ok(path)) = conversation::play(place, record) {
            lemma_row_fits(config, spec, path, after);
            if let (later, Ok(row)) = conversation::play(
                git::row_script(config, spec, path),
                after,
            ) {
                lemma_named_fit(config, entries, forms, done.push(row), later);
            }
        }
    }
}

proof fn lemma_shown_fit(
    config: ConfigView,
    entries: Seq<EntryView>,
    from: int,
    done: Seq<RowView>,
    record: Record,
)
    requires
        all_fit(done),
    ensures
        conversation::play(git::shown_script(config, entries, from, done), record).1 matches Ok(
            rows,
        ) ==> all_fit(rows),
    decreases entries.len() - from,
{
    if 0 <= from < entries.len() {
        if git::is_shown(config, entries[from]) {
            let spec = git::spec_of(entries[from]);
            let path = entries[from].path;
            lemma_row_fits(config, spec, path, record);
            if let (after, Ok(row)) = conversation::play(
                git::row_script(config, spec, path),
                record,
            ) {
                lemma_shown_fit(config, entries, from + 1, done.push(row), after);
            }
        } else {
            lemma_shown_fit(config, entries, from + 1, done, record);
        }
    } else {
        lemma_sorted_fit(done);
    }
}

proof fn lemma_sorted_fit(rows: Seq<RowView>)
    requires
        all_fit(rows),
    ensures
        all_fit(order::sorted(rows)),
    decreases rows.len(),
{
    if rows.len() > 0 {
        lemma_sorted_fit(rows.drop_last());
        let before = order::sorted(rows.drop_last());
        order::lemma_slot(before, rows.last(), before.len() as int);
        assert(fits_its_state(rows[rows.len() - 1]));
    }
}

/// The rows of a snapshot are what their states say: a ready one is clean, on its
/// branch and ahead of the base branch.
pub proof fn snapshot_rows_fit_their_states(config: ConfigView, record: Record)
    ensures
        conversation::play(git::snapshot_script(config), record).1 matches Ok(snapshot) ==> all_fit(
            snapshot.worktrees,
        ),
{
    reveal(git::snapshot_script);
    if let (after, Ok(repo)) = conversation::play(git::repo_script(config.repo_path), record) {
        if let (listed, Ok(entries)) = conversation::play(
            git::entries_script(config.repo_path),
            after,
        ) {
            lemma_shown_fit(config, entries, 0, seq![], listed);
            if let (formed, Ok(forms)) = conversation::play(
                git::forms_script(entries, seq![]),
                listed,
            ) {
                lemma_named_fit(config, entries, forms, seq![], formed);
            }
        }
    }
}

proof fn lemma_labelled(rows: Seq<RowView>, label: Seq<char>, from: int)
    requires
        0 <= from,
        all_fit(rows),
    ensures
        ops::labelled_from(rows, label, from) matches Some(row) ==> row.label == label
            && fits_its_state(row),
    decreases rows.len() - from,
{
    if from < rows.len() && rows[from].label != label {
        lemma_labelled(rows, label, from + 1);
    }
}

/// A worktree proved to be one that a merge is for, and both checkouts proved to
/// be fit for it in the five exchanges at the end of `seen`.
pub open spec fn cleared(
    config: ConfigView,
    label: Seq<char>,
    target: RowView,
    seen: Seq<Exchange>,
) -> bool {
    let start = seen.len() - 5;
    &&& target.label == label
    &&& target.state == WorktreeState::Ready
    &&& fits_its_state(target)
    &&& start >= 0
    &&& base_is_fit(config, seen.subrange(start, start + 2))
    &&& target_is_fit(target, seen.subrange(start + 2, start + 5))
}

proof fn lemma_clearance(config: ConfigView, target: RowView, record: Record)
    ensures
        conversation::asks_only(
            ops::merge_clearance_script(config, target),
            record,
            reading(),
        ),
        conversation::play(ops::merge_clearance_script(config, target), record).1 matches Ok(
            Ok(row),
        ) ==> row == target && ({
            let seen = conversation::exchanges(
                ops::merge_clearance_script(config, target),
                record,
            );
            &&& seen.len() == 5
            &&& base_is_fit(config, seen.subrange(0, 2))
            &&& target_is_fit(target, seen.subrange(2, 5))
        }),
{
    broadcast use crate::conversation::exchanges_chain, crate::conversation::exchanges_end;

    lemma_base_blocker(config, "Merge"@, record);
    let base_script = ops::base_blocker_script(config, "Merge"@);
    if let (based, Ok(None)) = conversation::play(base_script, record) {
        lemma_target_blocker(target, based);
        let first = conversation::exchanges(base_script, record);
        let second = conversation::exchanges(ops::target_blocker_script(target), based);
        if let (after, Ok(None)) = conversation::play(ops::target_blocker_script(target), based) {
            let seen = conversation::exchanges(
                ops::merge_clearance_script(config, target),
                record,
            );
            assert(seen =~= first + second);
            assert(seen.subrange(0, 2) =~= first);
            assert(seen.subrange(2, 5) =~= second);
        }
    }
}

/// A merge changes nothing unless the worktree with that label is clean, on its
/// branch and ahead of the base branch, and the base checkout is clean and on the
/// base branch: the exchanges that showed this come right before the first change.
pub proof fn merges_look_before_they_change(config: ConfigView, label: Seq<char>, record: Record)
    ensures
        conversation::asks_only(ops::merge_checks_script(config, label), record, reading()),
        conversation::exchanges(ops::merge_checks_script(config, label), record).is_prefix_of(
            conversation::exchanges(ops::merge_script(config, label), record),
        ),
        match conversation::play(ops::merge_checks_script(config, label), record).1 {
            Ok(Ok(target)) => cleared(
                config,
                label,
                target,
                conversation::exchanges(ops::merge_checks_script(config, label), record),
            ),
            _ => conversation::asks_only(ops::merge_script(config, label), record, reading()),
        },
{
    broadcast use crate::conversation::group_exchanges;

    snapshots_only_read(config, record);
    snapshot_rows_fit_their_states(config, record);
    if let (after, Ok(snapshot)) = conversation::play(git::snapshot_script(config), record) {
        lemma_labelled(snapshot.worktrees, label, 0);
        if let Some(target) = ops::labelled_from(snapshot.worktrees, label, 0) {
            lemma_clearance(config, target, after);
            let first = conversation::exchanges(git::snapshot_script(config), record);
            let second = conversation::exchanges(
                ops::merge_clearance_script(config, target),
                after,
            );
            if target.state == WorktreeState::Ready {
                let seen = conversation::exchanges(
                    ops::merge_checks_script(config, label),
                    record,
                );
                assert(seen =~= first + second);
                if second.len() == 5 {
                    let start = seen.len() - 5;
                    assert(seen.subrange(start, start + 2) =~= second.subrange(0, 2));
                    assert(seen.subrange(start + 2, start + 5) =~= second.subrange(2, 5));
                }
            }
        }
    }
}

/// Whether a request is one of the steps of a merge, in the checkout that it is
/// for.
pub open spec fn is_merge_step(config: ConfigView, target: RowView, request: RequestView) -> bool {
    let base = Some(config.repo_path);
    let own = Some(target.path);
    ||| request == RequestView::Output { argv: ops::rebase_argv(config.base_branch), cwd: own }
    ||| request == RequestView::Output { argv: ops::rebase_abort_argv(), cwd: own }
    ||| request == RequestView::Output { argv: ops::forward_argv(target.branch), cwd: base }
    ||| request == RequestView::Output { argv: ops::merge_argv(target.branch), cwd: base }
    ||| request == RequestView::Output { argv: ops::commit_argv(), cwd: base }
    ||| request == RequestView::Output { argv: ops::merge_abort_argv(), cwd: base }
}

/// Whether the last line of a log announces a request.
pub open spec fn announced(request: RequestView, log: Seq<Seq<char>>) -> bool {
    &&& log.len() > 0
    &&& request matches RequestView::Output { argv, .. } && log.last() == ops::announcement(argv)
}

/// To ask nothing but what only looks, or what is a step of a merge and has just
/// been announced.
pub open spec fn merging(config: ConfigView, target: RowView) -> spec_fn(
    RequestView,
    Seq<Seq<char>>,
) -> bool {
    |request: RequestView, log: Seq<Seq<char>>|
        is_read(request) || is_merge_step(config, target, request) && announced(request, log)
}

/// To ask nothing but what only looks, or what has just been announced.
pub open spec fn announcing() -> spec_fn(RequestView, Seq<Seq<char>>) -> bool {
    |request: RequestView, log: Seq<Seq<char>>| is_read(request) || announced(request, log)
}

proof fn lemma_verified_reads(
    config: ConfigView,
    target: RowView,
    main_before: Seq<char>,
    record: Record,
)
    ensures
        conversation::asks_only(
            ops::verified_script(config, target, main_before),
            record,
            merging(config, target),
        ),
{
}

proof fn lemma_commit_merges(
    config: ConfigView,
    target: RowView,
    main_before: Seq<char>,
    record: Record,
)
    ensures
        conversation::asks_only(
            ops::merge_commit_script(config, target, main_before),
            record,
            merging(config, target),
        ),
{
    broadcast use crate::ops::group_commands;

    let cwd = config.repo_path;
    let merge = ops::command_script(ops::merge_argv(target.branch), cwd);
    if let (merged, Ok(result)) = conversation::play(merge, record) {
        let commit = ops::command_script(ops::commit_argv(), cwd);
        if let (committed, Ok(result)) = conversation::play(commit, merged) {
            lemma_verified_reads(config, target, main_before, committed);
        }
    }
}

proof fn lemma_rebase_merges(
    config: ConfigView,
    target: RowView,
    main_before: Seq<char>,
    record: Record,
)
    ensures
        conversation::asks_only(
            ops::merge_rebase_script(config, target, main_before),
            record,
            merging(config, target),
        ),
{
    broadcast use crate::ops::group_commands;

    let rebase = ops::command_script(ops::rebase_argv(config.base_branch), target.path);
    if let (rebased, Ok(result)) = conversation::play(rebase, record) {
        let forward = ops::command_script(ops::forward_argv(target.branch), config.repo_path);
        if let (moved, Ok(result)) = conversation::play(forward, rebased) {
            lemma_verified_reads(config, target, main_before, moved);
            lemma_commit_merges(config, target, main_before, moved);
        }
    }
}

/// A merge that has been cleared changes nothing but by rebasing the worktree, and
/// by merging its branch in the base checkout; each of these commands is announced
/// right before it is run.
pub proof fn merges_do_nothing_else(config: ConfigView, target: RowView, record: Record)
    ensures
        conversation::asks_only(
            ops::merge_steps_script(config, target),
            record,
            merging(config, target),
        ),
{
    let head = git::ref_script(config.repo_path, "HEAD"@);
    let tip = git::ref_script(config.repo_path, target.branch);
    if let (after, Ok(main_before)) = conversation::play(head, record) {
        if let (later, Ok(branch_before)) = conversation::play(tip, after) {
            let line = target.label + ": base "@ + git::short_name(main_before) + " branch "@
                + git::short_name(branch_before);
            lemma_rebase_merges(
                config,
                target,
                main_before,
                Record { log: later.log.push(line), ..later },
            );
        }
    }
}

/// Whatever a merge runs that does not only look is announced right before it is
/// run.
pub proof fn merges_announce_what_they_run(config: ConfigView, label: Seq<char>, record: Record)
    ensures
        conversation::asks_only(ops::merge_script(config, label), record, announcing()),
{
    merges_look_before_they_change(config, label, record);
    let checks = ops::merge_checks_script(config, label);
    conversation::asks_weaken(checks, record, reading(), announcing());
    if let (after, Ok(Ok(target))) = conversation::play(checks, record) {
        let steps = ops::merge_steps_script(config, target);
        merges_do_nothing_else(config, target, after);
        conversation::asks_weaken(steps, after, merging(config, target), announcing());
    }
}

}
