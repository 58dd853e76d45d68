//! What a snapshot tells, and from which exchanges: each row is what was asked of its
//! worktree, and what the replies were.
use vstd::prelude::*;

use crate::config::{ConfigView, SpecView};
use crate::conversation;
use crate::conversation::{Exchange, Record, ReplyView, RequestView, Script};
use crate::course;
use crate::git;
use crate::git::EntryView;
use crate::model::{RowView, SnapshotView, WorktreeState};
use crate::number;
use crate::order;
use crate::paths;
use crate::text;
use crate::turn;
use crate::util;

verus! {

broadcast use {
    crate::conversation::play_end,
    crate::conversation::play_chain,
    crate::conversation::exchanges_end,
    crate::conversation::exchanges_chain,
    crate::safety::blank_status_is_clean,
};

/// The state of a worktree is missing where there is no checkout or no branch, else
/// wrong where the checkout is on another branch, else dirty where files are changed;
/// else it is ready where the branch is ahead, or else behind, or else merged.
pub open spec fn has_state(
    state: WorktreeState,
    found: bool,
    known: bool,
    on_branch: bool,
    clean: bool,
    ahead: int,
    behind: int,
) -> bool {
    let at_home = found && known && on_branch;
    &&& state == WorktreeState::Missing <==> !found || !known
    &&& state == WorktreeState::WrongBranch <==> found && known && !on_branch
    &&& state == WorktreeState::Dirty <==> at_home && !clean
    &&& state == WorktreeState::Ready <==> at_home && clean && ahead > 0
    &&& state == WorktreeState::Behind <==> at_home && clean && ahead <= 0 && behind > 0
    &&& state == WorktreeState::Merged <==> at_home && clean && ahead <= 0 && behind <= 0
}

/// The state of a worktree is decided by what is known of it, for every state in the
/// one way that fits it.
pub proof fn states_are_decided(
    found: bool,
    known: bool,
    branch: Seq<char>,
    current: Seq<char>,
    changes: Seq<char>,
    ahead: int,
    behind: int,
)
    ensures
        has_state(
            git::state_of(found, known, branch, current, changes, ahead, behind),
            found,
            known,
            current == branch,
            changes.len() == 0,
            ahead,
            behind,
        ),
{
}

/// How many lines of what was written hold more than white space.
pub open spec fn changed_files(written: Seq<char>) -> nat {
    text::lines(written).filter(|line: Seq<char>| !text::is_blank(line)).len()
}

/// What is said of a number of changed files.
pub open spec fn words_for_changes(count: nat) -> Seq<char> {
    if count == 0 {
        "clean"@
    } else if count == 1 {
        "1 changed file"@
    } else {
        number::decimal(count as int) + " changed files"@
    }
}

/// The number in a word, or zero if it is none.
pub open spec fn number_in(word: Seq<char>) -> int {
    match number::integer_value(word) {
        Some(value) => value,
        None => 0,
    }
}

/// How far a branch is behind and ahead, by what was written: two numbers, in this
/// order, or else none.
pub open spec fn counted(written: Seq<char>, behind: int, ahead: int) -> bool {
    let found = text::words(written);
    if found.len() == 2 {
        behind == number_in(found[0]) && ahead == number_in(found[1])
    } else {
        behind == 0 && ahead == 0
    }
}

/// Whether the first exchange found a checkout.
pub open spec fn is_found(seen: Seq<Exchange>) -> bool {
    seen[0].reply == ReplyView::Exists(true)
}

/// Whether the second exchange found that the branch is known.
pub open spec fn is_known(seen: Seq<Exchange>) -> bool {
    course::went_well(seen[1].reply)
}

/// What is asked of a worktree: whether there is a checkout and whether the branch is
/// known; of a checkout its branch and its changed files; of a known branch how far it
/// is from the base branch, and its last commit.
pub open spec fn asks_about(config: ConfigView, row: RowView, seen: Seq<Exchange>) -> bool {
    let n: int = if is_found(seen) {
        4
    } else {
        2
    };
    &&& seen.len() >= n + if is_known(seen) {
        2int
    } else {
        0
    }
    &&& seen[0].request == course::asks_checkout(row.path)
    &&& seen[1].request == course::tries(
        seq!["git"@, "rev-parse"@, "--verify"@, row.branch],
        config.repo_path,
    )
    &&& is_found(seen) ==> {
        &&& seen[2].request == course::asks_branch(row.path)
        &&& seen[3].request == course::asks_status(row.path)
    }
    &&& is_known(seen) ==> {
        &&& seen[n].request == course::runs(
            seq![
                "git"@,
                "rev-list"@,
                "--left-right"@,
                "--count"@,
                config.base_branch + "..."@ + row.branch,
            ],
            config.repo_path,
        )
        &&& seen[n + 1].request == course::runs(
            seq!["git"@, "log"@, "-1"@, "--pretty=%s"@, row.branch],
            config.repo_path,
        )
    }
}

/// How many exchanges there are about a worktree, by the first two.
pub open spec fn asked_count(seen: Seq<Exchange>) -> int {
    2 + if is_found(seen) {
        2int
    } else {
        0
    } + if is_known(seen) {
        2int
    } else {
        0
    }
}

/// A row tells what the exchanges about its worktree found.
pub open spec fn tells(row: RowView, seen: Seq<Exchange>) -> bool {
    let found = is_found(seen);
    let known = is_known(seen);
    let n: int = if found {
        4
    } else {
        2
    };
    let changed = changed_files(course::wrote(seen[3].reply));
    &&& row.current_branch == if found {
        course::name_in(seen[2].reply)
    } else {
        seq![]
    }
    &&& row.dirty <==> found && changed > 0
    &&& row.summary == words_for_changes(
        if found {
            changed
        } else {
            0
        },
    )
    &&& known ==> counted(course::wrote(seen[n].reply), row.behind as int, row.ahead as int)
    &&& !known ==> row.behind == 0 && row.ahead == 0
    &&& row.subject == if known {
        util::compacted(course::wrote(seen[n + 1].reply), 100)
    } else {
        seq![]
    }
    &&& has_state(
        row.state,
        found,
        known,
        row.current_branch == row.branch,
        !row.dirty,
        row.ahead as int,
        row.behind as int,
    )
}

/// There is one exchange, of a request.
spec fn is_one(seen: Seq<Exchange>, request: RequestView) -> bool {
    seen.len() == 1 && seen[0].request == request
}

proof fn lemma_checkout_is_told(path: Seq<char>, record: Record)
    ensures
        ({
            let script = git::present_script(path);
            let seen = conversation::exchanges(script, record);
            conversation::play(script, record).1 matches Ok(found) ==> is_one(
                seen,
                course::asks_checkout(path),
            ) && found == is_found(seen)
        }),
{
    broadcast use {crate::conversation::group_play, crate::conversation::group_exchanges};

}

proof fn lemma_branch_is_told(config: ConfigView, branch: Seq<char>, record: Record)
    ensures
        ({
            let script = git::known_script(config.repo_path, branch);
            let seen = conversation::exchanges(script, record);
            conversation::play(script, record).1 matches Ok(known) ==> is_one(
                seen,
                course::tries(
                    seq!["git"@, "rev-parse"@, "--verify"@, branch],
                    config.repo_path,
                ),
            ) && known == course::went_well(seen[0].reply)
        }),
{
    broadcast use {crate::conversation::group_play, crate::conversation::group_exchanges};

}

proof fn lemma_current_is_told(path: Seq<char>, record: Record)
    ensures
        ({
            let script = git::branch_script(path);
            let seen = conversation::exchanges(script, record);
            conversation::play(script, record).1 matches Ok(current) ==> is_one(
                seen,
                course::asks_branch(path),
            ) && current == course::name_in(seen[0].reply)
        }),
{
    broadcast use {crate::conversation::group_play, crate::conversation::group_exchanges};

}

proof fn lemma_changes_are_told(path: Seq<char>, record: Record)
    ensures
        ({
            let script = git::status_script(path);
            let seen = conversation::exchanges(script, record);
            let changed = changed_files(course::wrote(seen[0].reply));
            conversation::play(script, record).1 matches Ok(changes) ==> {
                &&& is_one(seen, course::asks_status(path))
                &&& changes.len() > 0 <==> changed > 0
                &&& words_for_changes(changed) == if changes.len() == 0 {
                    "clean"@
                } else {
                    changes
                }
            }
        }),
{
    broadcast use {crate::conversation::group_play, crate::conversation::group_exchanges};

    let script = git::status_script(path);
    let seen = conversation::exchanges(script, record);
    let written = course::wrote(seen[0].reply);
    crate::safety::lemma_change_summary(changed_files(written));
}

proof fn lemma_counts_are_told(config: ConfigView, branch: Seq<char>, record: Record)
    ensures
        ({
            let script = git::counts_script(config.repo_path, config.base_branch, branch);
            let seen = conversation::exchanges(script, record);
            conversation::play(script, record).1 matches Ok(counts) ==> is_one(
                seen,
                course::runs(
                    seq![
                        "git"@,
                        "rev-list"@,
                        "--left-right"@,
                        "--count"@,
                        config.base_branch + "..."@ + branch,
                    ],
                    config.repo_path,
                ),
            ) && counted(course::wrote(seen[0].reply), counts.1 as int, counts.0 as int)
        }),
{
    broadcast use {crate::conversation::group_play, crate::conversation::group_exchanges};

}

proof fn lemma_subject_is_told(config: ConfigView, branch: Seq<char>, record: Record)
    ensures
        ({
            let script = git::subject_script(config.repo_path, branch);
            let seen = conversation::exchanges(script, record);
            conversation::play(script, record).1 matches Ok(subject) ==> is_one(
                seen,
                course::runs(
                    seq!["git"@, "log"@, "-1"@, "--pretty=%s"@, branch],
                    config.repo_path,
                ),
            ) && subject == util::compacted(course::wrote(seen[0].reply), 100)
        }),
{
    broadcast use {crate::conversation::group_play, crate::conversation::group_exchanges};

}

/// The exchanges about a worktree, in order, where they have all come in.
spec fn row_pieces(
    config: ConfigView,
    row: RowView,
    checkout: Seq<Exchange>,
    branch: Seq<Exchange>,
    current: Seq<Exchange>,
    changes: Seq<Exchange>,
    counts: Seq<Exchange>,
    subject: Seq<Exchange>,
) -> bool {
    let found = is_found(checkout);
    let known = course::went_well(branch[0].reply);
    let changed = changed_files(course::wrote(changes[0].reply));
    &&& is_one(checkout, course::asks_checkout(row.path))
    &&& is_one(
        branch,
        course::tries(
            seq!["git"@, "rev-parse"@, "--verify"@, row.branch],
            config.repo_path,
        ),
    )
    &&& found ==> {
        &&& is_one(current, course::asks_branch(row.path))
        &&& is_one(changes, course::asks_status(row.path))
        &&& row.current_branch == course::name_in(current[0].reply)
        &&& row.dirty <==> changed > 0
        &&& row.summary == words_for_changes(changed)
    }
    &&& !found ==> {
        &&& current.len() == 0
        &&& changes.len() == 0
        &&& row.current_branch == Seq::<char>::empty()
        &&& !row.dirty
        &&& row.summary == "clean"@
    }
    &&& known ==> {
        &&& is_one(
            counts,
            course::runs(
                seq![
                    "git"@,
                    "rev-list"@,
                    "--left-right"@,
                    "--count"@,
                    config.base_branch + "..."@ + row.branch,
                ],
                config.repo_path,
            ),
        )
        &&& is_one(
            subject,
            course::runs(
                seq!["git"@, "log"@, "-1"@, "--pretty=%s"@, row.branch],
                config.repo_path,
            ),
        )
        &&& counted(course::wrote(counts[0].reply), row.behind as int, row.ahead as int)
        &&& row.subject == util::compacted(course::wrote(subject[0].reply), 100)
    }
    &&& !known ==> {
        &&& counts.len() == 0
        &&& subject.len() == 0
        &&& row.behind == 0
        &&& row.ahead == 0
        &&& row.subject == Seq::<char>::empty()
    }
    &&& has_state(
        row.state,
        found,
        known,
        row.current_branch == row.branch,
        !row.dirty,
        row.ahead as int,
        row.behind as int,
    )
}

proof fn lemma_pieces_tell(
    config: ConfigView,
    row: RowView,
    checkout: Seq<Exchange>,
    branch: Seq<Exchange>,
    current: Seq<Exchange>,
    changes: Seq<Exchange>,
    counts: Seq<Exchange>,
    subject: Seq<Exchange>,
)
    requires
        row_pieces(config, row, checkout, branch, current, changes, counts, subject),
    ensures
        ({
            let seen = checkout + branch + current + changes + counts + subject;
            &&& asks_about(config, row, seen)
            &&& tells(row, seen)
            &&& seen.len() == asked_count(seen)
        }),
{
    let seen = checkout + branch + current + changes + counts + subject;
    assert(seen[0] == checkout[0]);
    assert(seen[1] == branch[0]);
    let n: int = if is_found(seen) {
        4
    } else {
        2
    };
    if is_found(seen) {
        assert(seen[2] == current[0]);
        assert(seen[3] == changes[0]);
    }
    if is_known(seen) {
        assert(seen[n] == counts[0]);
        assert(seen[n + 1] == subject[0]);
    }
}

/// A row tells of its worktree what was found out, and nothing else is asked: it has the
/// label, the branch and the place that it was asked about.
pub proof fn rows_tell_what_was_seen(
    config: ConfigView,
    spec: SpecView,
    path: Seq<char>,
    record: Record,
)
    ensures
        ({
            let script = git::row_script(config, spec, path);
            let seen = conversation::exchanges(script, record);
            conversation::play(script, record).1 matches Ok(row) ==> {
                &&& row.label == spec.label
                &&& row.branch == spec.branch
                &&& row.path == path
                &&& asks_about(config, row, seen)
                &&& tells(row, seen)
                &&& seen.len() == asked_count(seen)
            }
        }),
{
    let script = git::row_script(config, spec, path);
    let seen = conversation::exchanges(script, record);
    let branch = spec.branch;
    if let (last, Ok(row)) = conversation::play(script, record) {
        let look = git::present_script(path);
        lemma_checkout_is_told(path, record);
        let (r1, found) = conversation::play(look, record);
        let verify = git::known_script(config.repo_path, branch);
        lemma_branch_is_told(config, branch, r1);
        let (r2, known) = conversation::play(verify, r1);
        let on = git::only_if(found->Ok_0, git::branch_script(path), seq![]);
        lemma_current_is_told(path, r2);
        let (r3, current) = conversation::play(on, r2);
        let status = git::only_if(found->Ok_0, git::status_script(path), seq![]);
        lemma_changes_are_told(path, r3);
        let (r4, changes) = conversation::play(status, r3);
        let count = git::only_if(
            known->Ok_0,
            git::counts_script(config.repo_path, config.base_branch, branch),
            (0i64, 0i64),
        );
        lemma_counts_are_told(config, branch, r4);
        let (r5, counts) = conversation::play(count, r4);
        let log = git::only_if(
            known->Ok_0,
            git::subject_script(config.repo_path, branch),
            seq![],
        );
        lemma_subject_is_told(config, branch, r5);
        let e1 = conversation::exchanges(look, record);
        let e2 = conversation::exchanges(verify, r1);
        let e3 = conversation::exchanges(on, r2);
        let e4 = conversation::exchanges(status, r3);
        let e5 = conversation::exchanges(count, r4);
        let e6 = conversation::exchanges(log, r5);
        assert(found is Ok && known is Ok && current is Ok && changes is Ok && counts is Ok);
        lemma_pieces_tell(config, row, e1, e2, e3, e4, e5, e6);
        assert(seen =~= e1 + e2 + e3 + e4 + e5 + e6);
    }
}

/// From exchange `k` on, a row is what was found out about its worktree.
pub open spec fn is_told(config: ConfigView, row: RowView, seen: Seq<Exchange>, k: int) -> bool {
    &&& 0 <= k < seen.len()
    &&& asks_about(config, row, seen.skip(k))
    &&& tells(row, seen.skip(k))
}

/// A row is what was found out about its worktree.
pub open spec fn told_somewhere(config: ConfigView, row: RowView, seen: Seq<Exchange>) -> bool {
    exists|k: int| #[trigger] is_told(config, row, seen, k)
}

/// Every row is what was found out about its worktree.
pub open spec fn all_told(config: ConfigView, rows: Seq<RowView>, seen: Seq<Exchange>) -> bool {
    forall|i: int| 0 <= i < rows.len() ==> told_somewhere(config, #[trigger] rows[i], seen)
}

/// The rows are what was found out about their worktrees, one after the other, and there
/// are no other exchanges.
pub open spec fn told_in_order(
    config: ConfigView,
    rows: Seq<RowView>,
    seen: Seq<Exchange>,
) -> bool
    decreases rows.len(),
{
    if rows.len() == 0 {
        seen.len() == 0
    } else {
        &&& asks_about(config, rows[0], seen)
        &&& tells(rows[0], seen)
        &&& told_in_order(config, rows.skip(1), seen.skip(asked_count(seen)))
    }
}

proof fn lemma_told_within(
    config: ConfigView,
    row: RowView,
    before: Seq<Exchange>,
    seen: Seq<Exchange>,
    after: Seq<Exchange>,
    k: int,
)
    requires
        is_told(config, row, seen, k),
    ensures
        is_told(config, row, before + seen + after, before.len() + k),
{
    let own = seen.skip(k);
    let all = before + seen + after;
    let at = before.len() + k;
    let wide = all.skip(at);
    assert(wide =~= own + after);
    assert(wide[0] == own[0]);
    assert(wide[1] == own[1]);
    let n: int = if is_found(own) {
        4
    } else {
        2
    };
    if is_found(own) {
        assert(wide[2] == own[2]);
        assert(wide[3] == own[3]);
    }
    if is_known(own) {
        assert(wide[n] == own[n]);
        assert(wide[n + 1] == own[n + 1]);
    }
}

proof fn lemma_all_told_within(
    config: ConfigView,
    rows: Seq<RowView>,
    before: Seq<Exchange>,
    seen: Seq<Exchange>,
    after: Seq<Exchange>,
)
    requires
        all_told(config, rows, seen),
    ensures
        all_told(config, rows, before + seen + after),
{
    let all = before + seen + after;
    assert forall|i: int| 0 <= i < rows.len() implies told_somewhere(
        config,
        #[trigger] rows[i],
        all,
    ) by {
        let k = choose|k: int| #[trigger] is_told(config, rows[i], seen, k);
        lemma_told_within(config, rows[i], before, seen, after, k);
    }
}

/// A listed worktree is shown where it is on a branch, but for the base branch.
pub open spec fn to_be_shown(base_branch: Seq<char>) -> spec_fn(EntryView) -> bool {
    |entry: EntryView| entry.branch.len() > 0 && entry.branch != base_branch
}

/// The rows are those of the listed worktrees, in their order: each has its path, its
/// branch, and the name of its directory for a label, or else that of its branch.
pub open spec fn rows_of_entries(rows: Seq<RowView>, entries: Seq<EntryView>) -> bool {
    &&& rows.len() == entries.len()
    &&& forall|i: int|
        0 <= i < rows.len() ==> {
            &&& (#[trigger] rows[i]).path == entries[i].path
            &&& rows[i].branch == entries[i].branch
            &&& rows[i].label == match paths::last_component(entries[i].path) {
                Some(name) => name,
                None => entries[i].branch,
            }
        }
}

/// The rows that are found of the listed worktrees.
spec fn found_of(
    config: ConfigView,
    entries: Seq<EntryView>,
    done: Seq<RowView>,
    seen: Seq<Exchange>,
    rows: Seq<RowView>,
    fresh: Seq<RowView>,
) -> bool {
    &&& rows == order::sorted(done + fresh)
    &&& rows_of_entries(fresh, entries.filter(to_be_shown(config.base_branch)))
    &&& all_told(config, fresh, seen)
    &&& told_in_order(config, fresh, seen)
}

proof fn lemma_first_told(
    config: ConfigView,
    row: RowView,
    later: Seq<RowView>,
    first: Seq<Exchange>,
    rest: Seq<Exchange>,
)
    requires
        asks_about(config, row, first),
        tells(row, first),
        first.len() == asked_count(first),
        told_in_order(config, later, rest),
    ensures
        told_in_order(config, seq![row] + later, first + rest),
{
    let seen = first + rest;
    let rows = seq![row] + later;
    assert(first.skip(0) =~= first);
    assert(is_told(config, row, first, 0));
    lemma_told_within(config, row, seq![], first, rest, 0);
    assert(seq![] + first + rest =~= seen);
    assert(seen.skip(0) =~= seen);
    assert(seen[0] == first[0] && seen[1] == first[1]);
    assert(seen.skip(asked_count(seen)) =~= rest);
    assert(rows.skip(1) =~= later);
}

proof fn lemma_one_more(
    config: ConfigView,
    entries: Seq<EntryView>,
    from: int,
    done: Seq<RowView>,
    first: Seq<Exchange>,
    rest: Seq<Exchange>,
    rows: Seq<RowView>,
    row: RowView,
    later: Seq<RowView>,
)
    requires
        0 <= from < entries.len(),
        to_be_shown(config.base_branch)(entries[from]),
        row.path == entries[from].path,
        row.branch == entries[from].branch,
        row.label == git::spec_of(entries[from]).label,
        asks_about(config, row, first),
        tells(row, first),
        first.len() == asked_count(first),
        found_of(config, entries.skip(from + 1), done.push(row), rest, rows, later),
    ensures
        found_of(config, entries.skip(from), done, first + rest, rows, seq![row] + later),
{
    let wanted = to_be_shown(config.base_branch);
    let fresh = seq![row] + later;
    turn::lemma_filter_front(entries, wanted, from);
    assert(done + fresh =~= done.push(row) + later);
    let shown = entries.skip(from).filter(wanted);
    let others = entries.skip(from + 1).filter(wanted);
    assert(shown == seq![entries[from]] + others);
    assert forall|i: int| 0 <= i < fresh.len() implies {
        &&& (#[trigger] fresh[i]).path == shown[i].path
        &&& fresh[i].branch == shown[i].branch
        &&& fresh[i].label == match paths::last_component(shown[i].path) {
            Some(name) => name,
            None => shown[i].branch,
        }
    } by {
        if i > 0 {
            assert(fresh[i] == later[i - 1]);
            assert(shown[i] == others[i - 1]);
        }
    }
    assert(first.skip(0) =~= first);
    assert(is_told(config, row, first, 0));
    lemma_told_within(config, row, seq![], first, rest, 0);
    assert(seq![] + first + rest =~= first + rest);
    assert(is_told(config, row, first + rest, 0));
    lemma_first_told(config, row, later, first, rest);
    lemma_all_told_within(config, later, first, rest, seq![]);
    assert(first + rest + seq![] =~= first + rest);
    assert forall|i: int| 0 <= i < fresh.len() implies told_somewhere(
        config,
        #[trigger] fresh[i],
        first + rest,
    ) by {
        if i > 0 {
            assert(fresh[i] == later[i - 1]);
        }
    }
}

proof fn lemma_shown_are_told(
    config: ConfigView,
    entries: Seq<EntryView>,
    from: int,
    done: Seq<RowView>,
    record: Record,
)
    requires
        0 <= from <= entries.len(),
    ensures
        ({
            let script = git::shown_script(config, entries, from, done);
            let seen = conversation::exchanges(script, record);
            conversation::play(script, record).1 matches Ok(rows) ==> exists|fresh: Seq<RowView>|
                #[trigger]
                found_of(config, entries.skip(from), done, seen, rows, fresh)
        }),
    decreases entries.len() - from,
{
    let script = git::shown_script(config, entries, from, done);
    let seen = conversation::exchanges(script, record);
    let wanted = to_be_shown(config.base_branch);
    if let (last, Ok(rows)) = conversation::play(script, record) {
        if from == entries.len() {
            reveal(Seq::filter);
            let none = Seq::<RowView>::empty();
            assert(entries.skip(from) =~= seq![]);
            assert(entries.skip(from).filter(wanted) =~= seq![]);
            assert(done + none =~= done);
            assert(found_of(config, entries.skip(from), done, seen, rows, none));
        } else if wanted(entries[from]) {
            let entry = entries[from];
            let one = git::row_script(config, git::spec_of(entry), entry.path);
            rows_tell_what_was_seen(config, git::spec_of(entry), entry.path, record);
            let first = conversation::exchanges(one, record);
            let (after, row) = conversation::play(one, record);
            let row = row->Ok_0;
            lemma_shown_are_told(config, entries, from + 1, done.push(row), after);
            let next = git::shown_script(config, entries, from + 1, done.push(row));
            let rest = conversation::exchanges(next, after);
            assert(seen == first + rest);
            let left = entries.skip(from + 1);
            let later = choose|later: Seq<RowView>| #[trigger]
                found_of(config, left, done.push(row), rest, rows, later);
            lemma_one_more(config, entries, from, done, first, rest, rows, row, later);
        } else {
            lemma_shown_are_told(config, entries, from + 1, done, record);
            turn::lemma_filter_front(entries, wanted, from);
            let left = entries.skip(from + 1);
            let fresh = choose|fresh: Seq<RowView>| #[trigger]
                found_of(config, left, done, seen, rows, fresh);
            assert(found_of(config, entries.skip(from), done, seen, rows, fresh));
        }
    }
}

/// The canonical form of a path by a reply; a path that has none stands for itself.
pub open spec fn canonical_in(path: Seq<char>, reply: ReplyView) -> Seq<char> {
    match reply {
        ReplyView::Canonical(found) => found,
        _ => path,
    }
}

/// The forms are the canonical forms of the paths of entries `from` and following, by
/// the exchanges, in order.
pub open spec fn are_forms(
    entries: Seq<EntryView>,
    from: int,
    seen: Seq<Exchange>,
    forms: Seq<Seq<char>>,
) -> bool {
    &&& forms.len() == entries.len()
    &&& seen.len() == entries.len() - from
    &&& forall|i: int|
        0 <= i < seen.len() ==> {
            &&& (#[trigger] seen[i]).request == RequestView::Canonicalize {
                path: entries[from + i].path,
            }
            &&& forms[from + i] == canonical_in(entries[from + i].path, seen[i].reply)
        }
}

proof fn lemma_forms_are_told(entries: Seq<EntryView>, done: Seq<Seq<char>>, record: Record)
    requires
        done.len() <= entries.len(),
    ensures
        ({
            let script = git::forms_script(entries, done);
            let seen = conversation::exchanges(script, record);
            conversation::play(script, record).1 matches Ok(forms) ==> {
                &&& done.is_prefix_of(forms)
                &&& are_forms(entries, done.len() as int, seen, forms)
            }
        }),
    decreases entries.len() - done.len(),
{
    let script = git::forms_script(entries, done);
    let seen = conversation::exchanges(script, record);
    let n = done.len() as int;
    if let (last, Ok(forms)) = conversation::play(script, record) {
        if n < entries.len() {
            let path = entries[n].path;
            lemma_form_is_told(path, record);
            let (after, form) = conversation::play(git::canonical_script(path), record);
            let form = form->Ok_0;
            let first = conversation::exchanges(git::canonical_script(path), record);
            lemma_forms_are_told(entries, done.push(form), after);
            let rest = conversation::exchanges(
                git::forms_script(entries, done.push(form)),
                after,
            );
            assert(seen == first + rest);
            assert(done.push(form)[n] == form);
            assert(forms[n] == form);
            assert(done =~= done.push(form).take(n));
            assert(done =~= forms.take(n));
            assert forall|i: int| 0 <= i < seen.len() implies {
                &&& (#[trigger] seen[i]).request == RequestView::Canonicalize {
                    path: entries[n + i].path,
                }
                &&& forms[n + i] == canonical_in(entries[n + i].path, seen[i].reply)
            } by {
                if i > 0 {
                    assert(seen[i] == rest[i - 1]);
                }
            }
        } else {
            assert(done =~= done.take(n));
        }
    }
}

proof fn lemma_form_is_told(path: Seq<char>, record: Record)
    ensures
        ({
            let script = git::canonical_script(path);
            let seen = conversation::exchanges(script, record);
            conversation::play(script, record).1 matches Ok(form) ==> is_one(
                seen,
                RequestView::Canonicalize { path },
            ) && form == canonical_in(path, seen[0].reply)
        }),
{
    broadcast use {crate::conversation::group_play, crate::conversation::group_exchanges};

}

/// Text `i` is the last one that equals another.
pub open spec fn is_last(texts: Seq<Seq<char>>, wanted: Seq<char>, i: int) -> bool {
    &&& 0 <= i < texts.len()
    &&& texts[i] == wanted
    &&& forall|j: int| i < j < texts.len() ==> #[trigger] texts[j] != wanted
}

proof fn lemma_last(texts: Seq<Seq<char>>, wanted: Seq<char>, upto: int)
    requires
        0 <= upto <= texts.len(),
        forall|j: int| upto <= j < texts.len() ==> #[trigger] texts[j] != wanted,
    ensures
        match git::last_index(texts, wanted, upto) {
            Some(i) => is_last(texts, wanted, i),
            None => !texts.contains(wanted),
        },
    decreases upto,
{
    if upto > 0 && texts[upto - 1] != wanted {
        lemma_last(texts, wanted, upto - 1);
    }
}

/// The branches of listed worktrees.
pub open spec fn branches_of(entries: Seq<EntryView>) -> Seq<Seq<char>> {
    entries.map_values(|entry: EntryView| entry.branch)
}

/// Where a named worktree stands: where the last listed one on its branch stands.
/// Where none is on it, the path that it is named with is what the last listed one
/// with the same canonical form calls it, or else itself; and without such a path it
/// stands beside the repository, under its label.
pub open spec fn stands_at(
    config: ConfigView,
    entries: Seq<EntryView>,
    forms: Seq<Seq<char>>,
    spec: SpecView,
    path: Seq<char>,
    seen: Seq<Exchange>,
    k: int,
) -> bool {
    let branches = branches_of(entries);
    &&& forall|i: int| #[trigger] is_last(branches, spec.branch, i) ==> path == entries[i].path
    &&& !branches.contains(spec.branch) ==> match spec.path {
        None => path == paths::joined_path(
            match paths::parent_path(config.repo_path) {
                Some(above) => above,
                None => config.repo_path,
            },
            spec.label,
        ),
        Some(given) => {
            let form = canonical_in(given, seen[k].reply);
            &&& 0 <= k < seen.len()
            &&& seen[k].request == RequestView::Canonicalize { path: given }
            &&& forall|i: int| #[trigger] is_last(forms, form, i) ==> path == entries[i].path
            &&& !forms.contains(form) ==> path == given
        },
    }
}

/// How many exchanges it takes to find where a named worktree stands: one, where it is
/// not listed by its branch and has a path.
pub open spec fn place_count(entries: Seq<EntryView>, spec: SpecView) -> int {
    if !branches_of(entries).contains(spec.branch) && spec.path is Some {
        1
    } else {
        0
    }
}

/// The rows are those of the named worktrees from number `from` on: for each in order it
/// is found where it stands and then what there is to know of it, and there are no other
/// exchanges.
pub open spec fn named_in_order(
    config: ConfigView,
    entries: Seq<EntryView>,
    forms: Seq<Seq<char>>,
    from: int,
    rows: Seq<RowView>,
    seen: Seq<Exchange>,
) -> bool
    decreases rows.len(),
{
    if rows.len() == 0 {
        seen.len() == 0
    } else {
        let spec = config.worktrees[from];
        let own = seen.skip(place_count(entries, spec));
        &&& stands_at(config, entries, forms, spec, rows[0].path, seen, 0)
        &&& asks_about(config, rows[0], own)
        &&& tells(rows[0], own)
        &&& named_in_order(
            config,
            entries,
            forms,
            from + 1,
            rows.skip(1),
            own.skip(asked_count(own)),
        )
    }
}

/// A named worktree stands where the exchanges show it.
pub open spec fn stands_somewhere(
    config: ConfigView,
    entries: Seq<EntryView>,
    forms: Seq<Seq<char>>,
    spec: SpecView,
    path: Seq<char>,
    seen: Seq<Exchange>,
) -> bool {
    exists|k: int| #[trigger] stands_at(config, entries, forms, spec, path, seen, k)
}

proof fn lemma_place_is_told(
    config: ConfigView,
    entries: Seq<EntryView>,
    forms: Seq<Seq<char>>,
    spec: SpecView,
    record: Record,
)
    requires
        forms.len() == entries.len(),
    ensures
        ({
            let script = git::place_script(config, entries, forms, spec);
            let seen = conversation::exchanges(script, record);
            conversation::play(script, record).1 matches Ok(path) ==> stands_at(
                config,
                entries,
                forms,
                spec,
                path,
                seen,
                0,
            ) && seen.len() == place_count(entries, spec)
        }),
{
    let script = git::place_script(config, entries, forms, spec);
    let seen = conversation::exchanges(script, record);
    let branches = branches_of(entries);
    lemma_last(branches, spec.branch, branches.len() as int);
    if let (last, Ok(path)) = conversation::play(script, record) {
        if let Some(i) = git::last_index(branches, spec.branch, branches.len() as int) {
            assert forall|j: int| #[trigger] is_last(branches, spec.branch, j) implies path
                == entries[j].path by {
                assert(branches[i] == spec.branch && branches[j] == spec.branch);
                assert(i == j);
            }
            assert(branches.contains(spec.branch));
        } else {
            assert forall|j: int| #[trigger] is_last(branches, spec.branch, j) implies path
                == entries[j].path by {
                assert(branches[j] == spec.branch);
            }
            if let Some(given) = spec.path {
                lemma_form_is_told(given, record);
                let (after, form) = conversation::play(git::canonical_script(given), record);
                let form = form->Ok_0;
                let first = conversation::exchanges(git::canonical_script(given), record);
                assert(seen =~= first);
                lemma_last(forms, form, forms.len() as int);
                assert forall|j: int| #[trigger] is_last(forms, form, j) implies path
                    == entries[j].path by {
                    let i = git::last_index(forms, form, forms.len() as int)->Some_0;
                    assert(forms[j] == form);
                    assert(is_last(forms, form, i));
                    assert(forms[i] == form);
                    assert(i == j);
                }
            }
        }
    }
}

/// The rows are those of the named worktrees from number `from` on, in the order in
/// which they are named: each has the label and the branch that it is named with, and
/// stands where the exchanges show it.
pub open spec fn rows_of_names(
    config: ConfigView,
    entries: Seq<EntryView>,
    forms: Seq<Seq<char>>,
    from: int,
    rows: Seq<RowView>,
    seen: Seq<Exchange>,
) -> bool {
    &&& from + rows.len() == config.worktrees.len()
    &&& forall|i: int|
        0 <= i < rows.len() ==> {
            &&& (#[trigger] rows[i]).label == config.worktrees[from + i].label
            &&& rows[i].branch == config.worktrees[from + i].branch
            &&& stands_somewhere(
                config,
                entries,
                forms,
                config.worktrees[from + i],
                rows[i].path,
                seen,
            )
        }
}

proof fn lemma_stands_within(
    config: ConfigView,
    entries: Seq<EntryView>,
    forms: Seq<Seq<char>>,
    spec: SpecView,
    path: Seq<char>,
    before: Seq<Exchange>,
    seen: Seq<Exchange>,
    after: Seq<Exchange>,
)
    requires
        stands_somewhere(config, entries, forms, spec, path, seen),
    ensures
        stands_somewhere(config, entries, forms, spec, path, before + seen + after),
{
    let k = choose|k: int| #[trigger] stands_at(config, entries, forms, spec, path, seen, k);
    let all = before + seen + after;
    let at = before.len() + k;
    if 0 <= k < seen.len() {
        assert(all[at] == seen[k]);
    }
    assert(stands_at(config, entries, forms, spec, path, all, at));
}

proof fn lemma_names_within(
    config: ConfigView,
    entries: Seq<EntryView>,
    forms: Seq<Seq<char>>,
    from: int,
    rows: Seq<RowView>,
    before: Seq<Exchange>,
    seen: Seq<Exchange>,
)
    requires
        rows_of_names(config, entries, forms, from, rows, seen),
    ensures
        rows_of_names(config, entries, forms, from, rows, before + seen),
{
    assert forall|i: int| 0 <= i < rows.len() implies {
        &&& (#[trigger] rows[i]).label == config.worktrees[from + i].label
        &&& rows[i].branch == config.worktrees[from + i].branch
        &&& stands_somewhere(
            config,
            entries,
            forms,
            config.worktrees[from + i],
            rows[i].path,
            before + seen,
        )
    } by {
        let spec = config.worktrees[from + i];
        lemma_stands_within(config, entries, forms, spec, rows[i].path, before, seen, seq![]);
        assert(before + seen + seq![] =~= before + seen);
    }
}

proof fn lemma_named_turn(
    config: ConfigView,
    entries: Seq<EntryView>,
    forms: Seq<Seq<char>>,
    done: Seq<RowView>,
    record: Record,
) -> (turn: (Seq<char>, RowView, Seq<Exchange>, Seq<Exchange>, Record))
    requires
        forms.len() == entries.len(),
        done.len() < config.worktrees.len(),
        conversation::play(git::named_script(config, entries, forms, done), record).1 is Ok,
    ensures
        ({
            let (path, row, e1, e2, after) = turn;
            let spec = config.worktrees[done.len() as int];
            let script = git::named_script(config, entries, forms, done);
            let next = git::named_script(config, entries, forms, done.push(row));
            &&& row.label == spec.label
            &&& row.branch == spec.branch
            &&& row.path == path
            &&& stands_at(config, entries, forms, spec, path, e1, 0)
            &&& asks_about(config, row, e2)
            &&& tells(row, e2)
            &&& e1.len() == place_count(entries, spec)
            &&& e2.len() == asked_count(e2)
            &&& conversation::play(script, record) == conversation::play(next, after)
            &&& conversation::exchanges(script, record) == e1 + e2 + conversation::exchanges(
                next,
                after,
            )
        }),
{
    let spec = config.worktrees[done.len() as int];
    let place = git::place_script(config, entries, forms, spec);
    lemma_place_is_told(config, entries, forms, spec, record);
    let (placed, path) = conversation::play(place, record);
    let path = path->Ok_0;
    let one = git::row_script(config, spec, path);
    rows_tell_what_was_seen(config, spec, path, placed);
    let (after, row) = conversation::play(one, placed);
    let e1 = conversation::exchanges(place, record);
    let e2 = conversation::exchanges(one, placed);
    let next = git::named_script(config, entries, forms, done.push(row->Ok_0));
    assert(conversation::exchanges(git::named_script(config, entries, forms, done), record) =~= e1
        + e2 + conversation::exchanges(next, after));
    (path, row->Ok_0, e1, e2, after)
}

proof fn lemma_named_are_told(
    config: ConfigView,
    entries: Seq<EntryView>,
    forms: Seq<Seq<char>>,
    done: Seq<RowView>,
    record: Record,
)
    requires
        forms.len() == entries.len(),
        done.len() <= config.worktrees.len(),
    ensures
        ({
            let script = git::named_script(config, entries, forms, done);
            let seen = conversation::exchanges(script, record);
            let n = done.len() as int;
            conversation::play(script, record).1 matches Ok(rows) ==> {
                &&& done.is_prefix_of(rows)
                &&& rows_of_names(config, entries, forms, n, rows.skip(n), seen)
                &&& all_told(config, rows.skip(n), seen)
                &&& named_in_order(config, entries, forms, n, rows.skip(n), seen)
            }
        }),
    decreases config.worktrees.len() - done.len(),
{
    let script = git::named_script(config, entries, forms, done);
    let seen = conversation::exchanges(script, record);
    let n = done.len() as int;
    if let (last, Ok(rows)) = conversation::play(script, record) {
        if n < config.worktrees.len() {
            let (path, row, e1, e2, after) = lemma_named_turn(
                config,
                entries,
                forms,
                done,
                record,
            );
            lemma_named_are_told(config, entries, forms, done.push(row), after);
            let next = git::named_script(config, entries, forms, done.push(row));
            let e3 = conversation::exchanges(next, after);
            assert(seen =~= e1 + e2 + e3);
            assert(done.push(row)[n] == row);
            assert(rows[n] == row);
            assert(done =~= done.push(row).take(n));
            assert(done =~= rows.take(n));
            lemma_named_step(config, entries, forms, n, rows, path, e1, e2, e3);
        } else {
            assert(done =~= done.take(n));
        }
    }
}

proof fn lemma_first_named(
    config: ConfigView,
    entries: Seq<EntryView>,
    forms: Seq<Seq<char>>,
    n: int,
    rows: Seq<RowView>,
    path: Seq<char>,
    e1: Seq<Exchange>,
    e2: Seq<Exchange>,
    e3: Seq<Exchange>,
)
    requires
        0 <= n < config.worktrees.len(),
        n < rows.len(),
        rows[n].path == path,
        stands_at(config, entries, forms, config.worktrees[n], path, e1, 0),
        asks_about(config, rows[n], e2),
        tells(rows[n], e2),
        e1.len() == place_count(entries, config.worktrees[n]),
        e2.len() == asked_count(e2),
        named_in_order(config, entries, forms, n + 1, rows.skip(n + 1), e3),
    ensures
        named_in_order(config, entries, forms, n, rows.skip(n), e1 + e2 + e3),
{
    let seen = e1 + e2 + e3;
    let own = seen.skip(e1.len() as int);
    assert(own =~= e2 + e3);
    assert(e2.skip(0) =~= e2);
    assert(is_told(config, rows[n], e2, 0));
    lemma_told_within(config, rows[n], seq![], e2, e3, 0);
    assert(seq![] + e2 + e3 =~= own);
    assert(own.skip(0) =~= own);
    assert(own[0] == e2[0] && own[1] == e2[1]);
    assert(own.skip(asked_count(own)) =~= e3);
    assert(rows.skip(n).skip(1) =~= rows.skip(n + 1));
    assert(rows.skip(n)[0] == rows[n]);
    if e1.len() > 0 {
        assert(seen[0] == e1[0]);
    }
    assert(stands_at(config, entries, forms, config.worktrees[n], path, seen, 0));
}

proof fn lemma_named_step(
    config: ConfigView,
    entries: Seq<EntryView>,
    forms: Seq<Seq<char>>,
    n: int,
    rows: Seq<RowView>,
    path: Seq<char>,
    e1: Seq<Exchange>,
    e2: Seq<Exchange>,
    e3: Seq<Exchange>,
)
    requires
        0 <= n < config.worktrees.len(),
        n < rows.len(),
        rows[n].label == config.worktrees[n].label,
        rows[n].branch == config.worktrees[n].branch,
        rows[n].path == path,
        stands_at(config, entries, forms, config.worktrees[n], path, e1, 0),
        asks_about(config, rows[n], e2),
        tells(rows[n], e2),
        rows_of_names(config, entries, forms, n + 1, rows.skip(n + 1), e3),
        all_told(config, rows.skip(n + 1), e3),
        e1.len() == place_count(entries, config.worktrees[n]),
        e2.len() == asked_count(e2),
        named_in_order(config, entries, forms, n + 1, rows.skip(n + 1), e3),
    ensures
        rows_of_names(config, entries, forms, n, rows.skip(n), e1 + e2 + e3),
        all_told(config, rows.skip(n), e1 + e2 + e3),
        named_in_order(config, entries, forms, n, rows.skip(n), e1 + e2 + e3),
{
    lemma_first_named(config, entries, forms, n, rows, path, e1, e2, e3);
    let seen = e1 + e2 + e3;
    let own = rows.skip(n);
    let others = rows.skip(n + 1);
    let spec = config.worktrees[n];
    assert(e2.skip(0) =~= e2);
    assert(is_told(config, rows[n], e2, 0));
    lemma_told_within(config, rows[n], e1, e2, e3, 0);
    assert(stands_somewhere(config, entries, forms, spec, path, e1));
    lemma_stands_within(config, entries, forms, spec, path, seq![], e1, e2 + e3);
    assert(seq![] + e1 + (e2 + e3) =~= seen);
    lemma_names_within(config, entries, forms, n + 1, others, e1 + e2, e3);
    lemma_all_told_within(config, others, e1 + e2, e3, seq![]);
    assert(e1 + e2 + e3 + seq![] =~= seen);
    assert forall|i: int| 0 <= i < own.len() implies told_somewhere(
        config,
        #[trigger] own[i],
        seen,
    ) by {
        if i == 0 {
            assert(own[0] == rows[n]);
        } else {
            assert(own[i] == others[i - 1]);
        }
    }
    assert forall|i: int| 0 <= i < own.len() implies {
        &&& (#[trigger] own[i]).label == config.worktrees[n + i].label
        &&& own[i].branch == config.worktrees[n + i].branch
        &&& stands_somewhere(config, entries, forms, config.worktrees[n + i], own[i].path, seen)
    } by {
        if i == 0 {
            assert(own[0] == rows[n]);
        } else {
            assert(own[i] == others[i - 1]);
            assert(config.worktrees[n + i] == config.worktrees[n + 1 + (i - 1)]);
        }
    }
}

/// What a snapshot tells of the repository: its path, its branch, and its changed
/// files, by the first two exchanges. The third lists the worktrees.
pub open spec fn tells_of_repo(
    config: ConfigView,
    snapshot: SnapshotView,
    seen: Seq<Exchange>,
) -> bool {
    let changed = changed_files(course::wrote(seen[0].reply));
    &&& seen.len() >= 3
    &&& seen[0].request == course::asks_status(config.repo_path)
    &&& seen[1].request == course::asks_branch(config.repo_path)
    &&& seen[2].request == course::runs(
        seq!["git"@, "worktree"@, "list"@, "--porcelain"@],
        config.repo_path,
    )
    &&& snapshot.base_branch == config.base_branch
    &&& snapshot.repo.path == config.repo_path
    &&& snapshot.repo.branch == course::name_in(seen[1].reply)
    &&& snapshot.repo.dirty <==> changed > 0
    &&& snapshot.repo.summary == words_for_changes(changed)
}

proof fn lemma_repo_is_told(config: ConfigView, record: Record)
    ensures
        ({
            let script = git::repo_script(config.repo_path);
            let seen = conversation::exchanges(script, record);
            conversation::play(script, record).1 matches Ok(repo) ==> {
                let changed = changed_files(course::wrote(seen[0].reply));
                &&& seen.len() == 2
                &&& seen[0].request == course::asks_status(config.repo_path)
                &&& seen[1].request == course::asks_branch(config.repo_path)
                &&& repo.path == config.repo_path
                &&& repo.branch == course::name_in(seen[1].reply)
                &&& repo.dirty <==> changed > 0
                &&& repo.summary == words_for_changes(changed)
            }
        }),
{
    let path = config.repo_path;
    lemma_changes_are_told(path, record);
    if let (after, Ok(status)) = conversation::play(git::status_script(path), record) {
        lemma_current_is_told(path, after);
    }
}

proof fn lemma_list_is_told(config: ConfigView, record: Record)
    ensures
        ({
            let script = git::entries_script(config.repo_path);
            let seen = conversation::exchanges(script, record);
            conversation::play(script, record).1 matches Ok(entries) ==> is_one(
                seen,
                course::runs(
                    seq!["git"@, "worktree"@, "list"@, "--porcelain"@],
                    config.repo_path,
                ),
            ) && entries == git::listed_entries(course::wrote(seen[0].reply))
        }),
{
    broadcast use {crate::conversation::group_play, crate::conversation::group_exchanges};

}

/// The script for the rows, once the worktrees are listed.
spec fn rows_after_list(config: ConfigView, entries: Seq<EntryView>) -> Script<Seq<RowView>> {
    if config.worktrees.len() == 0 {
        git::discovered_script(config, entries)
    } else {
        git::configured_script(config, entries)
    }
}

/// A snapshot that was taken, part by part.
spec fn in_parts(
    config: ConfigView,
    snapshot: SnapshotView,
    seen: Seq<Exchange>,
    head: Seq<Exchange>,
    at: Record,
) -> bool {
    let entries = git::listed_entries(course::wrote(head[2].reply));
    let script = rows_after_list(config, entries);
    &&& head.len() == 3
    &&& tells_of_repo(config, snapshot, head)
    &&& conversation::play(script, at).1 == Ok::<Seq<RowView>, RequestView>(snapshot.worktrees)
    &&& seen == head + conversation::exchanges(script, at)
}

proof fn lemma_snapshot_in_parts(config: ConfigView, record: Record)
    ensures
        ({
            let script = git::snapshot_script(config);
            let seen = conversation::exchanges(script, record);
            conversation::play(script, record).1 matches Ok(snapshot) ==> exists|
                head: Seq<Exchange>,
                at: Record,
            |
                #[trigger] in_parts(config, snapshot, seen, head, at)
        }),
{
    reveal(git::snapshot_script);
    let script = git::snapshot_script(config);
    let seen = conversation::exchanges(script, record);
    if let (last, Ok(snapshot)) = conversation::play(script, record) {
        let repo = git::repo_script(config.repo_path);
        let list = git::entries_script(config.repo_path);
        lemma_repo_is_told(config, record);
        let (after, repo_told) = conversation::play(repo, record);
        lemma_list_is_told(config, after);
        let (at, entries) = conversation::play(list, after);
        let head = conversation::exchanges(repo, record) + conversation::exchanges(list, after);
        let rows = rows_after_list(config, entries->Ok_0);
        assert(conversation::play(git::rows_script(config), after) == conversation::play(rows, at));
        assert(seen =~= head + conversation::exchanges(rows, at));
        assert(in_parts(config, snapshot, seen, head, at));
    }
}

proof fn lemma_sorted_told(config: ConfigView, rows: Seq<RowView>, seen: Seq<Exchange>)
    requires
        all_told(config, rows, seen),
    ensures
        all_told(config, order::sorted(rows), seen),
    decreases rows.len(),
{
    if rows.len() > 0 {
        let before = order::sorted(rows.drop_last());
        lemma_sorted_told(config, rows.drop_last(), seen);
        order::lemma_slot(before, rows.last(), before.len() as int);
        assert(told_somewhere(config, rows[rows.len() - 1], seen));
    }
}

/// A snapshot tells what was seen: of the repository its branch and its changed
/// files, and of every worktree what was asked about it and found out. So a row is
/// missing exactly where no checkout was found or its branch is not known, and ready
/// exactly where the checkout is on the branch and clean, and the branch ahead.
pub proof fn snapshots_tell_what_was_seen(config: ConfigView, record: Record)
    ensures
        ({
            let script = git::snapshot_script(config);
            let seen = conversation::exchanges(script, record);
            conversation::play(script, record).1 matches Ok(snapshot) ==> {
                &&& tells_of_repo(config, snapshot, seen)
                &&& all_told(config, snapshot.worktrees, seen)
            }
        }),
{
    let script = git::snapshot_script(config);
    let seen = conversation::exchanges(script, record);
    if let (last, Ok(snapshot)) = conversation::play(script, record) {
        lemma_snapshot_in_parts(config, record);
        let (head, at) = choose|head: Seq<Exchange>, at: Record| #[trigger]
            in_parts(config, snapshot, seen, head, at);
        let entries = git::listed_entries(course::wrote(head[2].reply));
        assert(seen[0] == head[0] && seen[1] == head[1] && seen[2] == head[2]);
        let rest = conversation::exchanges(rows_after_list(config, entries), at);
        if config.worktrees.len() == 0 {
            listed_rows(config, record);
            let shown = entries.filter(to_be_shown(config.base_branch));
            let rows = choose|rows: Seq<RowView>| #[trigger]
                rows_of_entries(rows, shown) && snapshot.worktrees == order::sorted(rows)
                    && all_told(config, rows, seen);
            lemma_sorted_told(config, rows, seen);
        } else {
            lemma_configured(config, entries, at);
            lemma_all_told_within(config, snapshot.worktrees, head, rest, seq![]);
            assert(head + rest + seq![] =~= seen);
        }
    }
}

proof fn listed_rows(config: ConfigView, record: Record)
    requires
        config.worktrees.len() == 0,
    ensures
        ({
            let script = git::snapshot_script(config);
            let seen = conversation::exchanges(script, record);
            let shown = git::listed_entries(course::wrote(seen[2].reply)).filter(
                to_be_shown(config.base_branch),
            );
            conversation::play(script, record).1 matches Ok(snapshot) ==> exists|
                rows: Seq<RowView>,
            |
                #[trigger] rows_of_entries(rows, shown) && snapshot.worktrees == order::sorted(
                    rows,
                ) && all_told(config, rows, seen) && told_in_order(config, rows, seen.skip(3))
        }),
{
    let script = git::snapshot_script(config);
    let seen = conversation::exchanges(script, record);
    if let (last, Ok(snapshot)) = conversation::play(script, record) {
        lemma_snapshot_in_parts(config, record);
        let (head, at) = choose|head: Seq<Exchange>, at: Record| #[trigger]
            in_parts(config, snapshot, seen, head, at);
        let entries = git::listed_entries(course::wrote(head[2].reply));
        assert(seen[2] == head[2]);
        let rest = conversation::exchanges(git::discovered_script(config, entries), at);
        let none = Seq::<RowView>::empty();
        lemma_shown_are_told(config, entries, 0, none, at);
        assert(entries.skip(0) =~= entries);
        let rows = choose|rows: Seq<RowView>| #[trigger]
            found_of(config, entries, none, rest, snapshot.worktrees, rows);
        assert(none + rows =~= rows);
        lemma_all_told_within(config, rows, head, rest, seq![]);
        assert(head + rest + seq![] =~= seen);
        assert(seen.skip(3) =~= rest);
    }
}

proof fn lemma_configured(config: ConfigView, entries: Seq<EntryView>, record: Record)
    requires
        config.worktrees.len() > 0,
    ensures
        ({
            let script = git::configured_script(config, entries);
            let seen = conversation::exchanges(script, record);
            conversation::play(script, record).1 matches Ok(rows) ==> {
                &&& all_told(config, rows, seen)
                &&& exists|forms: Seq<Seq<char>>| #[trigger]
                    names_with_forms(config, entries, forms, rows, seen, 0)
            }
        }),
{
    let script = git::configured_script(config, entries);
    let seen = conversation::exchanges(script, record);
    if let (last, Ok(rows)) = conversation::play(script, record) {
        let form = git::forms_script(entries, seq![]);
        lemma_forms_are_told(entries, seq![], record);
        let (at, forms) = conversation::play(form, record);
        let forms = forms->Ok_0;
        let first = conversation::exchanges(form, record);
        let none = Seq::<RowView>::empty();
        lemma_named_are_told(config, entries, forms, none, at);
        let rest = conversation::exchanges(
            git::named_script(config, entries, forms, none),
            at,
        );
        assert(seen == first + rest);
        assert(rows.skip(0) =~= rows);
        lemma_all_told_within(config, rows, first, rest, seq![]);
        assert(first + rest + seq![] =~= seen);
        lemma_names_within(config, entries, forms, 0, rows, first, rest);
        assert(seen.subrange(0, entries.len() as int) =~= first);
        assert(seen.skip(entries.len() as int) =~= rest);
        assert(names_with_forms(config, entries, forms, rows, seen, 0));
    }
}

/// From exchange `k` on, the canonical forms of the listed worktrees are found out; and
/// with these, the rows are those of the named worktrees.
pub open spec fn names_with_forms(
    config: ConfigView,
    entries: Seq<EntryView>,
    forms: Seq<Seq<char>>,
    rows: Seq<RowView>,
    seen: Seq<Exchange>,
    k: int,
) -> bool {
    &&& 0 <= k <= k + entries.len() <= seen.len()
    &&& are_forms(entries, 0, seen.subrange(k, k + entries.len()), forms)
    &&& rows_of_names(config, entries, forms, 0, rows, seen)
    &&& named_in_order(config, entries, forms, 0, rows, seen.skip(k + entries.len()))
}

/// Where the settings name worktrees, a snapshot has one row for each, in the order in
/// which they are named, and each stands where it is listed, or else where it is said
/// to stand. Nothing else is asked.
pub proof fn named_worktrees_stand_in_their_places(config: ConfigView, record: Record)
    requires
        config.worktrees.len() > 0,
    ensures
        ({
            let script = git::snapshot_script(config);
            let seen = conversation::exchanges(script, record);
            let entries = git::listed_entries(course::wrote(seen[2].reply));
            conversation::play(script, record).1 matches Ok(snapshot) ==> exists|
                forms: Seq<Seq<char>>,
            |
                #[trigger] names_with_forms(config, entries, forms, snapshot.worktrees, seen, 3)
        }),
{
    let script = git::snapshot_script(config);
    let seen = conversation::exchanges(script, record);
    if let (last, Ok(snapshot)) = conversation::play(script, record) {
        lemma_snapshot_in_parts(config, record);
        let (head, at) = choose|head: Seq<Exchange>, at: Record| #[trigger]
            in_parts(config, snapshot, seen, head, at);
        let entries = git::listed_entries(course::wrote(head[2].reply));
        let rows = snapshot.worktrees;
        assert(seen[2] == head[2]);
        lemma_configured(config, entries, at);
        let rest = conversation::exchanges(git::configured_script(config, entries), at);
        let forms = choose|forms: Seq<Seq<char>>| #[trigger]
            names_with_forms(config, entries, forms, rows, rest, 0);
        lemma_names_within(config, entries, forms, 0, rows, head, rest);
        let n = entries.len() as int;
        assert(seen.subrange(3, 3 + n) =~= rest.subrange(0, n));
        assert(seen.skip(3 + n) =~= rest.skip(n));
        assert(names_with_forms(config, entries, forms, rows, seen, 3));
    }
}

/// Where the settings name no worktrees, the rows of a snapshot are those of the listed
/// worktrees that are on a branch, but for the base branch: one for each, none twice
/// and none left out, sorted. They are asked about one after the other, in the order of
/// the list, and nothing else is asked.
pub proof fn listed_worktrees_are_shown(config: ConfigView, record: Record)
    requires
        config.worktrees.len() == 0,
    ensures
        ({
            let script = git::snapshot_script(config);
            let seen = conversation::exchanges(script, record);
            let shown = git::listed_entries(course::wrote(seen[2].reply)).filter(
                to_be_shown(config.base_branch),
            );
            conversation::play(script, record).1 matches Ok(snapshot) ==> exists|
                rows: Seq<RowView>,
            |
                #[trigger] rows_of_entries(rows, shown) && snapshot.worktrees == order::sorted(
                    rows,
                ) && snapshot.worktrees.to_multiset() == rows.to_multiset() && told_in_order(
                    config,
                    rows,
                    seen.skip(3),
                )
        }),
{
    let script = git::snapshot_script(config);
    let seen = conversation::exchanges(script, record);
    listed_rows(config, record);
    if let (last, Ok(snapshot)) = conversation::play(script, record) {
        let shown = git::listed_entries(course::wrote(seen[2].reply)).filter(
            to_be_shown(config.base_branch),
        );
        let rows = choose|rows: Seq<RowView>| #[trigger]
            rows_of_entries(rows, shown) && snapshot.worktrees == order::sorted(rows) && all_told(
                config,
                rows,
                seen,
            ) && told_in_order(config, rows, seen.skip(3));
        order::sorting_keeps_every_row(rows);
        assert(rows_of_entries(rows, shown));
    }
}

}
