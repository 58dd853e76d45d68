//! What is told of a repository and its worktrees, in words: in the settings, in the
//! summary, in the report and on the screen.
use vstd::prelude::*;

use crate::config;
use crate::config::{ConfigView, FileView, SpecView};
use crate::conversation;
use crate::conversation::{Record, ReplyView, RequestView};
use crate::course;
use crate::git;
use crate::git::EntryView;
use crate::model;
use crate::model::{RowView, SnapshotView, WorktreeState};
use crate::number;
use crate::order;
use crate::paths;
use crate::report;
use crate::screen;
use crate::screen::{Extent, Paint};
use crate::text;
use crate::ui;
use crate::ui::{AppView, OperationView};
use crate::util;

verus! {

/// A path of the settings: where it is not absolute, it starts at the repository.
pub open spec fn starts_at(repo: Seq<char>, path: Seq<char>, found: Seq<char>) -> bool {
    &&& paths::absolute_path(path) ==> found == path
    &&& !paths::absolute_path(path) ==> found == paths::joined_path(repo, path)
}

/// What a configuration file says has the last word; what it does not say stays as it
/// is without one. Its worktrees are taken over one for one, in order, with their paths
/// as the repository sees them.
pub proof fn files_have_the_last_word(repo: Seq<char>, base: Seq<char>, file: FileView)
    ensures
        config::settings(repo, base, None) == (ConfigView {
            repo_path: repo,
            base_branch: base,
            deploy_command: None,
            worktrees: seq![],
        }),
        ({
            let found = config::settings(repo, base, Some(file));
            &&& found.repo_path == repo
            &&& file.base_branch is None ==> found.base_branch == base
            &&& file.base_branch matches Some(branch) ==> found.base_branch == branch
            &&& file.deploy_command is None ==> found.deploy_command is None
            &&& file.deploy_command matches Some(command) ==> found.deploy_command == Some(
                text::words(command),
            )
            &&& file.worktree is None ==> found.worktrees.len() == 0
            &&& file.worktree matches Some(rows) ==> {
                &&& found.worktrees.len() == rows.len()
                &&& forall|i: int|
                    0 <= i < rows.len() ==> {
                        &&& (#[trigger] found.worktrees[i]).label == rows[i].label
                        &&& found.worktrees[i].branch == rows[i].branch
                        &&& rows[i].path is None <==> found.worktrees[i].path is None
                        &&& rows[i].path matches Some(path) ==> starts_at(
                            repo,
                            path,
                            found.worktrees[i].path->Some_0,
                        )
                    }
            }
        }),
{
}

/// A path is seen from the repository.
pub proof fn paths_start_at_the_repository(repo: Seq<char>, path: Seq<char>)
    ensures
        starts_at(repo, path, config::seen_from(repo, path)),
{
}

/// The configuration file is the one that is given, unasked; or else the one in the
/// repository, where it is there.
pub proof fn given_files_are_taken(given: Option<Seq<char>>, repo: Seq<char>, record: Record)
    ensures
        ({
            let script = config::config_file_script(given, repo);
            let asked = conversation::requests(script, record);
            let outcome = conversation::play(script, record).1;
            let own = paths::joined_path(repo, "sp.toml"@);
            &&& given is Some ==> asked.len() == 0 && outcome == Ok::<
                Option<Seq<char>>,
                RequestView,
            >(given)
            &&& given is None ==> asked == seq![RequestView::Exists { path: own }]
            &&& given is None && course::answered(record, 0) ==> outcome == Ok::<
                Option<Seq<char>>,
                RequestView,
            >(
                if course::reply(record, 0) == ReplyView::Exists(true) {
                    Some(own)
                } else {
                    None
                },
            )
        }),
{
    broadcast use {crate::conversation::group_play, crate::conversation::group_requests};

}

/// The four agents come first, in order, what is for annotation comes last, and all
/// others come between.
pub proof fn labels_have_their_ranks(label: Seq<char>)
    ensures
        label == "agent-A"@ ==> order::rank(label) == 0,
        label == "agent-B"@ ==> order::rank(label) == 1,
        label == "agent-C"@ ==> order::rank(label) == 2,
        label == "agent-D"@ ==> order::rank(label) == 3,
        label != "agent-A"@ && label != "agent-B"@ && label != "agent-C"@ && label != "agent-D"@
            ==> order::rank(label) == if text::holds(label, "annotation"@) {
            99int
        } else {
            10
        },
{
    reveal_strlit("agent-A");
    reveal_strlit("agent-B");
    reveal_strlit("agent-C");
    reveal_strlit("agent-D");
    assert("agent-A"@[6] == 'A' && "agent-B"@[6] == 'B');
    assert("agent-C"@[6] == 'C' && "agent-D"@[6] == 'D');
}

/// Of two rows that are sorted, the one with the lower rank comes first, and of two with
/// the same rank the one whose label comes first as a text.
pub proof fn ranks_decide_the_order(rows: Seq<RowView>, i: int, j: int)
    requires
        0 <= i < j < order::sorted(rows).len(),
    ensures
        ({
            let first = order::sorted(rows)[i].label;
            let second = order::sorted(rows)[j].label;
            &&& order::rank(first) <= order::rank(second)
            &&& order::rank(first) == order::rank(second) ==> text::text_le(first, second)
        }),
{
    order::sorted_rows_are_in_order(rows);
}

/// Every state has its name.
pub proof fn states_have_their_names(state: WorktreeState)
    ensures
        model::state_name(state) == course::state_words(state),
{
}

/// How many rows are in a state.
pub open spec fn rows_in(rows: Seq<RowView>, state: WorktreeState) -> nat {
    rows.filter(|row: RowView| row.state == state).len()
}

/// A number of branches and how they are; nothing where there are none.
pub open spec fn branches(count: nat, how: Seq<char>) -> Seq<Seq<char>> {
    if count == 0 {
        seq![]
    } else if count == 1 {
        seq!["1 branch "@ + how]
    } else {
        seq![number::decimal(count as int) + " branches "@ + how]
    }
}

/// What there is to tell of a snapshot: how many branches are ready, dirty, blocked and
/// behind, and whether the base checkout is dirty.
pub open spec fn things_to_tell(snapshot: SnapshotView) -> Seq<Seq<char>> {
    let rows = snapshot.worktrees;
    let blocked = rows_in(rows, WorktreeState::Missing) + rows_in(
        rows,
        WorktreeState::WrongBranch,
    );
    branches(rows_in(rows, WorktreeState::Ready), "ready"@) + branches(
        rows_in(rows, WorktreeState::Dirty),
        "dirty"@,
    ) + branches(blocked, "blocked"@) + branches(
        rows_in(rows, WorktreeState::Behind),
        "behind"@,
    ) + if snapshot.repo.dirty {
        seq!["base dirty"@]
    } else {
        seq![]
    }
}

proof fn lemma_branches(count: nat, how: Seq<char>, one: Seq<char>, many: Seq<char>)
    requires
        one == "branch "@ + how,
        many == "branches "@ + how,
    ensures
        model::counted_part(count, one, many) == branches(count, how),
{
    reveal_strlit(" ");
    reveal_strlit("1 branch ");
    reveal_strlit("branch ");
    reveal_strlit(" branches ");
    reveal_strlit("branches ");
    if count == 1 {
        assert(number::digits(1) =~= seq!['1']);
        assert(number::digits(1) + " "@ + one =~= "1 branch "@ + how);
    } else if count > 1 {
        assert(number::digits(count) + " "@ + many =~= number::decimal(count as int)
            + " branches "@ + how);
    }
    assert(model::counted_part(count, one, many) =~= branches(count, how));
}

proof fn lemma_things(snapshot: SnapshotView)
    ensures
        model::summary_parts(snapshot) == things_to_tell(snapshot),
{
    let rows = snapshot.worktrees;
    reveal_strlit("branch ");
    reveal_strlit("branches ");
    reveal_strlit("ready");
    reveal_strlit("dirty");
    reveal_strlit("blocked");
    reveal_strlit("behind");
    reveal_strlit("branch ready");
    reveal_strlit("branches ready");
    reveal_strlit("branch dirty");
    reveal_strlit("branches dirty");
    reveal_strlit("branch blocked");
    reveal_strlit("branches blocked");
    reveal_strlit("branch behind");
    reveal_strlit("branches behind");
    assert("branch ready"@ =~= "branch "@ + "ready"@);
    assert("branches ready"@ =~= "branches "@ + "ready"@);
    assert("branch dirty"@ =~= "branch "@ + "dirty"@);
    assert("branches dirty"@ =~= "branches "@ + "dirty"@);
    assert("branch blocked"@ =~= "branch "@ + "blocked"@);
    assert("branches blocked"@ =~= "branches "@ + "blocked"@);
    assert("branch behind"@ =~= "branch "@ + "behind"@);
    assert("branches behind"@ =~= "branches "@ + "behind"@);
    lemma_branches(
        rows_in(rows, WorktreeState::Ready),
        "ready"@,
        "branch ready"@,
        "branches ready"@,
    );
    lemma_branches(
        rows_in(rows, WorktreeState::Dirty),
        "dirty"@,
        "branch dirty"@,
        "branches dirty"@,
    );
    lemma_branches(
        rows_in(rows, WorktreeState::Missing) + rows_in(rows, WorktreeState::WrongBranch),
        "blocked"@,
        "branch blocked"@,
        "branches blocked"@,
    );
    lemma_branches(
        rows_in(rows, WorktreeState::Behind),
        "behind"@,
        "branch behind"@,
        "branches behind"@,
    );
}

/// The summary tells all that there is to tell, and that there is nothing to do exactly
/// where there is nothing to tell. It starts with the good word only where a branch is
/// ready and the base checkout is clean.
pub proof fn summaries_tell_what_there_is(snapshot: SnapshotView)
    ensures
        ({
            let told = things_to_tell(snapshot);
            let rows = snapshot.worktrees;
            let good = rows_in(rows, WorktreeState::Ready) > 0 && !snapshot.repo.dirty;
            let line = model::summary_text(snapshot);
            &&& told.len() == 0 ==> line == "Idle - healthy, nothing to do"@
            &&& told.len() > 0 && good ==> line == "Ready - "@ + text::joined(told, ", "@)
            &&& told.len() > 0 && !good ==> line == "Blocked - "@ + text::joined(told, ", "@)
        }),
{
    lemma_things(snapshot);
}

/// A report has the summary on its first line, and then each worktree on a line of its
/// own, in order: its label and its branch in columns, its state, how far it is ahead
/// and behind, and its last commit.
pub proof fn reports_have_a_line_for_each(snapshot: SnapshotView)
    ensures
        ({
            let lines = report::report_lines(snapshot);
            let rows = snapshot.worktrees;
            &&& lines.len() == rows.len() + 1
            &&& lines[0] == model::summary_text(snapshot)
            &&& forall|i: int|
                0 <= i < rows.len() ==> report::row_text(#[trigger] rows[i]) == lines[i + 1]
        }),
{
}

/// The line of a worktree in a report.
pub proof fn report_lines_are_in_columns(row: RowView)
    ensures
        report::distance(row) == "+"@ + number::decimal(row.ahead as int) + "/-"@
            + number::decimal(row.behind as int),
        report::row_text(row) == text::padded(row.label, 18) + " "@ + text::padded(row.branch, 24)
            + " "@ + course::state_words(row.state) + " "@ + ("+"@ + number::decimal(
            row.ahead as int,
        ) + "/-"@ + number::decimal(row.behind as int)) + "  "@ + row.subject,
{
}

/// The cells of a worktree on the screen.
pub proof fn rows_have_six_cells(row: RowView)
    ensures
        ({
            let cells = screen::cells_of(row);
            &&& cells.len() == 6
            &&& cells[0] == row.label
            &&& cells[1] == row.branch
            &&& cells[2] == course::state_words(row.state)
            &&& cells[3] == "+"@ + number::decimal(row.ahead as int) + "/-"@ + number::decimal(
                row.behind as int,
            )
            &&& cells[4] == row.summary
            &&& cells[5] == util::compacted(row.subject, 96)
        }),
{
}

/// A colour on the terminal's own ground.
pub open spec fn coloured(paint: Paint, red: int, green: int, blue: int, bold: bool) -> bool {
    &&& paint.fg matches Some(colour) && colour.red == red && colour.green == green
        && colour.blue == blue
    &&& paint.bg is None
    &&& paint.bold == bold
}

/// Every mood has its colour, and what is no mood is muted.
pub proof fn moods_have_their_colours(mood: Seq<char>)
    ensures
        coloured(screen::mood_paint("ready"@), 34, 197, 94, true),
        coloured(screen::mood_paint("working"@), 34, 211, 238, true),
        coloured(screen::mood_paint("blocked"@), 251, 113, 133, true),
        coloured(screen::mood_paint("done"@), 74, 222, 128, true),
        mood != "ready"@ && mood != "working"@ && mood != "blocked"@ && mood != "done"@
            ==> coloured(screen::mood_paint(mood), 100, 116, 139, false),
{
    reveal_strlit("ready");
    reveal_strlit("working");
    reveal_strlit("blocked");
    reveal_strlit("done");
    assert("working"@[0] == 'w' && "blocked"@[0] == 'b');
    assert("ready"@.len() == 5 && "working"@.len() == 7 && "blocked"@.len() == 7);
    assert("done"@.len() == 4);
}

/// Every state has its colour.
pub proof fn states_have_their_colours(state: WorktreeState)
    ensures
        ({
            let paint = screen::row_paint(state);
            match state {
                WorktreeState::Ready => coloured(paint, 34, 197, 94, true),
                WorktreeState::Behind => coloured(paint, 232, 121, 249, false),
                WorktreeState::Merged => coloured(paint, 100, 116, 139, false),
                _ => coloured(paint, 250, 204, 21, false),
            }
        }),
{
    moods_have_their_colours("ready"@);
}

/// A text tells of something, in capitals or not.
pub open spec fn speaks_of(line: Seq<char>, word: Seq<char>) -> bool {
    text::holds(text::small_letters(line), word)
}

/// A line of recent activity is painted by what it speaks of: first by what went wrong,
/// then by what is done, and then by whether it is a command.
pub proof fn lines_are_painted_by_what_they_say(line: Seq<char>)
    ensures
        ({
            let wrong = speaks_of(line, "blocked"@) || speaks_of(line, "failed"@) || speaks_of(
                line,
                "conflict"@,
            );
            let right = speaks_of(line, "merged"@) || speaks_of(line, "rebased"@) || speaks_of(
                line,
                "completed"@,
            );
            let command = "$"@.is_prefix_of(line) || text::holds(line, ": $"@);
            let paint = screen::line_paint(line);
            &&& wrong ==> coloured(paint, 251, 113, 133, true)
            &&& !wrong && right ==> coloured(paint, 74, 222, 128, true)
            &&& !wrong && !right && command ==> coloured(paint, 100, 116, 139, false)
            &&& !wrong && !right && !command ==> coloured(paint, 226, 232, 240, false)
        }),
{
    moods_have_their_colours("blocked"@);
    crate::letters::prefixes_are_taken_off(line, "$"@, seq![]);
    if text::occurs(line, "$"@, 0) {
        assert("$"@ =~= line.take("$"@.len() as int));
    }
}

/// Every heading has its sign.
pub proof fn headings_have_their_signs(label: Seq<char>)
    ensures
        screen::sign_of("Working"@) == ">"@,
        screen::sign_of("Ready"@) == "+"@,
        screen::sign_of("Blocked"@) == "!"@,
        screen::sign_of("Done"@) == "*"@,
        label != "Working"@ && label != "Ready"@ && label != "Blocked"@ && label != "Done"@
            ==> screen::sign_of(label) == "-"@,
{
    reveal_strlit("Working");
    reveal_strlit("Ready");
    reveal_strlit("Blocked");
    reveal_strlit("Done");
    assert("Working"@[0] == 'W' && "Blocked"@[0] == 'B');
    assert("Ready"@.len() == 5 && "Working"@.len() == 7 && "Blocked"@.len() == 7);
    assert("Done"@.len() == 4);
}

proof fn lemma_idle_line()
    ensures
        screen::snapshot_line("Idle - healthy, nothing to do"@) == (
            "Idle"@,
            "muted"@,
            seq!["healthy"@, "nothing to do"@],
        ),
{
    reveal_strlit("Idle - healthy, nothing to do");
    reveal_strlit("Idle");
    reveal_strlit(" - ");
    reveal_strlit("healthy");
    reveal_strlit(", ");
    reveal_strlit("nothing to do");
    reveal_strlit("Ready");
    reveal_strlit("Blocked");
    let parts = seq!["healthy"@, "nothing to do"@];
    let rest = "healthy"@ + ", "@ + "nothing to do"@;
    assert("Idle - healthy, nothing to do"@ =~= "Idle"@ + " - "@ + rest);
    text::lemma_halves_of("Idle"@, " - "@, rest);
    assert(parts.drop_last() =~= seq!["healthy"@]);
    assert(text::joined(parts.drop_last(), ", "@) == "healthy"@);
    assert(text::joined(parts, ", "@) == rest);
    assert(text::lacks("healthy"@, ','));
    assert(text::lacks("nothing to do"@, ','));
    text::joined_parts_are_told_apart(parts, ", "@);
    assert("Idle"@.len() == 4 && "Ready"@.len() == 5 && "Blocked"@.len() == 7);
}

/// What the dashboard has to say first: that it is loading; else how the operation goes
/// or has ended; else the notice, and whether it tells of something that went wrong; and
/// else the summary of the snapshot.
pub proof fn headlines_say_what_matters_most(app: AppView)
    ensures
        ({
            let line = screen::headline(app);
            let shown = on_show(app);
            let wrong = speaks_of(app.notice, "blocked"@) || speaks_of(app.notice, "failed"@);
            let told = things_to_tell(app.snapshot);
            let good = rows_in(app.snapshot.worktrees, WorktreeState::Ready) > 0
                && !app.snapshot.repo.dirty;
            let quiet = !app.loading && shown is None;
            &&& app.loading ==> line == ("Working"@, "working"@, seq!["loading status"@])
            &&& !app.loading ==> (shown matches Some(operation) ==> {
                &&& !operation.done ==> line == (
                    "Working"@,
                    "working"@,
                    seq![operation.name + " running"@],
                )
                &&& operation.done && operation.ok == Some(false) ==> line == (
                    "Blocked"@,
                    "blocked"@,
                    seq![operation.result],
                )
                &&& operation.done && operation.ok != Some(false) ==> line == (
                    "Done"@,
                    "done"@,
                    seq![operation.result],
                )
            })
            &&& quiet && app.notice.len() > 0 && wrong ==> line == (
                "Blocked"@,
                "blocked"@,
                seq![app.notice],
            )
            &&& quiet && app.notice.len() > 0 && !wrong ==> line == (
                "Done"@,
                "done"@,
                seq![app.notice],
            )
            &&& quiet && app.notice.len() == 0 && told.len() == 0 ==> line == (
                "Idle"@,
                "muted"@,
                seq!["healthy"@, "nothing to do"@],
            )
            &&& quiet && app.notice.len() == 0 && told.len() > 0 && good ==> line == (
                "Ready"@,
                "ready"@,
                told,
            )
            &&& quiet && app.notice.len() == 0 && told.len() > 0 && !good ==> line == (
                "Blocked"@,
                "blocked"@,
                told,
            )
        }),
{
    lemma_things(app.snapshot);
    lemma_idle_line();
    if model::summary_parts(app.snapshot).len() > 0 {
        screen::summaries_are_told_apart(app.snapshot);
    }
}

/// The smaller of two numbers.
pub open spec fn smaller(left: nat, right: nat) -> nat {
    if left <= right {
        left
    } else {
        right
    }
}

/// Of the last lines, as many as the limit, the first that fit below those above them,
/// one at least.
pub open spec fn lines_with_room(all: Seq<Seq<char>>, above: nat, limit: nat) -> Seq<Seq<char>> {
    let last = smaller(all.len(), limit);
    let room = if limit > above {
        (limit - above) as nat
    } else {
        1
    };
    let from = all.len() - last;
    all.subrange(from, from + smaller(last, room))
}

/// The operation that is shown: the running one, or else the last one.
pub open spec fn on_show(app: AppView) -> Option<OperationView> {
    if app.operation is Some {
        app.operation
    } else {
        app.last_operation
    }
}

/// How many lines tell how an operation ended: one, if it has.
pub open spec fn head_lines(operation: OperationView) -> nat {
    if operation.result.len() > 0 {
        1
    } else {
        0
    }
}

/// The recent lines: how the operation ended comes first, if it has, and then as many of
/// its last lines as there is room for, one at least, from the first of them on. Each is
/// told with the name of the operation.
pub proof fn recent_lines_tell_of_the_operation(app: AppView, limit: nat)
    ensures
        ({
            let rows = screen::recent_text(app, limit);
            let nothing = seq!["No recent activity"@];
            match on_show(app) {
                None => rows == nothing,
                Some(operation) => {
                    let head = head_lines(operation);
                    let lines = lines_with_room(operation.lines, head, limit);
                    if head + lines.len() == 0 {
                        rows == nothing
                    } else {
                        &&& rows.len() == head + lines.len()
                        &&& head == 1 ==> rows[0] == operation.name + ": "@ + operation.result
                        &&& forall|i: int|
                            0 <= i < lines.len() ==> rows[head + i] == operation.name + ": "@ + (
                            #[trigger] lines[i])
                    }
                },
            }
        }),
{
    if let Some(operation) = on_show(app) {
        let head = head_lines(operation);
        let last = ui::last_lines(operation.lines, limit);
        let count = screen::shown_count(limit, head, last.len()) as int;
        let lines = lines_with_room(operation.lines, head, limit);
        assert(last.take(count) =~= lines);
    }
}

/// The lines that a panel of a height has room for.
pub open spec fn panel_room(height: u16) -> nat {
    if height >= 2 {
        (height - 2) as nat
    } else {
        0
    }
}

/// The panel of recent lines has room for two lines less than it is high, and each line
/// has its own paint.
pub proof fn panels_lose_two_lines(app: AppView, height: u16)
    ensures
        ({
            let panel = screen::recent_panel(app, height);
            let rows = screen::recent_text(app, panel_room(height));
            &&& panel.len() == rows.len()
            &&& forall|i: int|
                0 <= i < rows.len() ==> (#[trigger] panel[i]).text == rows[i] && panel[i].paint
                    == screen::line_paint(rows[i])
        }),
{
}

/// The line with the headline: its sign and heading in the colour of the mood, the heading
/// lit up while the light is on, and then its parts.
pub proof fn headlines_are_painted(app: AppView)
    ensures
        ({
            let (label, mood, parts) = screen::headline(app);
            let line = screen::next_line(app);
            &&& line.len() == 5
            &&& line[0].text == screen::sign_of(label)
            &&& line[0].paint == screen::mood_paint(mood)
            &&& line[1].text == " "@
            &&& line[1].paint == screen::unpainted()
            &&& line[2].text == label
            &&& label == "Working"@ && app.pulse_on ==> coloured(
                line[2].paint,
                125,
                249,
                255,
                true,
            )
            &&& label != "Working"@ || !app.pulse_on ==> line[2].paint == screen::mood_paint(mood)
            &&& line[3].text == " - "@
            &&& coloured(line[3].paint, 100, 116, 139, false)
            &&& line[4].text == text::joined(parts, ", "@)
            &&& coloured(line[4].paint, 226, 232, 240, false)
        }),
{
}

/// The title names the program, its motto and the base branch.
pub proof fn titles_name_the_base_branch(app: AppView)
    ensures
        ({
            let line = screen::title_line(app);
            &&& line.len() == 5
            &&& line[0].text == "sp"@
            &&& coloured(line[0].paint, 248, 250, 252, true)
            &&& line[1].text == "  "@
            &&& line[1].paint == screen::unpainted()
            &&& line[3].paint == screen::unpainted()
            &&& line[2].text == "ship small, merge clean"@
            &&& coloured(line[2].paint, 100, 116, 139, false)
            &&& line[3].text == "  "@
            &&& line[4].text == "base: "@ + app.config.base_branch
            &&& coloured(line[4].paint, 56, 189, 248, true)
        }),
{
}

/// A table that is less than a hundred columns wide has narrow cells, and a body that is
/// less than a hundred and twenty columns wide has its parts above each other.
pub proof fn narrow_screens_have_narrow_parts(width: u16)
    ensures
        width < 100 ==> screen::cell_extents(width) == seq![
            Extent::Length(16),
            Extent::Length(18),
            Extent::Length(12),
            Extent::Length(8),
            Extent::Length(12),
            Extent::Min(10),
        ],
        width >= 100 ==> screen::cell_extents(width) == seq![
            Extent::Length(18),
            Extent::Length(24),
            Extent::Length(13),
            Extent::Length(9),
            Extent::Length(16),
            Extent::Min(20),
        ],
        screen::body_plan(width).0 <==> width < 120,
        width < 120 ==> screen::body_plan(width).1 == seq![Extent::Min(7), Extent::Length(8)],
        width >= 120 ==> screen::body_plan(width).1 == seq![
            Extent::Percentage(68),
            Extent::Percentage(32),
        ],
{
}

/// Two listed worktrees are the same where their branches are, and their paths are equal
/// as paths.
pub proof fn entries_differ_in_path_or_branch(left: EntryView, right: EntryView)
    ensures
        git::same_entry(left, right) <==> paths::equal_paths(left.path, right.path) && left.branch
            == right.branch,
{
}

/// Two named worktrees are the same where nothing of them differs, and their paths, if
/// they have them, are equal as paths.
pub open spec fn named_alike(left: SpecView, right: SpecView) -> bool {
    &&& left.label == right.label
    &&& left.branch == right.branch
    &&& left.path is Some <==> right.path is Some
    &&& left.path is Some && right.path is Some ==> paths::equal_paths(
        left.path->Some_0,
        right.path->Some_0,
    )
}

/// Two settings are the same exactly where nothing of them differs.
pub proof fn settings_differ_in_what_they_say(left: ConfigView, right: ConfigView)
    ensures
        config::same_config(left, right) <==> {
            &&& paths::equal_paths(left.repo_path, right.repo_path)
            &&& left.base_branch == right.base_branch
            &&& left.deploy_command == right.deploy_command
            &&& left.worktrees.len() == right.worktrees.len()
            &&& forall|i: int|
                0 <= i < left.worktrees.len() ==> named_alike(
                    #[trigger] left.worktrees[i],
                    right.worktrees[i],
                )
        },
        forall|i: int|
            0 <= i < left.worktrees.len() && i < right.worktrees.len() ==> (config::same_spec(
                #[trigger] left.worktrees[i],
                right.worktrees[i],
            ) <==> named_alike(left.worktrees[i], right.worktrees[i])),
{
    assert(forall|i: int|
        0 <= i < left.worktrees.len() && i < right.worktrees.len() ==> (config::same_spec(
            #[trigger] left.worktrees[i],
            right.worktrees[i],
        ) <==> named_alike(left.worktrees[i], right.worktrees[i])));
}

/// Paint has the colour that it is mixed of, and no paint has none.
pub proof fn colours_are_what_they_are_mixed_of(red: u8, green: u8, blue: u8, bold: bool)
    ensures
        coloured(
            screen::ink(red, green, blue, bold),
            red as int,
            green as int,
            blue as int,
            bold,
        ),
        screen::unpainted().fg is None,
        screen::unpainted().bg is None,
        !screen::unpainted().bold,
{
}

}
