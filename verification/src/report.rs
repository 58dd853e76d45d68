//! A snapshot as lines of plain text.
use vstd::prelude::*;

use crate::model;
use crate::model::{RowView, Snapshot, SnapshotView, WorktreeRow};
use crate::number;
use crate::number::signed_text;
use crate::text;
use crate::text::pad;

verus! {

/// How far a worktree is ahead of the base branch and behind it.
pub open spec fn distance(row: RowView) -> Seq<char> {
    "+"@ + number::decimal(row.ahead as int) + "/-"@ + number::decimal(row.behind as int)
}

/// A worktree on one line.
pub open spec fn row_text(row: RowView) -> Seq<char> {
    text::padded(row.label, 18) + " "@ + text::padded(row.branch, 24) + " "@ + model::state_name(
        row.state,
    ) + " "@ + distance(row) + "  "@ + row.subject
}

/// A snapshot, line by line: its summary, and then its worktrees.
pub open spec fn report_lines(snapshot: SnapshotView) -> Seq<Seq<char>> {
    seq![model::summary_text(snapshot)] + snapshot.worktrees.map_values(
        |row: RowView| row_text(row),
    )
}

/// Says how far a worktree is ahead and behind.
pub fn distance_text(row: &WorktreeRow) -> (text: String)
    ensures
        text@ == distance(row.deep_view()),
{
    "+".to_owned().concat(signed_text(row.ahead).as_str()).concat("/-").concat(
        signed_text(row.behind).as_str(),
    )
}

/// Writes a worktree on one line.
pub fn row_line(row: &WorktreeRow) -> (line: String)
    ensures
        line@ == row_text(row.deep_view()),
{
    pad(row.label.as_str(), 18).concat(" ").concat(pad(row.branch.as_str(), 24).as_str()).concat(
        " ",
    ).concat(row.state.as_str()).concat(" ").concat(distance_text(row).as_str()).concat(
        "  ",
    ).concat(row.subject.as_str())
}

/// Writes a snapshot line by line.
pub fn report(snapshot: &Snapshot) -> (lines: Vec<String>)
    ensures
        lines.deep_view() == report_lines(snapshot.deep_view()),
{
    let mut lines: Vec<String> = Vec::new();
    lines.push(snapshot.summary());
    let mut i: usize = 0;
    while i < snapshot.worktrees.len()
        invariant
            i <= snapshot.worktrees.len(),
            lines.len() == i + 1,
            lines[0]@ == model::summary_text(snapshot.deep_view()),
            forall|j: int|
                0 <= j < i ==> (#[trigger] lines[j + 1])@ == row_text(
                    snapshot.worktrees[j].deep_view(),
                ),
        decreases snapshot.worktrees.len() - i,
    {
        lines.push(row_line(&snapshot.worktrees[i]));
        i = i + 1;
    }
    proof {
        let want = report_lines(snapshot.deep_view());
        assert forall|j: int| 0 <= j < lines.len() implies lines.deep_view()[j] == want[j] by {
            if j > 0 {
                assert(lines[(j - 1) + 1]@ == row_text(snapshot.worktrees[j - 1].deep_view()));
            }
        }
        assert(lines.deep_view() =~= want);
    }
    lines
}

}
