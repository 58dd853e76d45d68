//! The order in which worktrees are shown.
use vstd::prelude::*;

use crate::model::{RowView, WorktreeRow};
use crate::text;
use crate::text::{contains, no_later, same_text};

verus! {

/// The place of a label among all labels: the four agents come first, what is
/// for annotation comes last.
pub open spec fn rank(label: Seq<char>) -> int {
    if label == "agent-A"@ {
        0
    } else if label == "agent-B"@ {
        1
    } else if label == "agent-C"@ {
        2
    } else if label == "agent-D"@ {
        3
    } else if text::holds(label, "annotation"@) {
        99
    } else {
        10
    }
}

/// Whether a label may stand before another: by rank, and then by its text.
pub open spec fn label_le(left: Seq<char>, right: Seq<char>) -> bool {
    rank(left) < rank(right) || rank(left) == rank(right) && text::text_le(left, right)
}

/// Where a row goes among the first `upto` of `rows`: behind the last one that
/// may stand before it.
pub open spec fn slot(rows: Seq<RowView>, row: RowView, upto: int) -> int
    decreases upto,
{
    if 0 < upto <= rows.len() && !label_le(rows[upto - 1].label, row.label) {
        slot(rows, row, upto - 1)
    } else {
        upto
    }
}

/// The rows sorted by label. Rows with equal labels keep their order.
pub open spec fn sorted(rows: Seq<RowView>) -> Seq<RowView>
    decreases rows.len(),
{
    if rows.len() == 0 {
        seq![]
    } else {
        let before = sorted(rows.drop_last());
        before.insert(slot(before, rows.last(), before.len() as int), rows.last())
    }
}

/// What a label is sorted by: its rank, and then its text.
pub fn worktree_sort_key(label: &str) -> (key: (i32, String))
    ensures
        key.0 == rank(label@),
        key.1@ == label@,
{
    let place: i32 = if same_text(label, "agent-A") {
        0
    } else if same_text(label, "agent-B") {
        1
    } else if same_text(label, "agent-C") {
        2
    } else if same_text(label, "agent-D") {
        3
    } else if contains(label, "annotation") {
        99
    } else {
        10
    };
    (place, label.to_owned())
}

fn may_precede(left: &str, right: &str) -> (yes: bool)
    ensures
        yes == label_le(left@, right@),
{
    let first = worktree_sort_key(left);
    let second = worktree_sort_key(right);
    first.0 < second.0 || (first.0 == second.0 && no_later(first.1.as_str(), second.1.as_str()))
}

pub(crate) proof fn lemma_slot(rows: Seq<RowView>, row: RowView, upto: int)
    requires
        0 <= upto <= rows.len(),
    ensures
        0 <= slot(rows, row, upto) <= upto,
        forall|i: int|
            slot(rows, row, upto) <= i < upto ==> !label_le((#[trigger] rows[i]).label, row.label),
        slot(rows, row, upto) > 0 ==> label_le(
            rows[slot(rows, row, upto) - 1].label,
            row.label,
        ),
    decreases upto,
{
    if 0 < upto && !label_le(rows[upto - 1].label, row.label) {
        lemma_slot(rows, row, upto - 1);
    }
}

/// Sorts rows by label.
pub fn sort_rows(rows: Vec<WorktreeRow>) -> (ordered: Vec<WorktreeRow>)
    ensures
        ordered.deep_view() == sorted(rows.deep_view()),
{
    let ghost all = rows.deep_view();
    let mut left = rows;
    let mut ordered: Vec<WorktreeRow> = Vec::new();
    let ghost mut taken: int = 0;
    assert(ordered.deep_view() =~= sorted(all.take(0)));
    assert(left.deep_view() =~= all.skip(0));
    while left.len() > 0
        invariant
            0 <= taken <= all.len(),
            left.deep_view() == all.skip(taken),
            ordered.deep_view() == sorted(all.take(taken)),
        decreases left.len(),
    {
        let ghost rest = left.deep_view();
        let row = left.remove(0);
        assert(left.deep_view() =~= rest.skip(1));
        assert(row.deep_view() == rest[0]);
        let ghost before = ordered.deep_view();
        let mut at: usize = ordered.len();
        while at > 0 && !may_precede(ordered[at - 1].label.as_str(), row.label.as_str())
            invariant
                at <= ordered.len(),
                before == ordered.deep_view(),
                slot(before, row.deep_view(), at as int) == slot(
                    before,
                    row.deep_view(),
                    before.len() as int,
                ),
            decreases at,
        {
            at = at - 1;
        }
        proof {
            lemma_slot(before, row.deep_view(), before.len() as int);
            assert(all.take(taken + 1).drop_last() =~= all.take(taken));
            assert(all.take(taken + 1).last() == row.deep_view());
            assert(left.deep_view() =~= all.skip(taken + 1));
        }
        ordered.insert(at, row);
        assert(ordered.deep_view() =~= before.insert(at as int, row.deep_view()));
        proof {
            taken = taken + 1;
        }
    }
    assert(all.take(taken) =~= all);
    ordered
}

/// Labels are ordered: of two labels one may stand before the other, and what may
/// stand before a label may stand before what that one may stand before.
pub proof fn labels_are_ordered(first: Seq<char>, second: Seq<char>, third: Seq<char>)
    ensures
        label_le(first, first),
        label_le(first, second) || label_le(second, first),
        label_le(first, second) && label_le(second, first) ==> first == second,
        label_le(first, second) && label_le(second, third) ==> label_le(first, third),
{
    text::texts_are_ordered(first, second, third);
}

/// Rows that are sorted are in order.
pub proof fn sorted_rows_are_in_order(rows: Seq<RowView>)
    ensures
        forall|i: int, j: int|
            0 <= i < j < sorted(rows).len() ==> label_le(
                (#[trigger] sorted(rows)[i]).label,
                (#[trigger] sorted(rows)[j]).label,
            ),
    decreases rows.len(),
{
    if rows.len() > 0 {
        let before = sorted(rows.drop_last());
        let row = rows.last();
        let at = slot(before, row, before.len() as int);
        let after = sorted(rows);
        sorted_rows_are_in_order(rows.drop_last());
        lemma_slot(before, row, before.len() as int);
        assert(after == before.insert(at, row));
        assert forall|i: int, j: int| 0 <= i < j < after.len() implies label_le(
            (#[trigger] after[i]).label,
            (#[trigger] after[j]).label,
        ) by {
            if j == at {
                assert(after[i] == before[i]);
                labels_are_ordered(before[i].label, before[at - 1].label, row.label);
            } else if i == at {
                assert(after[j] == before[j - 1]);
                labels_are_ordered(row.label, before[j - 1].label, row.label);
            } else {
                let from = if i < at {
                    i
                } else {
                    i - 1
                };
                let to = if j < at {
                    j
                } else {
                    j - 1
                };
                assert(after[i] == before[from] && after[j] == before[to]);
            }
        }
    }
}

/// Sorting loses no row and adds none.
pub proof fn sorting_keeps_every_row(rows: Seq<RowView>)
    ensures
        sorted(rows).to_multiset() == rows.to_multiset(),
    decreases rows.len(),
{
    broadcast use vstd::seq_lib::group_to_multiset_ensures;

    if rows.len() > 0 {
        let before = sorted(rows.drop_last());
        let row = rows.last();
        let at = slot(before, row, before.len() as int);
        sorting_keeps_every_row(rows.drop_last());
        lemma_slot(before, row, before.len() as int);
        assert(rows =~= rows.drop_last().push(row));
        let after = before.insert(at, row);
        assert(after.remove(at) =~= before);
        assert(after[at] == row);
        assert(after.contains(row));
        assert(before.to_multiset() =~= after.to_multiset().remove(row));
        assert(after.to_multiset() =~= before.to_multiset().insert(row));
    } else {
        assert(sorted(rows) =~= rows);
    }
}

/// Sorting keeps rows with the same label in the order that they had.
pub proof fn sorting_keeps_equal_labels_in_order(rows: Seq<RowView>, label: Seq<char>)
    ensures
        sorted(rows).filter(|row: RowView| row.label == label) == rows.filter(
            |row: RowView| row.label == label,
        ),
    decreases rows.len(),
{
    let same = |row: RowView| row.label == label;
    reveal(Seq::filter);
    if rows.len() > 0 {
        let before = sorted(rows.drop_last());
        let row = rows.last();
        let at = slot(before, row, before.len() as int);
        sorting_keeps_equal_labels_in_order(rows.drop_last(), label);
        lemma_slot(before, row, before.len() as int);
        let head = before.take(at);
        let tail = before.skip(at);
        assert(before =~= head + tail);
        assert(before.insert(at, row) =~= head.push(row) + tail);
        Seq::filter_distributes_over_add(head, tail, same);
        Seq::filter_distributes_over_add(head.push(row), tail, same);
        assert(head.push(row).drop_last() =~= head);
        if row.label == label {
            assert forall|i: int| 0 <= i < tail.len() implies !same(#[trigger] tail[i]) by {
                assert(tail[i] == before[at + i]);
                labels_are_ordered(label, label, label);
            }
            lemma_filter_none(tail, same);
            assert(sorted(rows).filter(same) =~= before.filter(same).push(row));
        } else {
            assert(sorted(rows).filter(same) =~= before.filter(same));
        }
    } else {
        assert(sorted(rows) =~= rows);
    }
}

proof fn lemma_filter_none(rows: Seq<RowView>, wanted: spec_fn(RowView) -> bool)
    requires
        forall|i: int| 0 <= i < rows.len() ==> !wanted(#[trigger] rows[i]),
    ensures
        rows.filter(wanted) == Seq::<RowView>::empty(),
    decreases rows.len(),
{
    reveal(Seq::filter);
    if rows.len() > 0 {
        assert(!wanted(rows[rows.len() - 1]));
        lemma_filter_none(rows.drop_last(), wanted);
    }
}

}
