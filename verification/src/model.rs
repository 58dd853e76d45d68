//! What the cockpit knows of a repository at one moment.
use vstd::prelude::*;

use crate::number;
use crate::number::unsigned_text;
use crate::paths;
use crate::paths::same_path;
use crate::text;
use crate::text::{join, same_text};

verus! {

/// The base checkout.
#[derive(Clone, Debug, Eq)]
pub struct RepoStatus {
    pub path: String,
    pub branch: String,
    pub dirty: bool,
    pub summary: String,
}

/// One worktree beside the base checkout.
#[derive(Clone, Debug, Eq)]
pub struct WorktreeRow {
    pub label: String,
    pub branch: String,
    pub path: String,
    pub current_branch: String,
    pub state: WorktreeState,
    pub dirty: bool,
    pub summary: String,
    pub ahead: i64,
    pub behind: i64,
    pub subject: String,
}

/// What a worktree is good for.
#[derive(Clone, Copy, Debug, PartialEq, Eq, Structural)]
pub enum WorktreeState {
    Ready,
    Dirty,
    Behind,
    Merged,
    Missing,
    WrongBranch,
}

/// The base checkout and its worktrees.
#[derive(Clone, Debug, Eq)]
pub struct Snapshot {
    pub base_branch: String,
    pub repo: RepoStatus,
    pub worktrees: Vec<WorktreeRow>,
}

/// The base checkout, by the text that it holds.
pub struct RepoView {
    pub path: Seq<char>,
    pub branch: Seq<char>,
    pub dirty: bool,
    pub summary: Seq<char>,
}

/// A worktree, by the text that it holds.
pub struct RowView {
    pub label: Seq<char>,
    pub branch: Seq<char>,
    pub path: Seq<char>,
    pub current_branch: Seq<char>,
    pub state: WorktreeState,
    pub dirty: bool,
    pub summary: Seq<char>,
    pub ahead: i64,
    pub behind: i64,
    pub subject: Seq<char>,
}

/// A snapshot, by the text that it holds.
pub struct SnapshotView {
    pub base_branch: Seq<char>,
    pub repo: RepoView,
    pub worktrees: Seq<RowView>,
}

impl DeepView for RepoStatus {
    type V = RepoView;

    open spec fn deep_view(&self) -> RepoView {
        RepoView {
            path: self.path@,
            branch: self.branch@,
            dirty: self.dirty,
            summary: self.summary@,
        }
    }
}

impl DeepView for WorktreeRow {
    type V = RowView;

    open spec fn deep_view(&self) -> RowView {
        RowView {
            label: self.label@,
            branch: self.branch@,
            path: self.path@,
            current_branch: self.current_branch@,
            state: self.state,
            dirty: self.dirty,
            summary: self.summary@,
            ahead: self.ahead,
            behind: self.behind,
            subject: self.subject@,
        }
    }
}

impl DeepView for Snapshot {
    type V = SnapshotView;

    open spec fn deep_view(&self) -> SnapshotView {
        SnapshotView {
            base_branch: self.base_branch@,
            repo: self.repo.deep_view(),
            worktrees: self.worktrees.deep_view(),
        }
    }
}

/// Whether two states of the base checkout are the same. Their paths are compared
/// as paths, not as text.
pub open spec fn same_repo(left: RepoView, right: RepoView) -> bool {
    &&& paths::equal_paths(left.path, right.path)
    &&& left == RepoView { path: left.path, ..right }
}

/// Whether two rows are the same. Their paths are compared as paths, not as text.
pub open spec fn same_row(left: RowView, right: RowView) -> bool {
    &&& paths::equal_paths(left.path, right.path)
    &&& left == RowView { path: left.path, ..right }
}

/// Whether two snapshots are the same.
pub open spec fn same_snapshot(left: SnapshotView, right: SnapshotView) -> bool {
    &&& left.base_branch == right.base_branch
    &&& same_repo(left.repo, right.repo)
    &&& left.worktrees.len() == right.worktrees.len()
    &&& forall|i: int|
        0 <= i < left.worktrees.len() ==> same_row(#[trigger] left.worktrees[i], right.worktrees[i])
}

impl PartialEq for RepoStatus {
    fn eq(&self, other: &Self) -> (same: bool)
        ensures
            self.deep_view() == other.deep_view() ==> same,
    {
        same_path(self.path.as_str(), other.path.as_str()) && same_text(
            self.branch.as_str(),
            other.branch.as_str(),
        ) && self.dirty == other.dirty && same_text(self.summary.as_str(), other.summary.as_str())
    }
}

impl vstd::std_specs::cmp::PartialEqSpecImpl for RepoStatus {
    open spec fn obeys_eq_spec() -> bool {
        true
    }

    open spec fn eq_spec(&self, other: &Self) -> bool {
        same_repo(self.deep_view(), other.deep_view())
    }
}

impl PartialEq for WorktreeRow {
    fn eq(&self, other: &Self) -> (same: bool)
        ensures
            self.deep_view() == other.deep_view() ==> same,
    {
        same_text(self.label.as_str(), other.label.as_str()) && same_text(
            self.branch.as_str(),
            other.branch.as_str(),
        ) && same_path(self.path.as_str(), other.path.as_str()) && same_text(
            self.current_branch.as_str(),
            other.current_branch.as_str(),
        ) && self.state == other.state && self.dirty == other.dirty && same_text(
            self.summary.as_str(),
            other.summary.as_str(),
        ) && self.ahead == other.ahead && self.behind == other.behind && same_text(
            self.subject.as_str(),
            other.subject.as_str(),
        )
    }
}

impl vstd::std_specs::cmp::PartialEqSpecImpl for WorktreeRow {
    open spec fn obeys_eq_spec() -> bool {
        true
    }

    open spec fn eq_spec(&self, other: &Self) -> bool {
        same_row(self.deep_view(), other.deep_view())
    }
}

impl PartialEq for Snapshot {
    fn eq(&self, other: &Self) -> (same: bool)
        ensures
            self.deep_view() == other.deep_view() ==> same,
    {
        let ghost left = self.deep_view();
        let ghost right = other.deep_view();
        if !same_text(self.base_branch.as_str(), other.base_branch.as_str()) || self.repo
            != other.repo || self.worktrees.len() != other.worktrees.len() {
            return false;
        }
        let mut i: usize = 0;
        while i < self.worktrees.len()
            invariant
                left == self.deep_view(),
                right == other.deep_view(),
                i <= self.worktrees.len() == other.worktrees.len(),
                left.base_branch == right.base_branch,
                same_repo(left.repo, right.repo),
                forall|j: int|
                    0 <= j < i ==> same_row(#[trigger] left.worktrees[j], right.worktrees[j]),
            decreases self.worktrees.len() - i,
        {
            assert(left.worktrees[i as int] == self.worktrees[i as int].deep_view());
            assert(right.worktrees[i as int] == other.worktrees[i as int].deep_view());
            if self.worktrees[i] != other.worktrees[i] {
                return false;
            }
            i = i + 1;
        }
        true
    }
}

impl vstd::std_specs::cmp::PartialEqSpecImpl for Snapshot {
    open spec fn obeys_eq_spec() -> bool {
        true
    }

    open spec fn eq_spec(&self, other: &Self) -> bool {
        same_snapshot(self.deep_view(), other.deep_view())
    }
}

/// The name of a state.
pub open spec fn state_name(state: WorktreeState) -> Seq<char> {
    match state {
        WorktreeState::Ready => "ready"@,
        WorktreeState::Dirty => "dirty"@,
        WorktreeState::Behind => "behind"@,
        WorktreeState::Merged => "merged"@,
        WorktreeState::Missing => "missing"@,
        WorktreeState::WrongBranch => "wrong branch"@,
    }
}

/// How many worktrees are in a state.
pub open spec fn count_of(rows: Seq<RowView>, state: WorktreeState) -> nat {
    rows.filter(|row: RowView| row.state == state).len()
}

/// A number and what it counts.
pub open spec fn counted(count: nat, singular: Seq<char>, plural: Seq<char>) -> Seq<char> {
    number::digits(count) + " "@ + if count == 1 {
        singular
    } else {
        plural
    }
}

/// The part of a summary that tells a number, where there is one to tell.
pub open spec fn counted_part(count: nat, singular: Seq<char>, plural: Seq<char>) -> Seq<
    Seq<char>,
> {
    if count > 0 {
        seq![counted(count, singular, plural)]
    } else {
        seq![]
    }
}

/// The worktrees that nothing can be done with: missing, or on another branch.
pub open spec fn blocked_count(rows: Seq<RowView>) -> nat {
    count_of(rows, WorktreeState::Missing) + count_of(rows, WorktreeState::WrongBranch)
}

/// What a summary tells of a snapshot, part by part.
pub open spec fn summary_parts(snapshot: SnapshotView) -> Seq<Seq<char>> {
    let rows = snapshot.worktrees;
    counted_part(count_of(rows, WorktreeState::Ready), "branch ready"@, "branches ready"@)
        + counted_part(count_of(rows, WorktreeState::Dirty), "branch dirty"@, "branches dirty"@)
        + counted_part(blocked_count(rows), "branch blocked"@, "branches blocked"@)
        + counted_part(count_of(rows, WorktreeState::Behind), "branch behind"@, "branches behind"@)
        + if snapshot.repo.dirty {
        seq!["base dirty"@]
    } else {
        seq![]
    }
}

/// The one-line summary of a snapshot.
pub open spec fn summary_text(snapshot: SnapshotView) -> Seq<char> {
    let parts = summary_parts(snapshot);
    if parts.len() == 0 {
        "Idle - healthy, nothing to do"@
    } else if count_of(snapshot.worktrees, WorktreeState::Ready) > 0 && !snapshot.repo.dirty {
        "Ready - "@ + text::joined(parts, ", "@)
    } else {
        "Blocked - "@ + text::joined(parts, ", "@)
    }
}

proof fn lemma_blocked_count(rows: Seq<RowView>)
    ensures
        blocked_count(rows) <= rows.len(),
    decreases rows.len(),
{
    reveal(Seq::filter);
    if rows.len() > 0 {
        lemma_blocked_count(rows.drop_last());
    }
}

fn plural(count: usize, singular: &str, many: &str) -> (text: String)
    ensures
        text@ == counted(count as nat, singular@, many@),
{
    let mut text = unsigned_text(count as u64);
    text.append(" ");
    text.append(
        if count == 1 {
            singular
        } else {
            many
        },
    );
    text
}

fn push_counted(parts: &mut Vec<String>, count: usize, singular: &str, many: &str)
    ensures
        final(parts).deep_view() == old(parts).deep_view() + counted_part(
            count as nat,
            singular@,
            many@,
        ),
{
    if count > 0 {
        parts.push(plural(count, singular, many));
    }
    assert(parts.deep_view() =~= old(parts).deep_view() + counted_part(
        count as nat,
        singular@,
        many@,
    ));
}

impl Snapshot {
    /// Says in one line what there is to do.
    pub fn summary(&self) -> (line: String)
        ensures
            line@ == summary_text(self.deep_view()),
    {
        proof {
            lemma_blocked_count(self.worktrees.deep_view());
        }
        let ready = self.count(WorktreeState::Ready);
        let dirty = self.count(WorktreeState::Dirty);
        let blocked = self.count(WorktreeState::Missing) + self.count(WorktreeState::WrongBranch);
        let behind = self.count(WorktreeState::Behind);
        let mut parts: Vec<String> = Vec::new();
        push_counted(&mut parts, ready, "branch ready", "branches ready");
        push_counted(&mut parts, dirty, "branch dirty", "branches dirty");
        push_counted(&mut parts, blocked, "branch blocked", "branches blocked");
        push_counted(&mut parts, behind, "branch behind", "branches behind");
        if self.repo.dirty {
            parts.push("base dirty".to_owned());
        }
        assert(parts.deep_view() =~= summary_parts(self.deep_view()));
        if parts.len() == 0 {
            return "Idle - healthy, nothing to do".to_owned();
        }
        let start = if ready > 0 && !self.repo.dirty {
            "Ready - "
        } else {
            "Blocked - "
        };
        start.to_owned().concat(join(&parts, ", ").as_str())
    }

    fn count(&self, state: WorktreeState) -> (count: usize)
        ensures
            count == count_of(self.worktrees.deep_view(), state),
            count <= self.worktrees.len(),
    {
        let ghost rows = self.worktrees.deep_view();
        let ghost wanted = |row: RowView| row.state == state;
        let mut count: usize = 0;
        let mut i: usize = 0;
        proof {
            reveal(Seq::filter);
        }
        while i < self.worktrees.len()
            invariant
                i <= self.worktrees.len(),
                rows == self.worktrees.deep_view(),
                wanted == |row: RowView| row.state == state,
                count <= i,
                count == rows.take(i as int).filter(wanted).len(),
            decreases self.worktrees.len() - i,
        {
            proof {
                reveal(Seq::filter);
                assert(rows.take(i + 1).drop_last() =~= rows.take(i as int));
            }
            if self.worktrees[i].state == state {
                count = count + 1;
            }
            i = i + 1;
        }
        assert(rows.take(i as int) =~= rows);
        count
    }
}

impl WorktreeState {
    /// The name of the state.
    pub fn as_str(self) -> (name: &'static str)
        ensures
            name@ == state_name(self),
    {
        match self {
            Self::Ready => "ready",
            Self::Dirty => "dirty",
            Self::Behind => "behind",
            Self::Merged => "merged",
            Self::Missing => "missing",
            Self::WrongBranch => "wrong branch",
        }
    }
}

}
