use sp::model::WorktreeState::{Behind, Dirty, Missing, Ready, WrongBranch};
use sp::model::{RepoStatus, Snapshot, WorktreeRow, WorktreeState};
use sp::report::{distance_text, report, row_line};

fn row(label: &str, state: WorktreeState) -> WorktreeRow {
    WorktreeRow {
        label: label.to_string(),
        branch: format!("branch/{label}"),
        path: format!("/work/{label}"),
        current_branch: format!("branch/{label}"),
        state,
        dirty: false,
        summary: "clean".to_string(),
        ahead: 1,
        behind: 0,
        subject: "ship it".to_string(),
    }
}

fn snapshot(dirty: bool, states: &[WorktreeState]) -> Snapshot {
    Snapshot {
        base_branch: "main".to_string(),
        repo: RepoStatus {
            path: "/repo".to_string(),
            branch: "main".to_string(),
            dirty,
            summary: "clean".to_string(),
        },
        worktrees: states.iter().map(|state| row("x", *state)).collect(),
    }
}

#[test]
fn summary_prefers_ready_when_base_is_clean() {
    let snapshot = Snapshot {
        base_branch: "main".to_string(),
        repo: RepoStatus {
            path: ".".into(),
            branch: "main".to_string(),
            dirty: false,
            summary: "clean".to_string(),
        },
        worktrees: vec![WorktreeRow {
            label: "agent-A".to_string(),
            branch: "agent/A".to_string(),
            path: ".".into(),
            current_branch: "agent/A".to_string(),
            state: WorktreeState::Ready,
            dirty: false,
            summary: "clean".to_string(),
            ahead: 1,
            behind: 0,
            subject: "ship it".to_string(),
        }],
    };

    assert_eq!("Ready - 1 branch ready", snapshot.summary());
}

#[test]
fn summary_is_idle_when_there_is_nothing_to_do() {
    assert_eq!("Idle - healthy, nothing to do", snapshot(false, &[]).summary());
    assert_eq!(
        "Idle - healthy, nothing to do",
        snapshot(false, &[WorktreeState::Merged]).summary()
    );
}

#[test]
fn summary_counts_every_kind_of_worktree() {
    assert_eq!(
        "Ready - 2 branches ready, 1 branch dirty, 2 branches blocked, 1 branch behind",
        snapshot(false, &[Ready, Dirty, Missing, WrongBranch, Behind, Ready]).summary()
    );
}

#[test]
fn summary_is_blocked_when_nothing_is_ready_or_the_base_is_dirty() {
    assert_eq!("Blocked - base dirty", snapshot(true, &[]).summary());
    assert_eq!("Blocked - 1 branch ready, base dirty", snapshot(true, &[Ready]).summary());
    assert_eq!("Blocked - 1 branch behind", snapshot(false, &[Behind]).summary());
}

#[test]
fn states_have_names() {
    assert_eq!("ready", WorktreeState::Ready.as_str());
    assert_eq!("dirty", WorktreeState::Dirty.as_str());
    assert_eq!("behind", WorktreeState::Behind.as_str());
    assert_eq!("merged", WorktreeState::Merged.as_str());
    assert_eq!("missing", WorktreeState::Missing.as_str());
    assert_eq!("wrong branch", WorktreeState::WrongBranch.as_str());
}

#[test]
fn rows_are_reported_in_columns() {
    let mut row = row("agent-A", WorktreeState::WrongBranch);
    row.ahead = 12;
    row.behind = -3;
    assert_eq!("+12/--3", distance_text(&row));
    assert_eq!(
        "agent-A            branch/agent-A           wrong branch +12/--3  ship it",
        row_line(&row)
    );
}

#[test]
fn long_labels_are_reported_whole() {
    let row = row("a-label-of-more-than-eighteen", WorktreeState::Ready);
    assert_eq!(
        "a-label-of-more-than-eighteen branch/a-label-of-more-than-eighteen ready +1/-0  ship it",
        row_line(&row)
    );
}

#[test]
fn a_report_starts_with_the_summary() {
    let snapshot = snapshot(false, &[WorktreeState::Ready]);
    assert_eq!(
        vec![
            "Ready - 1 branch ready".to_string(),
            "x                  branch/x                 ready +1/-0  ship it".to_string(),
        ],
        report(&snapshot)
    );
}

#[test]
fn snapshots_are_compared_by_what_their_paths_lead_to() {
    let one = snapshot(false, &[WorktreeState::Ready]);
    let mut other = one.clone();
    assert!(one == other);
    other.repo.path = "/repo/".to_string();
    other.worktrees[0].path = "/work//x/.".to_string();
    assert!(one == other);
    other.worktrees[0].path = "/work/y".to_string();
    assert!(one != other);
}

#[test]
fn snapshots_differ_in_any_field() {
    let one = snapshot(false, &[WorktreeState::Ready]);
    let mut others = Vec::new();
    for field in 0..14 {
        let mut other = one.clone();
        let row = &mut other.worktrees[0];
        match field {
            0 => other.base_branch.push('x'),
            1 => other.repo.path.push('x'),
            2 => other.repo.branch.push('x'),
            3 => other.repo.dirty = true,
            4 => other.repo.summary.push('x'),
            5 => row.label.push('x'),
            6 => row.branch.push('x'),
            7 => row.current_branch.push('x'),
            8 => row.state = WorktreeState::Merged,
            9 => row.dirty = true,
            10 => row.summary.push('x'),
            11 => row.ahead = 2,
            12 => row.behind = 2,
            _ => row.subject.push('x'),
        }
        others.push(other);
    }
    for other in &others {
        assert!(one != *other);
    }
    let mut more = one.clone();
    more.worktrees.push(row("y", WorktreeState::Ready));
    assert!(one != more);
}
