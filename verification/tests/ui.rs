use sp::config::Config;
use sp::model::{RepoStatus, Snapshot, WorktreeRow, WorktreeState};
use sp::ops::OperationResult;
use sp::screen::{
    body_parts, border_style, header_style, indicator, keybar, marked_row, model_style,
    muted_style, pulse_style, recent_lines, recent_spans, recent_style, screen_rows,
    selected_style, style_for, summary_line, summary_spans, table_widths, text_style, title_spans,
    title_style, worktree_cells, worktree_headers, worktree_style, Extent, Paint, Rgb,
};
use sp::ui::{
    handle_key, loading_snapshot, snapshot_wait, Action, AppState, Key, OperationEvent,
    OperationKind, RunningOperation, SnapshotEvent,
};

const SECOND: u64 = 1_000_000_000;

fn config() -> Config {
    Config {
        repo_path: ".".to_string(),
        base_branch: "main".to_string(),
        deploy_command: None,
        worktrees: Vec::new(),
    }
}

fn app(snapshot: Snapshot) -> AppState {
    AppState {
        config: config(),
        snapshot,
        selected: 0,
        loading: false,
        notice: String::new(),
        notice_at: None,
        operation: None,
        last_operation: None,
        pulse_on: false,
        last_pulse: 0,
    }
}

fn row(label: &str) -> WorktreeRow {
    WorktreeRow {
        label: label.to_string(),
        branch: format!("branch/{label}"),
        path: ".".to_string(),
        current_branch: format!("branch/{label}"),
        state: WorktreeState::Ready,
        dirty: false,
        summary: "clean".to_string(),
        ahead: 1,
        behind: 0,
        subject: "ship".to_string(),
    }
}

fn snapshot(labels: &[&str]) -> Snapshot {
    Snapshot {
        base_branch: "main".to_string(),
        repo: RepoStatus {
            path: ".".to_string(),
            branch: "main".to_string(),
            dirty: false,
            summary: "clean".to_string(),
        },
        worktrees: labels.iter().map(|label| row(label)).collect(),
    }
}

fn running(name: &str, lines: &[&str]) -> RunningOperation {
    RunningOperation {
        name: name.to_string(),
        lines: lines.iter().map(|line| line.to_string()).collect(),
        ..Default::default()
    }
}

fn ended(name: &str, lines: &[&str], ok: bool, result: &str) -> RunningOperation {
    RunningOperation {
        result: result.to_string(),
        ok: Some(ok),
        done: true,
        ..running(name, lines)
    }
}

fn news(snapshot: Snapshot) -> Vec<SnapshotEvent> {
    vec![SnapshotEvent::Snapshot(Box::new(snapshot))]
}

fn line(text: &str) -> OperationEvent {
    OperationEvent::Line(text.to_string())
}

fn done(ok: bool, message: &str) -> OperationEvent {
    OperationEvent::Done(OperationResult { ok, message: message.to_string() })
}

#[test]
fn summary_uses_snapshot_state() {
    let snapshot = Snapshot {
        base_branch: "main".to_string(),
        repo: RepoStatus {
            path: ".".into(),
            branch: "main".to_string(),
            dirty: false,
            summary: "clean".to_string(),
        },
        worktrees: vec![WorktreeRow {
            label: "agent-A".to_string(),
            branch: "agent/A".to_string(),
            path: ".".into(),
            current_branch: "agent/A".to_string(),
            state: WorktreeState::Ready,
            dirty: false,
            summary: "clean".to_string(),
            ahead: 1,
            behind: 0,
            subject: "ship".to_string(),
        }],
    };

    let (label, style, parts) = summary_line(&app(snapshot));

    assert_eq!("Ready", label);
    assert_eq!("ready", style);
    assert_eq!(vec!["1 branch ready".to_string()], parts);
}

#[test]
fn key_recent_keeps_operation_commands_visible() {
    let mut app = app(loading_snapshot(&Config {
        repo_path: ".".into(),
        base_branch: "main".to_string(),
        deploy_command: None,
        worktrees: Vec::new(),
    }));
    app.loading = false;
    app.operation = Some(RunningOperation {
        name: "merge agent-A".to_string(),
        lines: vec!["$ git rebase main".to_string()],
        ..Default::default()
    });

    assert!(recent_lines(&app, 4).join("\n").contains("$ git rebase main"));
}

#[test]
fn the_dashboard_opens_loading() {
    let app = AppState::new(config(), 7);
    assert!(app.loading);
    assert_eq!("loading", app.snapshot.repo.summary);
    assert_eq!("main", app.snapshot.base_branch);
    assert_eq!("", app.snapshot.repo.branch);
    assert!(app.snapshot.worktrees.is_empty());
    assert_eq!(7, app.last_pulse);
    assert_eq!(0, app.selected);
    assert!(app.needs_animation());
    assert_eq!(75, app.poll_timeout());
    let (label, mood, parts) = summary_line(&app);
    assert_eq!(("Working", "working"), (label.as_str(), mood));
    assert_eq!(vec!["loading status"], parts);
}

#[test]
fn the_first_snapshot_ends_the_loading() {
    let mut app = AppState::new(config(), 0);
    let same = app.snapshot.clone();
    assert!(app.poll_snapshot_events(news(same.clone()), 1));
    assert!(!app.loading);
    assert!(!app.poll_snapshot_events(news(same), 2));
    assert!(app.poll_snapshot_events(news(snapshot(&["a"])), 3));
    assert_eq!(1, app.snapshot.worktrees.len());
    assert_eq!(150, app.poll_timeout());
}

#[test]
fn a_snapshot_that_spells_a_path_otherwise_is_no_news() {
    let mut app = app(snapshot(&["a"]));
    let mut other = snapshot(&["a"]);
    other.worktrees[0].path = "./".to_string();
    assert!(!app.poll_snapshot_events(news(other), 1));
    assert_eq!(".", app.snapshot.worktrees[0].path);
}

#[test]
fn the_selection_stays_on_a_row() {
    let mut app = app(snapshot(&["a", "b", "c"]));
    app.selected = 2;
    app.poll_snapshot_events(news(snapshot(&["a", "b"])), 1);
    assert_eq!(1, app.selected);
    app.poll_snapshot_events(news(snapshot(&[])), 2);
    assert_eq!(0, app.selected);
    assert_eq!(None, marked_row(&app));
    assert!(app.selected_worktree().is_none());
    app.poll_snapshot_events(news(snapshot(&["x", "y"])), 3);
    assert_eq!(Some(0), marked_row(&app));
    assert_eq!("x", app.selected_worktree().unwrap().label);
}

#[test]
fn a_failed_snapshot_is_noticed() {
    let mut app = AppState::new(config(), 0);
    app.last_operation = Some(ended("deploy", &[], true, "x"));
    assert!(app.poll_snapshot_events(vec![SnapshotEvent::Error("gone".to_string())], 5));
    assert!(!app.loading);
    assert_eq!("Refresh failed: gone", app.notice);
    assert_eq!(Some(5), app.notice_at);
    assert!(app.last_operation.is_none());
    let (label, mood, _) = summary_line(&app);
    assert_eq!(("Blocked", "blocked"), (label.as_str(), mood));
}

#[test]
fn snapshot_news_are_taken_in_order() {
    let mut app = app(snapshot(&["a"]));
    let events = vec![
        SnapshotEvent::Snapshot(Box::new(snapshot(&["b"]))),
        SnapshotEvent::Error("x".to_string()),
        SnapshotEvent::Snapshot(Box::new(snapshot(&["b"]))),
    ];
    assert!(app.poll_snapshot_events(events, 1));
    assert_eq!("b", app.snapshot.worktrees[0].label);
    assert!(!app.poll_snapshot_events(Vec::new(), 2));
}

#[test]
fn keys_move_the_selection_around() {
    let mut app = app(snapshot(&["a", "b", "c"]));
    for (key, expected) in [
        (Key::Down, 1),
        (Key::Char('j'), 2),
        (Key::Down, 0),
        (Key::Up, 2),
        (Key::Char('k'), 1),
        (Key::Other, 1),
        (Key::Char('x'), 1),
    ] {
        assert_eq!(Action::Nothing, handle_key(&mut app, key, false, 0));
        assert_eq!(expected, app.selected);
    }
}

#[test]
fn up_takes_down_back() {
    for len in 1..4 {
        let labels = ["a", "b", "c"];
        for selected in 0..len {
            let mut app = app(snapshot(&labels[..len]));
            app.selected = selected;
            handle_key(&mut app, Key::Down, false, 0);
            handle_key(&mut app, Key::Up, false, 0);
            assert_eq!(selected, app.selected);
        }
    }
}

#[test]
fn keys_without_rows_select_nothing() {
    let mut app = app(snapshot(&[]));
    assert_eq!(Action::Nothing, handle_key(&mut app, Key::Down, false, 0));
    assert_eq!(Action::Nothing, handle_key(&mut app, Key::Up, false, 0));
    assert_eq!(0, app.selected);
    assert_eq!(Action::Nothing, handle_key(&mut app, Key::Char('m'), false, 9));
    assert_eq!("Merge blocked: no worktree selected", app.notice);
    assert_eq!(Some(9), app.notice_at);
}

#[test]
fn keys_quit_and_refresh() {
    let mut app = app(snapshot(&[]));
    assert_eq!(Action::Quit, handle_key(&mut app, Key::Char('q'), false, 0));
    assert_eq!(Action::Quit, handle_key(&mut app, Key::Char('c'), true, 0));
    assert_eq!(Action::Nothing, handle_key(&mut app, Key::Char('c'), false, 0));
    assert_eq!(Action::Refresh, handle_key(&mut app, Key::Char('r'), false, 0));
}

#[test]
fn keys_start_operations() {
    for (key, kind, name, label) in [
        ('m', OperationKind::Merge("b".to_string()), "merge b", "b"),
        ('M', OperationKind::MergeAll, "merge all", ""),
        ('u', OperationKind::RebaseAll, "rebase all", ""),
        ('d', OperationKind::Deploy, "deploy", ""),
    ] {
        let mut app = app(snapshot(&["a", "b"]));
        app.selected = 1;
        app.last_operation = Some(ended("deploy", &[], true, "x"));
        let action = handle_key(&mut app, Key::Char(key), false, 0);
        assert_eq!(Action::Start(kind), action);
        let operation = app.operation.as_ref().unwrap();
        assert_eq!((name, label), (operation.name.as_str(), operation.label.as_str()));
        assert!(!operation.done);
        assert!(app.last_operation.is_none());
        assert!(app.needs_animation());
        let (heading, mood, parts) = summary_line(&app);
        assert_eq!(("Working", "working"), (heading.as_str(), mood));
        assert_eq!(vec![format!("{name} running")], parts);
    }
}

#[test]
fn a_second_operation_has_to_wait() {
    let mut app = app(snapshot(&["a"]));
    app.begin_operation(OperationKind::Deploy, 0);
    assert_eq!(Action::Nothing, handle_key(&mut app, Key::Char('M'), false, 4));
    assert_eq!("Busy: operation running", app.notice);
    assert_eq!("deploy", app.operation.as_ref().unwrap().name);
}

#[test]
fn the_end_of_an_operation_is_noticed() {
    let mut app = app(snapshot(&["a"]));
    app.begin_operation(OperationKind::Deploy, 0);
    assert_eq!((false, false), app.poll_operation_events(Vec::new(), 1));
    assert_eq!((true, false), app.poll_operation_events(vec![line("$ x")], 1));
    assert_eq!(
        (true, true),
        app.poll_operation_events(vec![line("y"), done(false, "Deploy failed: y")], 2)
    );
    assert!(app.operation.is_none());
    assert_eq!("Deploy failed: y", app.notice);
    assert_eq!(Some(2), app.notice_at);
    let last = app.visible_operation().unwrap();
    assert_eq!(vec!["$ x", "y"], last.lines);
    assert_eq!((Some(false), true), (last.ok, last.done));
    let (label, mood, parts) = summary_line(&app);
    assert_eq!(("Blocked", "blocked"), (label.as_str(), mood));
    assert_eq!(vec!["Deploy failed: y"], parts);
}

#[test]
fn the_last_result_counts() {
    let mut app = app(snapshot(&["a"]));
    app.begin_operation(OperationKind::MergeAll, 0);
    app.poll_operation_events(vec![done(false, "one"), line("late"), done(true, "two")], 2);
    assert_eq!("two", app.notice);
    let (label, mood, parts) = summary_line(&app);
    assert_eq!(("Done", "done"), (label.as_str(), mood));
    assert_eq!(vec!["two"], parts);
    assert_eq!(vec!["late"], app.visible_operation().unwrap().lines);
}

#[test]
fn news_of_no_operation_leave_no_trace() {
    let mut app = app(snapshot(&["a"]));
    assert_eq!((true, false), app.poll_operation_events(vec![line("x")], 1));
    assert_eq!((true, true), app.poll_operation_events(vec![done(true, "x")], 1));
    assert!(app.visible_operation().is_none());
    assert_eq!("", app.notice);
}

#[test]
fn the_last_eighty_lines_are_kept() {
    let mut app = app(snapshot(&["a"]));
    app.begin_operation(OperationKind::MergeAll, 0);
    let events = (0..100).map(|i| line(&i.to_string())).collect();
    app.poll_operation_events(events, 1);
    let lines = &app.operation.as_ref().unwrap().lines;
    assert_eq!(80, lines.len());
    assert_eq!("20", lines[0]);
    assert_eq!("99", lines[79]);
}

#[test]
fn notices_go_after_twenty_seconds() {
    let mut app = app(snapshot(&[]));
    assert!(!app.clear_transient_notice(100 * SECOND));
    app.show_notice("hello".to_string(), 10 * SECOND);
    assert!(!app.clear_transient_notice(30 * SECOND - 1));
    assert!(!app.clear_transient_notice(0));
    app.last_operation = Some(ended("x", &[], true, "y"));
    assert!(app.clear_transient_notice(30 * SECOND));
    assert_eq!("", app.notice);
    assert_eq!(None, app.notice_at);
    assert!(app.last_operation.is_none());
}

#[test]
fn notices_stay_while_an_operation_is_running() {
    let mut app = app(snapshot(&[]));
    app.begin_operation(OperationKind::Deploy, 0);
    app.show_notice("hello".to_string(), 0);
    assert!(!app.clear_transient_notice(100 * SECOND));
    assert_eq!("hello", app.notice);
}

#[test]
fn the_light_changes_while_work_is_going_on() {
    let mut app = AppState::new(config(), 0);
    assert!(!app.pulse(SECOND / 1000 * 349));
    assert!(app.pulse(SECOND / 1000 * 350));
    assert!(app.pulse_on);
    assert!(!app.pulse(SECOND / 1000 * 400));
    assert!(app.pulse(SECOND));
    assert!(!app.pulse_on);
    app.loading = false;
    assert!(!app.pulse(10 * SECOND));
    assert_eq!(SECOND, app.last_pulse);
}

#[test]
fn a_round_takes_note_of_everything() {
    let mut app = AppState::new(config(), 0);
    app.begin_operation(OperationKind::Deploy, 0);
    let events = vec![line("x"), done(true, "Deploy completed")];
    assert_eq!((true, true), app.advance(news(snapshot(&["a"])), events, SECOND));
    assert_eq!("Deploy completed", app.notice);
    assert!(!app.pulse_on);
    assert_eq!((false, false), app.advance(Vec::new(), Vec::new(), 2 * SECOND));
    assert_eq!((true, false), app.advance(Vec::new(), Vec::new(), 21 * SECOND));
    assert_eq!("", app.notice);
    app.loading = true;
    assert_eq!((true, false), app.advance(Vec::new(), Vec::new(), 22 * SECOND));
    assert!(app.pulse_on);
}

#[test]
fn the_snapshot_worker_waits_two_seconds() {
    assert_eq!(2 * SECOND, snapshot_wait(0));
    assert_eq!(SECOND, snapshot_wait(SECOND));
    assert_eq!(0, snapshot_wait(3 * SECOND));
}

#[test]
fn notices_tell_whether_something_failed() {
    for (notice, expected) in [
        ("Merge BLOCKED: x", ("Blocked", "blocked")),
        ("it Failed", ("Blocked", "blocked")),
        ("Merged x", ("Done", "done")),
    ] {
        let mut app = app(snapshot(&["a"]));
        app.show_notice(notice.to_string(), 0);
        let (label, mood, parts) = summary_line(&app);
        assert_eq!(expected, (label.as_str(), mood));
        assert_eq!(vec![notice], parts);
    }
}

#[test]
fn summaries_are_split_into_parts() {
    let mut shown = snapshot(&["a", "b"]);
    shown.worktrees[1].state = WorktreeState::Dirty;
    let (label, mood, parts) = summary_line(&app(shown.clone()));
    assert_eq!(("Ready", "ready"), (label.as_str(), mood));
    assert_eq!(vec!["1 branch ready", "1 branch dirty"], parts);
    shown.repo.dirty = true;
    let (label, mood, parts) = summary_line(&app(shown));
    assert_eq!(("Blocked", "blocked"), (label.as_str(), mood));
    assert_eq!(vec!["1 branch ready", "1 branch dirty", "base dirty"], parts);
    let (label, mood, parts) = summary_line(&app(snapshot(&[])));
    assert_eq!(("Idle", "muted"), (label.as_str(), mood));
    assert_eq!(vec!["healthy", "nothing to do"], parts);
}

#[test]
fn recent_lines_show_the_result_and_what_fits() {
    let mut app = app(snapshot(&[]));
    assert_eq!(vec!["No recent activity"], recent_lines(&app, 4));
    app.last_operation = Some(ended("deploy", &["a", "b", "c", "d"], true, "ok"));
    assert_eq!(vec!["deploy: ok", "deploy: b", "deploy: c"], recent_lines(&app, 3));
    assert_eq!(vec!["deploy: ok", "deploy: d"], recent_lines(&app, 1));
    assert_eq!(vec!["deploy: ok"], recent_lines(&app, 0));
    assert_eq!(5, recent_lines(&app, 9).len());
    app.operation = Some(running("merge all", &["a", "b", "c"]));
    assert_eq!(vec!["merge all: b", "merge all: c"], recent_lines(&app, 2));
    assert_eq!(vec!["No recent activity"], recent_lines(&app, 0));
    app.operation = Some(running("merge all", &[]));
    assert_eq!(vec!["No recent activity"], recent_lines(&app, 5));
}

#[test]
fn recent_lines_are_painted() {
    let mut app = app(snapshot(&[]));
    app.operation = Some(running("x", &["$ git", "Merged a"]));
    let spans = recent_spans(&app, 6);
    assert_eq!("x: $ git", spans[0].text);
    assert_eq!(muted_style(), spans[0].paint);
    assert_eq!("x: Merged a", spans[1].text);
    assert_eq!(style_for("done"), spans[1].paint);
    assert_eq!("No recent activity", recent_spans(&app, 1)[0].text);
    assert_eq!(1, recent_spans(&app, 3).len());
}

fn ink(red: u8, green: u8, blue: u8, bold: bool) -> Paint {
    Paint { fg: Some(Rgb { red, green, blue }), bg: None, bold }
}

#[test]
fn moods_have_colours() {
    assert_eq!(ink(34, 197, 94, true), style_for("ready"));
    assert_eq!(ink(34, 211, 238, true), style_for("working"));
    assert_eq!(ink(251, 113, 133, true), style_for("blocked"));
    assert_eq!(ink(74, 222, 128, true), style_for("done"));
    assert_eq!(ink(100, 116, 139, false), style_for("muted"));
    assert_eq!(ink(100, 116, 139, false), muted_style());
    assert_eq!(ink(248, 250, 252, true), title_style());
    assert_eq!(ink(56, 189, 248, true), model_style());
    assert_eq!(ink(226, 232, 240, false), text_style());
    assert_eq!(ink(148, 163, 184, true), header_style());
    assert_eq!(ink(30, 64, 112, false), border_style());
    assert_eq!(ink(125, 249, 255, true), pulse_style());
    assert_eq!(
        Paint { bg: Some(Rgb { red: 14, green: 116, blue: 144 }), ..ink(248, 250, 252, true) },
        selected_style()
    );
}

#[test]
fn states_have_colours() {
    assert_eq!(style_for("ready"), worktree_style(WorktreeState::Ready));
    for state in [WorktreeState::Dirty, WorktreeState::Missing, WorktreeState::WrongBranch] {
        assert_eq!(ink(250, 204, 21, false), worktree_style(state));
    }
    assert_eq!(ink(232, 121, 249, false), worktree_style(WorktreeState::Behind));
    assert_eq!(muted_style(), worktree_style(WorktreeState::Merged));
}

#[test]
fn recent_lines_are_painted_by_their_words() {
    for line in ["Merge BLOCKED", "failed", "a conflict, merged"] {
        assert_eq!(style_for("blocked"), recent_style(line));
    }
    for line in ["Merged", "rebased x", "Deploy completed"] {
        assert_eq!(style_for("done"), recent_style(line));
    }
    for line in ["$ git", "x: $ git"] {
        assert_eq!(muted_style(), recent_style(line));
    }
    for line in ["", "hello", "costs $5"] {
        assert_eq!(text_style(), recent_style(line));
    }
}

#[test]
fn headings_have_signs() {
    let signs = [("Working", ">"), ("Ready", "+"), ("Blocked", "!"), ("Done", "*"), ("Idle", "-")];
    for (label, sign) in signs {
        assert_eq!(sign, indicator(label));
    }
}

#[test]
fn the_title_names_the_base_branch() {
    let spans = title_spans(&app(snapshot(&[])));
    let text: String = spans.iter().map(|span| span.text.as_str()).collect();
    assert_eq!("sp  ship small, merge clean  base: main", text);
    assert_eq!(title_style(), spans[0].paint);
    assert_eq!(Paint { fg: None, bg: None, bold: false }, spans[1].paint);
    assert_eq!(muted_style(), spans[2].paint);
    assert_eq!(model_style(), spans[4].paint);
}

#[test]
fn the_summary_is_painted_by_its_mood() {
    let mut app = app(snapshot(&["a"]));
    app.pulse_on = true;
    let spans = summary_spans(&app);
    let text: String = spans.iter().map(|span| span.text.as_str()).collect();
    assert_eq!("+ Ready - 1 branch ready", text);
    assert_eq!(style_for("ready"), spans[0].paint);
    assert_eq!(style_for("ready"), spans[2].paint);
    assert_eq!(muted_style(), spans[3].paint);
    assert_eq!(text_style(), spans[4].paint);
    app.loading = true;
    assert_eq!(pulse_style(), summary_spans(&app)[2].paint);
    assert_eq!(style_for("working"), summary_spans(&app)[0].paint);
    app.pulse_on = false;
    assert_eq!(style_for("working"), summary_spans(&app)[2].paint);
}

#[test]
fn rows_have_six_cells() {
    let mut row = row("a");
    row.behind = 3;
    row.subject = "word ".repeat(30);
    let cells = worktree_cells(&row);
    assert_eq!(worktree_headers().len(), cells.len());
    assert_eq!(
        ["a", "branch/a", "ready", "+1/-3", "clean"],
        [&cells[0], &cells[1], &cells[2], &cells[3], &cells[4]].map(|cell| cell.as_str())
    );
    assert_eq!(format!("{}wor...", "word ".repeat(18)), cells[5]);
    assert_eq!(
        vec!["Agent", "Branch", "State", "Base", "Status", "Last commit"],
        worktree_headers()
    );
}

#[test]
fn narrow_screens_are_divided_otherwise() {
    assert_eq!((true, vec![Extent::Min(7), Extent::Length(8)]), body_parts(119));
    assert_eq!((false, vec![Extent::Percentage(68), Extent::Percentage(32)]), body_parts(120));
    assert_eq!(Extent::Length(16), table_widths(99)[0]);
    assert_eq!(Extent::Min(10), table_widths(99)[5]);
    assert_eq!(Extent::Length(18), table_widths(100)[0]);
    assert_eq!(Extent::Min(20), table_widths(100)[5]);
    assert_eq!(
        vec![Extent::Length(3), Extent::Length(3), Extent::Min(1), Extent::Length(1)],
        screen_rows()
    );
    assert_eq!(
        "j/k select  m merge  M merge all  u rebase all  d deploy  r refresh  q quit",
        keybar()
    );
}

#[test]
fn a_selection_out_of_range_is_taken_back_up() {
    let mut app = app(snapshot(&["a"]));
    app.selected = usize::MAX;
    assert_eq!(Action::Nothing, handle_key(&mut app, Key::Char('m'), false, 1));
    assert_eq!("Merge blocked: no worktree selected", app.notice);
    assert_eq!(Action::Nothing, handle_key(&mut app, Key::Up, false, 1));
    assert_eq!(usize::MAX - 1, app.selected);
}
