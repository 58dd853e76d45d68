//! The dashboard: what it shows, and what it does on a key, a tick of the clock
//! or news from the workers.
use vstd::prelude::*;

use crate::config::{Config, ConfigView};
use crate::model;
use crate::model::{RepoStatus, RepoView, Snapshot, SnapshotView, WorktreeRow};
use crate::ops::{OperationResult, ResultView};

verus! {

/// How long the snapshot worker waits between two snapshots, in nanoseconds.
pub const SNAPSHOT_INTERVAL: u64 = 2_000_000_000;

/// How long the light stays on, or off, while work is going on, in nanoseconds.
pub const PULSE_INTERVAL: u64 = 350_000_000;

/// How long a notice stays, in nanoseconds.
pub const TRANSIENT_TTL: u64 = 20_000_000_000;

/// How many lines of an operation are kept.
pub const KEPT_LINES: usize = 80;

/// News from the snapshot worker.
#[derive(Clone, Debug)]
pub enum SnapshotEvent {
    Snapshot(Box<Snapshot>),
    Error(String),
}

/// News from the operation worker.
#[derive(Clone, Debug)]
pub enum OperationEvent {
    Line(String),
    Done(OperationResult),
}

/// What can be started.
#[derive(Clone, Debug, PartialEq, Eq)]
pub enum OperationKind {
    Merge(String),
    MergeAll,
    RebaseAll,
    Deploy,
}

/// What is left to be done outside when the dashboard has taken note of something.
#[derive(Clone, Debug, PartialEq, Eq)]
pub enum Action {
    Nothing,
    Quit,
    /// Ask the snapshot worker for a snapshot.
    Refresh,
    /// Start an operation in the background.
    Start(OperationKind),
}

/// A key of the keyboard.
#[derive(Clone, Copy, Debug, PartialEq, Eq, Structural)]
pub enum Key {
    Char(char),
    Up,
    Down,
    Other,
}

/// An operation, from its start on.
#[derive(Clone, Debug, PartialEq, Eq)]
pub struct RunningOperation {
    pub name: String,
    pub label: String,
    pub lines: Vec<String>,
    pub result: String,
    pub ok: Option<bool>,
    pub done: bool,
}

/// What the dashboard knows. Times are in nanoseconds from any fixed moment.
pub struct AppState {
    pub config: Config,
    pub snapshot: Snapshot,
    pub selected: usize,
    pub loading: bool,
    pub notice: String,
    pub notice_at: Option<u64>,
    pub operation: Option<RunningOperation>,
    pub last_operation: Option<RunningOperation>,
    pub pulse_on: bool,
    pub last_pulse: u64,
}

/// News from the snapshot worker, by the text that it holds.
pub enum SnapshotNews {
    Snapshot(SnapshotView),
    Error(Seq<char>),
}

/// News from the operation worker, by the text that it holds.
pub enum OperationNews {
    Line(Seq<char>),
    Done(ResultView),
}

/// What can be started, by the text that it holds.
pub enum KindView {
    Merge(Seq<char>),
    MergeAll,
    RebaseAll,
    Deploy,
}

/// What is left to be done, by the text that it holds.
pub enum ActionView {
    Nothing,
    Quit,
    Refresh,
    Start(KindView),
}

/// An operation, by the text that it holds.
pub struct OperationView {
    pub name: Seq<char>,
    pub label: Seq<char>,
    pub lines: Seq<Seq<char>>,
    pub result: Seq<char>,
    pub ok: Option<bool>,
    pub done: bool,
}

/// The dashboard, by the text that it holds.
pub struct AppView {
    pub config: ConfigView,
    pub snapshot: SnapshotView,
    pub selected: nat,
    pub loading: bool,
    pub notice: Seq<char>,
    pub notice_at: Option<u64>,
    pub operation: Option<OperationView>,
    pub last_operation: Option<OperationView>,
    pub pulse_on: bool,
    pub last_pulse: u64,
}

impl DeepView for SnapshotEvent {
    type V = SnapshotNews;

    open spec fn deep_view(&self) -> SnapshotNews {
        match self {
            SnapshotEvent::Snapshot(snapshot) => SnapshotNews::Snapshot((**snapshot).deep_view()),
            SnapshotEvent::Error(error) => SnapshotNews::Error(error@),
        }
    }
}

impl DeepView for OperationEvent {
    type V = OperationNews;

    open spec fn deep_view(&self) -> OperationNews {
        match self {
            OperationEvent::Line(line) => OperationNews::Line(line@),
            OperationEvent::Done(result) => OperationNews::Done(result.deep_view()),
        }
    }
}

impl DeepView for OperationKind {
    type V = KindView;

    open spec fn deep_view(&self) -> KindView {
        match self {
            OperationKind::Merge(label) => KindView::Merge(label@),
            OperationKind::MergeAll => KindView::MergeAll,
            OperationKind::RebaseAll => KindView::RebaseAll,
            OperationKind::Deploy => KindView::Deploy,
        }
    }
}

impl DeepView for Action {
    type V = ActionView;

    open spec fn deep_view(&self) -> ActionView {
        match self {
            Action::Nothing => ActionView::Nothing,
            Action::Quit => ActionView::Quit,
            Action::Refresh => ActionView::Refresh,
            Action::Start(kind) => ActionView::Start(kind.deep_view()),
        }
    }
}

impl DeepView for RunningOperation {
    type V = OperationView;

    open spec fn deep_view(&self) -> OperationView {
        OperationView {
            name: self.name@,
            label: self.label@,
            lines: self.lines.deep_view(),
            result: self.result@,
            ok: self.ok,
            done: self.done,
        }
    }
}

impl DeepView for AppState {
    type V = AppView;

    open spec fn deep_view(&self) -> AppView {
        AppView {
            config: self.config.deep_view(),
            snapshot: self.snapshot.deep_view(),
            selected: self.selected as nat,
            loading: self.loading,
            notice: self.notice@,
            notice_at: self.notice_at,
            operation: self.operation.deep_view(),
            last_operation: self.last_operation.deep_view(),
            pulse_on: self.pulse_on,
            last_pulse: self.last_pulse,
        }
    }
}

impl Default for RunningOperation {
    fn default() -> (operation: RunningOperation)
        ensures
            operation.deep_view() == started(seq![], seq![]),
    {
        let operation = RunningOperation {
            name: String::new(),
            label: String::new(),
            lines: Vec::new(),
            result: String::new(),
            ok: None,
            done: false,
        };
        assert(operation.name@ =~= seq![]);
        assert(operation.label@ =~= seq![]);
        assert(operation.lines.deep_view() =~= seq![]);
        assert(operation.result@ =~= seq![]);
        operation
    }
}

/// An operation that has just been started.
pub open spec fn started(name: Seq<char>, label: Seq<char>) -> OperationView {
    OperationView { name, label, lines: seq![], result: seq![], ok: None, done: false }
}

/// A snapshot to show until the first one has been taken.
pub open spec fn loading_view(config: ConfigView) -> SnapshotView {
    SnapshotView {
        base_branch: config.base_branch,
        repo: RepoView {
            path: config.repo_path,
            branch: seq![],
            dirty: false,
            summary: "loading"@,
        },
        worktrees: seq![],
    }
}

/// The dashboard before anything has happened.
pub open spec fn opening(config: ConfigView, now: u64) -> AppView {
    AppView {
        config,
        snapshot: loading_view(config),
        selected: 0,
        loading: true,
        notice: seq![],
        notice_at: None,
        operation: None,
        last_operation: None,
        pulse_on: false,
        last_pulse: now,
    }
}

/// The dashboard is sound: what is selected is a row, or the first place if there
/// are no rows, and no operation keeps more lines than it may.
pub open spec fn sound(app: AppView) -> bool {
    &&& app.selected == 0 || app.selected < app.snapshot.worktrees.len()
    &&& app.operation matches Some(operation) ==> operation.lines.len() <= KEPT_LINES
    &&& app.last_operation matches Some(operation) ==> operation.lines.len() <= KEPT_LINES
}

/// The dashboard with a notice on it.
pub open spec fn noticed(app: AppView, notice: Seq<char>, now: u64) -> AppView {
    AppView { notice, notice_at: Some(now), last_operation: None, ..app }
}

/// The row to select among `len` rows, where row `selected` was selected before.
pub open spec fn clamped(selected: nat, len: nat) -> nat {
    if len == 0 {
        0
    } else if selected < len {
        selected
    } else {
        (len - 1) as nat
    }
}

/// The dashboard after news from the snapshot worker.
pub open spec fn after_snapshot_news(app: AppView, news: SnapshotNews, now: u64) -> AppView {
    match news {
        SnapshotNews::Snapshot(snapshot) => if app.loading || !model::same_snapshot(
            snapshot,
            app.snapshot,
        ) {
            AppView {
                selected: clamped(app.selected, snapshot.worktrees.len()),
                snapshot,
                loading: false,
                ..app
            }
        } else {
            app
        },
        SnapshotNews::Error(error) => noticed(
            AppView { loading: false, ..app },
            "Refresh failed: "@ + error,
            now,
        ),
    }
}

/// Whether news from the snapshot worker change what is shown.
pub open spec fn snapshot_news_matter(app: AppView, news: SnapshotNews) -> bool {
    match news {
        SnapshotNews::Snapshot(snapshot) => app.loading || !model::same_snapshot(
            snapshot,
            app.snapshot,
        ),
        SnapshotNews::Error(error) => true,
    }
}

/// The dashboard after all of the news, and whether any of them matter.
pub open spec fn after_snapshots(app: AppView, news: Seq<SnapshotNews>, now: u64) -> (AppView, bool)
    decreases news.len(),
{
    if news.len() == 0 {
        (app, false)
    } else {
        let (before, changed) = after_snapshots(app, news.drop_last(), now);
        (
            after_snapshot_news(before, news.last(), now),
            changed || snapshot_news_matter(before, news.last()),
        )
    }
}

/// The last `count` of `lines`, or all if there are fewer.
pub open spec fn last_lines(lines: Seq<Seq<char>>, count: nat) -> Seq<Seq<char>> {
    if lines.len() <= count {
        lines
    } else {
        lines.skip(lines.len() - count)
    }
}

/// An operation after one more line.
pub open spec fn with_line(operation: OperationView, line: Seq<char>) -> OperationView {
    OperationView { lines: last_lines(operation.lines.push(line), KEPT_LINES as nat), ..operation }
}

/// The lines that news from the operation worker hold, in order.
pub open spec fn after_lines(
    operation: Option<OperationView>,
    news: Seq<OperationNews>,
) -> Option<OperationView>
    decreases news.len(),
{
    if news.len() == 0 {
        operation
    } else {
        match (after_lines(operation, news.drop_last()), news.last()) {
            (Some(before), OperationNews::Line(line)) => Some(with_line(before, line)),
            (before, _) => before,
        }
    }
}

/// The last result that news from the operation worker hold.
pub open spec fn last_result(news: Seq<OperationNews>) -> Option<ResultView>
    decreases news.len(),
{
    if news.len() == 0 {
        None
    } else {
        match news.last() {
            OperationNews::Done(result) => Some(result),
            OperationNews::Line(line) => last_result(news.drop_last()),
        }
    }
}

/// The dashboard after news from the operation worker.
pub open spec fn after_operations(app: AppView, news: Seq<OperationNews>, now: u64) -> AppView {
    let operation = after_lines(app.operation, news);
    match (last_result(news), operation) {
        (Some(result), Some(running)) => AppView {
            operation: None,
            last_operation: Some(
                OperationView {
                    ok: Some(result.ok),
                    result: result.message,
                    done: true,
                    ..running
                },
            ),
            notice: result.message,
            notice_at: Some(now),
            ..app
        },
        _ => AppView { operation, ..app },
    }
}

/// How much later `now` is than `then`; nothing if it is not later.
pub open spec fn elapsed(now: u64, then: u64) -> nat {
    if now >= then {
        (now - then) as nat
    } else {
        0
    }
}

/// Whether the notice has been there long enough to go.
pub open spec fn notice_expired(app: AppView, now: u64) -> bool {
    &&& app.operation is None
    &&& app.notice_at matches Some(then) && elapsed(now, then) >= TRANSIENT_TTL
}

/// The dashboard once a notice that has been there long enough is gone.
pub open spec fn after_notice(app: AppView, now: u64) -> AppView {
    if notice_expired(app, now) {
        AppView { notice: seq![], notice_at: None, last_operation: None, ..app }
    } else {
        app
    }
}

/// Whether something is going on.
pub open spec fn animated(app: AppView) -> bool {
    app.loading || (app.operation matches Some(operation) && !operation.done)
}

/// Whether the light changes now.
pub open spec fn pulses(app: AppView, now: u64) -> bool {
    animated(app) && elapsed(now, app.last_pulse) >= PULSE_INTERVAL
}

/// The dashboard after the light has had its chance to change.
pub open spec fn after_pulse(app: AppView, now: u64) -> AppView {
    if pulses(app, now) {
        AppView { pulse_on: !app.pulse_on, last_pulse: now, ..app }
    } else {
        app
    }
}

/// The operation that is shown: the one that is running, or else the last one.
pub open spec fn shown_operation(app: AppView) -> Option<OperationView> {
    match app.operation {
        Some(operation) => Some(operation),
        None => app.last_operation,
    }
}

/// What an operation is called.
pub open spec fn kind_name(kind: KindView) -> Seq<char> {
    match kind {
        KindView::Merge(label) => "merge "@ + label,
        KindView::MergeAll => "merge all"@,
        KindView::RebaseAll => "rebase all"@,
        KindView::Deploy => "deploy"@,
    }
}

/// The worktree that an operation is about, if it is about one.
pub open spec fn kind_label(kind: KindView) -> Seq<char> {
    match kind {
        KindView::Merge(label) => label,
        _ => seq![],
    }
}

/// What comes of the wish to start an operation: it starts, unless one is running.
pub open spec fn after_start(app: AppView, kind: KindView, now: u64) -> (AppView, ActionView) {
    if app.operation is Some {
        (noticed(app, "Busy: operation running"@, now), ActionView::Nothing)
    } else {
        (
            AppView {
                operation: Some(started(kind_name(kind), kind_label(kind))),
                last_operation: None,
                ..app
            },
            ActionView::Start(kind),
        )
    }
}

/// The row below the selected one; the first one below the last.
pub open spec fn next_row(selected: nat, len: nat) -> nat {
    (selected + 1) % len
}

/// The row above the selected one; the last one above the first.
pub open spec fn previous_row(selected: nat, len: nat) -> nat {
    if selected == 0 {
        (len - 1) as nat
    } else {
        (selected - 1) as nat
    }
}

/// What comes of a key.
pub open spec fn after_key(app: AppView, key: Key, control: bool, now: u64) -> (
    AppView,
    ActionView,
) {
    let rows = app.snapshot.worktrees;
    if control && key == Key::Char('c') || key == Key::Char('q') {
        (app, ActionView::Quit)
    } else if key == Key::Char('r') {
        (app, ActionView::Refresh)
    } else if (key == Key::Down || key == Key::Char('j')) && rows.len() > 0 {
        (AppView { selected: next_row(app.selected, rows.len()), ..app }, ActionView::Nothing)
    } else if (key == Key::Up || key == Key::Char('k')) && rows.len() > 0 {
        (AppView { selected: previous_row(app.selected, rows.len()), ..app }, ActionView::Nothing)
    } else if key == Key::Char('m') {
        if app.selected < rows.len() {
            after_start(app, KindView::Merge(rows[app.selected as int].label), now)
        } else {
            (noticed(app, "Merge blocked: no worktree selected"@, now), ActionView::Nothing)
        }
    } else if key == Key::Char('M') {
        after_start(app, KindView::MergeAll, now)
    } else if key == Key::Char('u') {
        after_start(app, KindView::RebaseAll, now)
    } else if key == Key::Char('d') {
        after_start(app, KindView::Deploy, now)
    } else {
        (app, ActionView::Nothing)
    }
}

/// A snapshot to show until the first one has been taken.
pub fn loading_snapshot(config: &Config) -> (snapshot: Snapshot)
    ensures
        snapshot.deep_view() == loading_view(config.deep_view()),
{
    let snapshot = Snapshot {
        base_branch: config.base_branch.clone(),
        repo: RepoStatus {
            path: config.repo_path.clone(),
            branch: String::new(),
            dirty: false,
            summary: "loading".to_owned(),
        },
        worktrees: Vec::new(),
    };
    assert(snapshot.repo.branch@ =~= seq![]);
    assert(snapshot.worktrees.deep_view() =~= seq![]);
    snapshot
}

impl AppState {
    /// The dashboard before anything has happened.
    pub fn new(config: Config, now: u64) -> (app: AppState)
        ensures
            app.deep_view() == opening(config.deep_view(), now),
    {
        let snapshot = loading_snapshot(&config);
        let app = AppState {
            config,
            snapshot,
            selected: 0,
            loading: true,
            notice: String::new(),
            notice_at: None,
            operation: None,
            last_operation: None,
            pulse_on: false,
            last_pulse: now,
        };
        assert(app.notice@ =~= seq![]);
        app
    }

    /// Puts a notice on the dashboard.
    pub fn show_notice(&mut self, notice: String, now: u64)
        ensures
            final(self).deep_view() == noticed(old(self).deep_view(), notice@, now),
    {
        self.notice = notice;
        self.notice_at = Some(now);
        self.last_operation = None;
    }

    /// Takes note of one piece of news from the snapshot worker. Tells whether it
    /// matters.
    fn note_snapshot(&mut self, event: SnapshotEvent, now: u64) -> (changed: bool)
        ensures
            final(self).deep_view() == after_snapshot_news(
                old(self).deep_view(),
                event.deep_view(),
                now,
            ),
            changed == snapshot_news_matter(old(self).deep_view(), event.deep_view()),
            !old(self).loading && event.deep_view() == SnapshotNews::Snapshot(
                old(self).snapshot.deep_view(),
            ) ==> !changed,
    {
        match event {
            SnapshotEvent::Snapshot(snapshot) => {
                let snapshot = *snapshot;
                let changed = self.loading || snapshot != self.snapshot;
                if changed {
                    let len = snapshot.worktrees.len();
                    let last: usize = if len == 0 {
                        0
                    } else {
                        len - 1
                    };
                    if self.selected > last {
                        self.selected = last;
                    }
                    self.snapshot = snapshot;
                }
                self.loading = false;
                changed
            },
            SnapshotEvent::Error(error) => {
                self.loading = false;
                self.show_notice("Refresh failed: ".to_owned().concat(error.as_str()), now);
                true
            },
        }
    }

    /// Takes note of news from the snapshot worker. Tells whether any of them
    /// matter; snapshots of what is shown already do not.
    pub fn poll_snapshot_events(&mut self, events: Vec<SnapshotEvent>, now: u64) -> (changed: bool)
        ensures
            (final(self).deep_view(), changed) == after_snapshots(
                old(self).deep_view(),
                events.deep_view(),
                now,
            ),
            !old(self).loading && (forall|i: int|
                0 <= i < events.len() ==> (#[trigger] events[i]).deep_view()
                    == SnapshotNews::Snapshot(old(self).snapshot.deep_view())) ==> !changed
                && final(self).deep_view() == old(self).deep_view(),
    {
        let ghost news = events.deep_view();
        let ghost shown = SnapshotNews::Snapshot(self.snapshot.deep_view());
        let ghost stale = !self.loading && forall|i: int|
            0 <= i < events.len() ==> (#[trigger] events[i]).deep_view() == shown;
        proof {
            assert forall|i: int| stale && 0 <= i < news.len() implies #[trigger] news[i]
                == shown by {
                assert(events[i].deep_view() == shown);
            }
        }
        let mut left = events;
        let ghost mut taken: int = 0;
        let mut changed = false;
        assert(left.deep_view() =~= news.skip(0));
        while left.len() > 0
            invariant
                0 <= taken <= news.len(),
                left.deep_view() == news.skip(taken),
                shown == SnapshotNews::Snapshot(old(self).snapshot.deep_view()),
                stale ==> !old(self).loading,
                forall|i: int| stale && 0 <= i < news.len() ==> #[trigger] news[i] == shown,
                stale ==> !changed && self.deep_view() == old(self).deep_view(),
                (self.deep_view(), changed) == after_snapshots(
                    old(self).deep_view(),
                    news.take(taken),
                    now,
                ),
            decreases left.len(),
        {
            let ghost rest = left.deep_view();
            let event = left.remove(0);
            assert(left.deep_view() =~= rest.skip(1));
            assert(event.deep_view() == rest[0]);
            if self.note_snapshot(event, now) {
                changed = true;
            }
            proof {
                assert(news.take(taken + 1).drop_last() =~= news.take(taken));
                assert(news.take(taken + 1).last() == event.deep_view());
                assert(left.deep_view() =~= news.skip(taken + 1));
                taken = taken + 1;
            }
        }
        assert(news.take(taken) =~= news);
        changed
    }

    /// Takes note of news from the operation worker. Tells whether there are any,
    /// and whether the operation has ended: no more news of it will come, and a
    /// fresh snapshot is due.
    pub fn poll_operation_events(&mut self, events: Vec<OperationEvent>, now: u64) -> (polled: (
        bool,
        bool,
    ))
        ensures
            final(self).deep_view() == after_operations(
                old(self).deep_view(),
                events.deep_view(),
                now,
            ),
            polled.0 == (events.len() > 0),
            polled.1 == (last_result(events.deep_view()) is Some),
    {
        let ghost news = events.deep_view();
        let ghost before = self.deep_view();
        let changed = events.len() > 0;
        let mut done: Option<OperationResult> = None;
        let mut left = events;
        let ghost mut taken: int = 0;
        assert(left.deep_view() =~= news.skip(0));
        while left.len() > 0
            invariant
                0 <= taken <= news.len(),
                left.deep_view() == news.skip(taken),
                done.deep_view() == last_result(news.take(taken)),
                self.deep_view() == (AppView {
                    operation: after_lines(before.operation, news.take(taken)),
                    ..before
                }),
            decreases left.len(),
        {
            let ghost rest = left.deep_view();
            let event = left.remove(0);
            assert(left.deep_view() =~= rest.skip(1));
            assert(event.deep_view() == rest[0]);
            proof {
                assert(news.take(taken + 1).drop_last() =~= news.take(taken));
                assert(news.take(taken + 1).last() == event.deep_view());
                assert(left.deep_view() =~= news.skip(taken + 1));
                taken = taken + 1;
            }
            match event {
                OperationEvent::Line(line) => self.note_line(line),
                OperationEvent::Done(result) => {
                    done = Some(result);
                },
            }
        }
        assert(news.take(taken) =~= news);
        let finished = done.is_some();
        if let Some(result) = done {
            if let Some(running) = self.operation.take() {
                self.notice = result.message.clone();
                self.notice_at = Some(now);
                self.last_operation = Some(
                    RunningOperation {
                        name: running.name,
                        label: running.label,
                        lines: running.lines,
                        result: result.message,
                        ok: Some(result.ok),
                        done: true,
                    },
                );
            }
        }
        (changed, finished)
    }

    fn note_line(&mut self, line: String)
        ensures
            final(self).deep_view() == (AppView {
                operation: match old(self).deep_view().operation {
                    Some(operation) => Some(with_line(operation, line@)),
                    None => None,
                },
                ..old(self).deep_view()
            }),
    {
        if let Some(running) = self.operation.take() {
            let ghost before = running.lines.deep_view();
            let mut lines = running.lines;
            lines.push(line);
            assert(lines.deep_view() =~= before.push(line@));
            let kept = keep_last(lines);
            self.operation = Some(
                RunningOperation {
                    name: running.name,
                    label: running.label,
                    lines: kept,
                    result: running.result,
                    ok: running.ok,
                    done: running.done,
                },
            );
        }
    }

    /// Takes a notice away that has been there long enough. Tells whether it did.
    pub fn clear_transient_notice(&mut self, now: u64) -> (cleared: bool)
        ensures
            final(self).deep_view() == after_notice(old(self).deep_view(), now),
            cleared == notice_expired(old(self).deep_view(), now),
    {
        if self.operation.is_some() {
            return false;
        }
        let then = match self.notice_at {
            None => return false,
            Some(then) => then,
        };
        if time_since(now, then) < TRANSIENT_TTL {
            return false;
        }
        self.notice = String::new();
        assert(self.notice@ =~= seq![]);
        self.last_operation = None;
        self.notice_at = None;
        true
    }

    /// Whether something is going on.
    pub fn needs_animation(&self) -> (yes: bool)
        ensures
            yes == animated(self.deep_view()),
    {
        self.loading || match &self.operation {
            Some(operation) => !operation.done,
            None => false,
        }
    }

    /// Lets the light change where it is time. Tells whether it did.
    pub fn pulse(&mut self, now: u64) -> (changed: bool)
        ensures
            final(self).deep_view() == after_pulse(old(self).deep_view(), now),
            changed == pulses(old(self).deep_view(), now),
    {
        if self.needs_animation() && time_since(now, self.last_pulse) >= PULSE_INTERVAL {
            self.pulse_on = !self.pulse_on;
            self.last_pulse = now;
            true
        } else {
            false
        }
    }

    /// Takes note of everything that has come to pass since the last round. Tells
    /// whether there is something new to show, and whether an operation has ended.
    pub fn advance(
        &mut self,
        snapshots: Vec<SnapshotEvent>,
        operations: Vec<OperationEvent>,
        now: u64,
    ) -> (news: (bool, bool))
        ensures
            ({
                let (app, fresh) = after_snapshots(
                    old(self).deep_view(),
                    snapshots.deep_view(),
                    now,
                );
                let worked = after_operations(app, operations.deep_view(), now);
                let quiet = after_notice(worked, now);
                &&& final(self).deep_view() == after_pulse(quiet, now)
                &&& news.0 == (fresh || operations.len() > 0 || notice_expired(worked, now)
                    || pulses(quiet, now))
                &&& news.1 == (last_result(operations.deep_view()) is Some)
            }),
    {
        let fresh = self.poll_snapshot_events(snapshots, now);
        let (changed, finished) = self.poll_operation_events(operations, now);
        let cleared = self.clear_transient_notice(now);
        let pulsed = self.pulse(now);
        (fresh || changed || cleared || pulsed, finished)
    }

    /// How long to wait for a key, in milliseconds.
    pub fn poll_timeout(&self) -> (milliseconds: u64)
        ensures
            milliseconds == if animated(self.deep_view()) {
                75u64
            } else {
                150u64
            },
    {
        if self.needs_animation() {
            75
        } else {
            150
        }
    }

    /// The worktree that is selected.
    pub fn selected_worktree(&self) -> (row: Option<&WorktreeRow>)
        ensures
            match row {
                Some(row) => {
                    &&& self.selected < self.snapshot.worktrees.len()
                    &&& *row == self.snapshot.worktrees[self.selected as int]
                },
                None => self.selected >= self.snapshot.worktrees.len(),
            },
    {
        if self.selected < self.snapshot.worktrees.len() {
            Some(&self.snapshot.worktrees[self.selected])
        } else {
            None
        }
    }

    /// The operation that is shown: the one that is running, or else the last one.
    pub fn visible_operation(&self) -> (operation: Option<&RunningOperation>)
        ensures
            match operation {
                Some(operation) => shown_operation(self.deep_view()) == Some(
                    operation.deep_view(),
                ),
                None => shown_operation(self.deep_view()) is None,
            },
    {
        match &self.operation {
            Some(operation) => Some(operation),
            None => match &self.last_operation {
                Some(operation) => Some(operation),
                None => None,
            },
        }
    }

    /// Starts an operation, unless one is running.
    pub fn begin_operation(&mut self, kind: OperationKind, now: u64) -> (action: Action)
        ensures
            (final(self).deep_view(), action.deep_view()) == after_start(
                old(self).deep_view(),
                kind.deep_view(),
                now,
            ),
    {
        if self.operation.is_some() {
            self.show_notice("Busy: operation running".to_owned(), now);
            return Action::Nothing;
        }
        let name = match &kind {
            OperationKind::Merge(label) => "merge ".to_owned().concat(label.as_str()),
            OperationKind::MergeAll => "merge all".to_owned(),
            OperationKind::RebaseAll => "rebase all".to_owned(),
            OperationKind::Deploy => "deploy".to_owned(),
        };
        let label = match &kind {
            OperationKind::Merge(label) => label.clone(),
            _ => String::new(),
        };
        assert(label@ =~= kind_label(kind.deep_view()));
        let fresh = RunningOperation::default();
        self.operation = Some(
            RunningOperation {
                name,
                label,
                lines: fresh.lines,
                result: fresh.result,
                ok: fresh.ok,
                done: fresh.done,
            },
        );
        self.last_operation = None;
        Action::Start(kind)
    }
}

fn keep_last(lines: Vec<String>) -> (kept: Vec<String>)
    ensures
        kept.deep_view() == last_lines(lines.deep_view(), KEPT_LINES as nat),
{
    assert(lines.deep_view().len() == lines.len());
    if lines.len() <= KEPT_LINES {
        return lines;
    }
    let start: usize = lines.len() - KEPT_LINES;
    let mut kept: Vec<String> = Vec::new();
    let mut i: usize = start;
    while i < lines.len()
        invariant
            start <= i <= lines.len(),
            kept.len() == i - start,
            forall|j: int| 0 <= j < kept.len() ==> (#[trigger] kept[j])@ == lines[start + j]@,
        decreases lines.len() - i,
    {
        kept.push(lines[i].clone());
        i = i + 1;
    }
    assert(kept.deep_view() =~= last_lines(lines.deep_view(), KEPT_LINES as nat));
    kept
}

fn time_since(now: u64, then: u64) -> (span: u64)
    ensures
        span == elapsed(now, then),
{
    if now >= then {
        now - then
    } else {
        0
    }
}

/// How long the snapshot worker still waits for a request, in nanoseconds, when
/// its last snapshot is `age` old.
pub fn snapshot_wait(age: u64) -> (wait: u64)
    ensures
        wait == elapsed(SNAPSHOT_INTERVAL, age),
{
    time_since(SNAPSHOT_INTERVAL, age)
}

/// Does what a key stands for.
pub fn handle_key(app: &mut AppState, key: Key, control: bool, now: u64) -> (action: Action)
    requires
        (key == Key::Down || key == Key::Char('j')) && old(app).snapshot.worktrees.len() > 0
            ==> old(app).selected < usize::MAX,
    ensures
        (final(app).deep_view(), action.deep_view()) == after_key(
            old(app).deep_view(),
            key,
            control,
            now,
        ),
{
    if control && key == Key::Char('c') {
        return Action::Quit;
    }
    let len = app.snapshot.worktrees.len();
    match key {
        Key::Char('q') => Action::Quit,
        Key::Char('r') => Action::Refresh,
        Key::Down | Key::Char('j') => {
            if len > 0 {
                app.selected = (app.selected + 1) % len;
            }
            Action::Nothing
        },
        Key::Up | Key::Char('k') => {
            if len > 0 {
                app.selected = if app.selected == 0 {
                    len - 1
                } else {
                    app.selected - 1
                };
            }
            Action::Nothing
        },
        Key::Char('m') => match app.selected_worktree() {
            Some(row) => {
                let label = row.label.clone();
                app.begin_operation(OperationKind::Merge(label), now)
            },
            None => {
                app.show_notice("Merge blocked: no worktree selected".to_owned(), now);
                Action::Nothing
            },
        },
        Key::Char('M') => app.begin_operation(OperationKind::MergeAll, now),
        Key::Char('u') => app.begin_operation(OperationKind::RebaseAll, now),
        Key::Char('d') => app.begin_operation(OperationKind::Deploy, now),
        _ => Action::Nothing,
    }
}

/// The dashboard opens sound.
pub proof fn dashboards_open_sound(config: ConfigView, now: u64)
    ensures
        sound(opening(config, now)),
{
}

/// A key keeps the dashboard sound.
pub proof fn keys_keep_the_dashboard_sound(app: AppView, key: Key, control: bool, now: u64)
    requires
        sound(app),
    ensures
        sound(after_key(app, key, control, now).0),
{
    let len = app.snapshot.worktrees.len();
    if len > 0 {
        assert((app.selected + 1) % len < len) by (nonlinear_arith)
            requires
                len > 0,
        ;
    }
}

/// News from the snapshot worker keep the dashboard sound, however many rows come
/// or go.
pub proof fn snapshots_keep_the_dashboard_sound(app: AppView, news: Seq<SnapshotNews>, now: u64)
    requires
        sound(app),
    ensures
        sound(after_snapshots(app, news, now).0),
    decreases news.len(),
{
    if news.len() > 0 {
        snapshots_keep_the_dashboard_sound(app, news.drop_last(), now);
    }
}

/// News from the operation worker keep the dashboard sound, however many lines
/// come.
pub proof fn operations_keep_the_dashboard_sound(
    app: AppView,
    news: Seq<OperationNews>,
    now: u64,
)
    requires
        sound(app),
    ensures
        sound(after_operations(app, news, now)),
{
    lemma_lines_are_bounded(app.operation, news);
}

proof fn lemma_lines_are_bounded(operation: Option<OperationView>, news: Seq<OperationNews>)
    requires
        operation matches Some(running) ==> running.lines.len() <= KEPT_LINES,
    ensures
        after_lines(operation, news) matches Some(running) ==> running.lines.len() <= KEPT_LINES,
    decreases news.len(),
{
    if news.len() > 0 {
        lemma_lines_are_bounded(operation, news.drop_last());
    }
}

/// Time keeps the dashboard sound.
pub proof fn time_keeps_the_dashboard_sound(app: AppView, now: u64)
    requires
        sound(app),
    ensures
        sound(after_notice(app, now)),
        sound(after_pulse(app, now)),
{
}

/// Only one operation runs at a time: while one is running no key starts another,
/// nor takes it away; and what a key starts is running from then on.
pub proof fn one_operation_at_a_time(app: AppView, key: Key, control: bool, now: u64)
    ensures
        ({
            let (after, action) = after_key(app, key, control, now);
            &&& app.operation is Some ==> action !is Start && after.operation == app.operation
            &&& action matches ActionView::Start(kind) ==> after.operation == Some(
                started(kind_name(kind), kind_label(kind)),
            )
            &&& action !is Start ==> after.operation == app.operation
        }),
{
}

/// To go down and then up again, or up and then down again, selects what was
/// selected before.
pub proof fn up_undoes_down(selected: nat, len: nat)
    requires
        selected < len,
    ensures
        next_row(selected, len) < len,
        previous_row(selected, len) < len,
        previous_row(next_row(selected, len), len) == selected,
        next_row(previous_row(selected, len), len) == selected,
{
    if selected + 1 < len {
        vstd::arithmetic::div_mod::lemma_small_mod(selected + 1, len);
    } else {
        vstd::arithmetic::div_mod::lemma_mod_self_0(len as int);
    }
    vstd::arithmetic::div_mod::lemma_small_mod(selected, len);
    vstd::arithmetic::div_mod::lemma_mod_self_0(len as int);
}

/// The lines that news from the operation worker hold, in order.
pub open spec fn lines_in(news: Seq<OperationNews>) -> Seq<Seq<char>>
    decreases news.len(),
{
    if news.len() == 0 {
        seq![]
    } else {
        match news.last() {
            OperationNews::Line(line) => lines_in(news.drop_last()).push(line),
            OperationNews::Done(result) => lines_in(news.drop_last()),
        }
    }
}

/// Of all the lines of an operation the last ones are kept, in order, as many as
/// may be; nothing else of it changes.
pub proof fn the_last_lines_are_kept(operation: OperationView, news: Seq<OperationNews>)
    requires
        operation.lines.len() <= KEPT_LINES,
    ensures
        after_lines(Some(operation), news) == Some(
            OperationView {
                lines: last_lines(operation.lines + lines_in(news), KEPT_LINES as nat),
                ..operation
            },
        ),
    decreases news.len(),
{
    let kept = KEPT_LINES as nat;
    let all = operation.lines + lines_in(news);
    if news.len() == 0 {
        assert(all =~= operation.lines);
    } else {
        the_last_lines_are_kept(operation, news.drop_last());
        let before = operation.lines + lines_in(news.drop_last());
        if let OperationNews::Line(line) = news.last() {
            assert(all =~= before.push(line));
            assert(last_lines(last_lines(before, kept).push(line), kept) =~= last_lines(
                all,
                kept,
            ));
        }
    }
}

/// A notice stays for a while and then goes, unless an operation is running.
pub proof fn notices_go_in_the_end(app: AppView, notice: Seq<char>, then: u64, now: u64)
    ensures
        ({
            let shown = noticed(app, notice, then);
            &&& elapsed(now, then) < TRANSIENT_TTL ==> after_notice(shown, now) == shown
            &&& app.operation is None && elapsed(now, then) >= TRANSIENT_TTL ==> after_notice(
                shown,
                now,
            ).notice.len() == 0
            &&& app.operation is Some ==> after_notice(shown, now) == shown
        }),
{
}

}
