//! What the dashboard does on every key, on news and as time goes by: which parts of
//! it change, to what, and that all others stay.
use vstd::prelude::*;

use crate::config::ConfigView;
use crate::model;
use crate::model::{RepoView, RowView, SnapshotView};
use crate::ops::ResultView;
use crate::paths;
use crate::ui;
use crate::ui::{ActionView, AppView, Key, KindView, OperationNews, OperationView, SnapshotNews};

verus! {

/// A notice has come to the dashboard, and nothing else has changed but that the last
/// operation is no longer shown.
pub open spec fn has_notice(app: AppView, after: AppView, notice: Seq<char>, now: u64) -> bool {
    after == AppView { notice, notice_at: Some(now), last_operation: None, ..app }
}

/// An operation starts, by its name and what it is about, where none is running; else
/// the dashboard says that it is busy, and the running one goes on.
pub open spec fn starts(
    app: AppView,
    after: AppView,
    action: ActionView,
    kind: KindView,
    name: Seq<char>,
    label: Seq<char>,
    now: u64,
) -> bool {
    if app.operation is Some {
        &&& action == ActionView::Nothing
        &&& has_notice(app, after, "Busy: operation running"@, now)
    } else {
        &&& action == ActionView::Start(kind)
        &&& after == AppView {
            operation: Some(
                OperationView {
                    name,
                    label,
                    lines: seq![],
                    result: seq![],
                    ok: None,
                    done: false,
                },
            ),
            last_operation: None,
            ..app
        }
    }
}

/// Every operation starts under its own name, and only a merge of one worktree is about
/// a worktree.
pub proof fn operations_start_under_their_names(app: AppView, label: Seq<char>, now: u64)
    ensures
        ({
            let kind = KindView::Merge(label);
            let (after, action) = ui::after_start(app, kind, now);
            starts(app, after, action, kind, "merge "@ + label, label, now)
        }),
        ({
            let (after, action) = ui::after_start(app, KindView::MergeAll, now);
            starts(app, after, action, KindView::MergeAll, "merge all"@, seq![], now)
        }),
        ({
            let (after, action) = ui::after_start(app, KindView::RebaseAll, now);
            starts(app, after, action, KindView::RebaseAll, "rebase all"@, seq![], now)
        }),
        ({
            let (after, action) = ui::after_start(app, KindView::Deploy, now);
            starts(app, after, action, KindView::Deploy, "deploy"@, seq![], now)
        }),
{
}

/// The keys do what they stand for, whatever the dashboard shows: one letter quits, one
/// refreshes, two keys go down a row and two go up, round the ends; and four letters
/// start an operation. All others do nothing.
pub proof fn keys_do_what_they_stand_for(app: AppView, key: Key, control: bool, now: u64)
    ensures
        ({
            let (after, action) = ui::after_key(app, key, control, now);
            let rows = app.snapshot.worktrees;
            let quits = key == Key::Char('q') || control && key == Key::Char('c');
            let down = key == Key::Down || key == Key::Char('j');
            let up = key == Key::Up || key == Key::Char('k');
            &&& action == ActionView::Quit <==> quits
            &&& action == ActionView::Refresh <==> key == Key::Char('r')
            &&& quits || key == Key::Char('r') ==> after == app
            &&& (down || up) && rows.len() == 0 ==> after == app && action == ActionView::Nothing
            &&& (down || up) && rows.len() > 0 ==> {
                &&& action == ActionView::Nothing
                &&& after == AppView { selected: after.selected, ..app }
            }
            &&& down && rows.len() > 0 ==> after.selected == (app.selected + 1) % rows.len()
            &&& down && app.selected + 1 < rows.len() ==> after.selected == app.selected + 1
            &&& down && app.selected + 1 == rows.len() ==> after.selected == 0
            &&& up && rows.len() > 0 && app.selected == 0 ==> after.selected == rows.len() - 1
            &&& up && rows.len() > 0 && app.selected > 0 ==> after.selected == app.selected - 1
            &&& key == Key::Char('m') && app.selected < rows.len() ==> {
                let label = rows[app.selected as int].label;
                starts(app, after, action, KindView::Merge(label), "merge "@ + label, label, now)
            }
            &&& key == Key::Char('m') && app.selected >= rows.len() ==> {
                &&& action == ActionView::Nothing
                &&& has_notice(app, after, "Merge blocked: no worktree selected"@, now)
            }
            &&& key == Key::Char('M') ==> starts(
                app,
                after,
                action,
                KindView::MergeAll,
                "merge all"@,
                seq![],
                now,
            )
            &&& key == Key::Char('u') ==> starts(
                app,
                after,
                action,
                KindView::RebaseAll,
                "rebase all"@,
                seq![],
                now,
            )
            &&& key == Key::Char('d') ==> starts(
                app,
                after,
                action,
                KindView::Deploy,
                "deploy"@,
                seq![],
                now,
            )
            &&& !quits && !down && !up && key != Key::Char('r') && key != Key::Char('m') && key
                != Key::Char('M') && key != Key::Char('u') && key != Key::Char('d') ==> after
                == app && action == ActionView::Nothing
        }),
{
    let len = app.snapshot.worktrees.len();
    if app.selected + 1 < len {
        vstd::arithmetic::div_mod::lemma_small_mod(app.selected + 1, len);
    } else if app.selected + 1 == len {
        vstd::arithmetic::div_mod::lemma_mod_self_0(len as int);
    }
}

/// Two states of a checkout are the same: nothing of them differs, and their paths are
/// equal as paths.
pub open spec fn shows_same_repo(left: RepoView, right: RepoView) -> bool {
    &&& paths::equal_paths(left.path, right.path)
    &&& left.branch == right.branch
    &&& left.dirty == right.dirty
    &&& left.summary == right.summary
}

/// Two rows are the same: nothing of them differs, and their paths are equal as paths.
pub open spec fn shows_same_row(left: RowView, right: RowView) -> bool {
    &&& paths::equal_paths(left.path, right.path)
    &&& left.label == right.label
    &&& left.branch == right.branch
    &&& left.current_branch == right.current_branch
    &&& left.state == right.state
    &&& left.dirty == right.dirty
    &&& left.summary == right.summary
    &&& left.ahead == right.ahead
    &&& left.behind == right.behind
    &&& left.subject == right.subject
}

/// Two snapshots are the same exactly where nothing that they show differs.
pub proof fn snapshots_differ_in_what_they_show(left: SnapshotView, right: SnapshotView)
    ensures
        model::same_snapshot(left, right) <==> {
            &&& left.base_branch == right.base_branch
            &&& shows_same_repo(left.repo, right.repo)
            &&& left.worktrees.len() == right.worktrees.len()
            &&& forall|i: int|
                0 <= i < left.worktrees.len() ==> shows_same_row(
                    #[trigger] left.worktrees[i],
                    right.worktrees[i],
                )
        },
{
    assert(forall|i: int|
        0 <= i < left.worktrees.len() && 0 <= i < right.worktrees.len() ==> (model::same_row(
            #[trigger] left.worktrees[i],
            right.worktrees[i],
        ) <==> shows_same_row(left.worktrees[i], right.worktrees[i])));
}

/// A snapshot is shown where the first one is awaited, or where it is not the same as
/// the one that is shown. What is selected stays selected, or else the last row is. A
/// snapshot that is the same, once one is shown, changes nothing and is no news. An
/// error is always news, and is told in a notice.
pub proof fn snapshots_are_taken_note_of(
    app: AppView,
    snapshot: SnapshotView,
    error: Seq<char>,
    now: u64,
)
    ensures
        ({
            let news = SnapshotNews::Snapshot(snapshot);
            let after = ui::after_snapshot_news(app, news, now);
            let len = snapshot.worktrees.len();
            let fresh = app.loading || !model::same_snapshot(snapshot, app.snapshot);
            &&& ui::snapshot_news_matter(app, news) == fresh
            &&& !fresh ==> after == app
            &&& fresh ==> after == AppView {
                snapshot,
                loading: false,
                selected: after.selected,
                ..app
            }
            &&& fresh && app.selected < len ==> after.selected == app.selected
            &&& fresh && app.selected >= len && len > 0 ==> after.selected == len - 1
            &&& fresh && len == 0 ==> after.selected == 0
        }),
        ({
            let news = SnapshotNews::Error(error);
            let after = ui::after_snapshot_news(app, news, now);
            &&& ui::snapshot_news_matter(app, news)
            &&& has_notice(
                AppView { loading: false, ..app },
                after,
                "Refresh failed: "@ + error,
                now,
            )
        }),
{
}

/// Snapshots are taken note of one by one: what comes first does so first, and there
/// is something new to show where any of them is news.
pub proof fn snapshots_come_one_by_one(
    app: AppView,
    first: Seq<SnapshotNews>,
    second: Seq<SnapshotNews>,
    one: SnapshotNews,
    now: u64,
)
    ensures
        ui::after_snapshots(app, seq![], now) == (app, false),
        ui::after_snapshots(app, seq![one], now) == (
            ui::after_snapshot_news(app, one, now),
            ui::snapshot_news_matter(app, one),
        ),
        ({
            let (between, early) = ui::after_snapshots(app, first, now);
            let (after, late) = ui::after_snapshots(between, second, now);
            ui::after_snapshots(app, first + second, now) == (after, early || late)
        }),
    decreases second.len(),
{
    assert(seq![one].drop_last() =~= seq![]);
    assert(ui::after_snapshots(app, seq![one].drop_last(), now) == (app, false));
    if second.len() == 0 {
        assert(first + second =~= first);
    } else {
        snapshots_come_one_by_one(app, first, second.drop_last(), one, now);
        assert((first + second).drop_last() =~= first + second.drop_last());
    }
}

/// News `i` is the last one that ends the operation, with a result.
pub open spec fn ends_last(news: Seq<OperationNews>, i: int, result: ResultView) -> bool {
    &&& 0 <= i < news.len()
    &&& news[i] == OperationNews::Done(result)
    &&& forall|j: int| i < j < news.len() ==> (#[trigger] news[j]) is Line
}

/// The last news that ends the operation does so with a result.
pub open spec fn ends_with(news: Seq<OperationNews>, result: ResultView) -> bool {
    exists|i: int| #[trigger] ends_last(news, i, result)
}

/// No news ends the operation.
pub open spec fn goes_on(news: Seq<OperationNews>) -> bool {
    forall|i: int| 0 <= i < news.len() ==> (#[trigger] news[i]) is Line
}

/// An operation has ended where its news say so, and the last one that does tells how.
pub proof fn the_last_result_counts(news: Seq<OperationNews>)
    ensures
        ui::last_result(news) is None ==> goes_on(news),
        ui::last_result(news) is Some ==> ends_with(news, ui::last_result(news)->Some_0),
    decreases news.len(),
{
    if news.len() > 0 {
        let before = news.drop_last();
        the_last_result_counts(before);
        match news.last() {
            OperationNews::Done(result) => {
                assert(ends_last(news, news.len() - 1, result));
            },
            OperationNews::Line(line) => {
                assert(ui::last_result(news) == ui::last_result(before));
                assert forall|j: int| 0 <= j < news.len() && (j < before.len()
                    ==> before[j] is Line) implies (#[trigger] news[j]) is Line by {}
                match ui::last_result(before) {
                    Some(result) => {
                        let i = choose|i: int| #[trigger] ends_last(before, i, result);
                        assert(ends_last(before, i, result));
                        assert(ends_last(news, i, result));
                    },
                    None => {
                        assert(goes_on(before));
                        assert(goes_on(news));
                    },
                }
            },
        }
    }
}

/// The lines that are kept of all lines: the last eighty, in order.
pub open spec fn are_kept(all: Seq<Seq<char>>, kept: Seq<Seq<char>>) -> bool {
    &&& all.len() <= 80 ==> kept == all
    &&& all.len() > 80 ==> kept.len() == 80 && kept == all.subrange(
        all.len() - 80,
        all.len() as int,
    )
}

/// News of an operation that is running: its lines are kept, the last eighty of them.
/// Where it has ended, it is the last operation from then on, with its result, which is
/// the notice too. Without a running operation nothing changes.
pub proof fn operations_are_taken_note_of(app: AppView, news: Seq<OperationNews>, now: u64)
    requires
        ui::sound(app),
    ensures
        ({
            let after = ui::after_operations(app, news, now);
            match app.operation {
                None => after == app,
                Some(running) => {
                    let all = running.lines + ui::lines_in(news);
                    &&& goes_on(news) ==> {
                        let lines = after.operation->Some_0.lines;
                        &&& are_kept(all, lines)
                        &&& after == AppView {
                            operation: Some(OperationView { lines, ..running }),
                            ..app
                        }
                    }
                    &&& forall|i: int, result: ResultView| #[trigger]
                        ends_last(news, i, result) ==> {
                            let lines = after.last_operation->Some_0.lines;
                            &&& are_kept(all, lines)
                            &&& after == AppView {
                                operation: None,
                                last_operation: Some(
                                    OperationView {
                                        name: running.name,
                                        label: running.label,
                                        lines,
                                        result: result.message,
                                        ok: Some(result.ok),
                                        done: true,
                                    },
                                ),
                                notice: result.message,
                                notice_at: Some(now),
                                ..app
                            }
                        }
                },
            }
        }),
{
    the_last_result_counts(news);
    match app.operation {
        None => {
            lemma_no_lines(news);
        },
        Some(running) => {
            let all = running.lines + ui::lines_in(news);
            ui::the_last_lines_are_kept(running, news);
            if all.len() > 80 {
                assert(all.skip(all.len() - 80) =~= all.subrange(
                    all.len() - 80,
                    all.len() as int,
                ));
            }
            assert forall|i: int, result: ResultView| #[trigger]
                ends_last(news, i, result) implies ui::last_result(news) == Some(result) by {
                lemma_one_last(news, i, result);
            }
            if goes_on(news) && ui::last_result(news) is Some {
                let result = ui::last_result(news)->Some_0;
                let i = choose|i: int| #[trigger] ends_last(news, i, result);
                assert(news[i] is Line);
            }
        },
    }
}

proof fn lemma_no_lines(news: Seq<OperationNews>)
    ensures
        ui::after_lines(None, news) is None,
    decreases news.len(),
{
    if news.len() > 0 {
        lemma_no_lines(news.drop_last());
    }
}

proof fn lemma_one_last(news: Seq<OperationNews>, i: int, result: ResultView)
    requires
        ends_last(news, i, result),
    ensures
        ui::last_result(news) == Some(result),
{
    the_last_result_counts(news);
    match ui::last_result(news) {
        None => {
            assert(news[i] is Line);
        },
        Some(other) => {
            let j = choose|j: int| #[trigger] ends_last(news, j, other);
            if i < j {
                assert(news[j] is Line);
            } else if j < i {
                assert(news[i] is Line);
            }
        },
    }
}

/// A notice goes exactly where it has been there for twenty seconds, and no operation is
/// running; with it goes the last operation.
pub proof fn notices_stay_for_their_time(app: AppView, now: u64)
    ensures
        ({
            let goes = app.operation is None && (app.notice_at matches Some(then) && now - then
                >= 20_000_000_000);
            let after = ui::after_notice(app, now);
            &&& ui::notice_expired(app, now) == goes
            &&& goes ==> after == AppView {
                notice: seq![],
                notice_at: None,
                last_operation: None,
                ..app
            }
            &&& !goes ==> after == app
        }),
{
}

/// The light changes exactly where something is going on and it has stayed as it is for
/// a third of a second and a little more; then the time counts anew.
pub proof fn the_light_changes_while_work_goes_on(app: AppView, now: u64)
    ensures
        ({
            let busy = app.loading || (app.operation matches Some(operation) && !operation.done);
            let changes = busy && now - app.last_pulse >= 350_000_000;
            let after = ui::after_pulse(app, now);
            &&& ui::animated(app) == busy
            &&& ui::pulses(app, now) == changes
            &&& changes ==> after == AppView {
                pulse_on: !app.pulse_on,
                last_pulse: now,
                ..app
            }
            &&& !changes ==> after == app
        }),
{
}

/// The snapshot worker waits until its last snapshot is two seconds old.
pub proof fn snapshots_come_every_other_second(age: u64)
    ensures
        age < 2_000_000_000 ==> ui::elapsed(ui::SNAPSHOT_INTERVAL, age) + age == 2_000_000_000,
        age >= 2_000_000_000 ==> ui::elapsed(ui::SNAPSHOT_INTERVAL, age) == 0,
{
}

/// The operation that is shown is the running one, and the last one only without it.
pub proof fn running_operations_are_shown_first(app: AppView)
    ensures
        app.operation is Some ==> ui::shown_operation(app) == app.operation,
        app.operation is None ==> ui::shown_operation(app) == app.last_operation,
{
}

/// The dashboard opens with nothing on it but what the settings tell, and awaits the
/// first snapshot.
pub proof fn dashboards_open_empty(config: ConfigView, now: u64)
    ensures
        ({
            let app = ui::opening(config, now);
            &&& app.config == config
            &&& app.snapshot.base_branch == config.base_branch
            &&& app.snapshot.repo.path == config.repo_path
            &&& app.snapshot.repo.branch.len() == 0
            &&& !app.snapshot.repo.dirty
            &&& app.snapshot.repo.summary == "loading"@
            &&& app.snapshot.worktrees.len() == 0
            &&& app.selected == 0
            &&& app.loading
            &&& app.notice.len() == 0
            &&& app.notice_at is None
            &&& app.operation is None
            &&& app.last_operation is None
            &&& !app.pulse_on
            &&& app.last_pulse == now
        }),
        ui::loading_view(config) == ui::opening(config, now).snapshot,
{
}

/// A notice can say anything.
pub proof fn notices_say_what_they_are_given(app: AppView, notice: Seq<char>, now: u64)
    ensures
        has_notice(app, ui::noticed(app, notice, now), notice, now),
{
}

/// An operation that has just started has written nothing and has no result.
pub proof fn operations_start_empty(name: Seq<char>, label: Seq<char>)
    ensures
        ({
            let operation = ui::started(name, label);
            &&& operation.name == name
            &&& operation.label == label
            &&& operation.lines.len() == 0
            &&& operation.result.len() == 0
            &&& operation.ok is None
            &&& !operation.done
        }),
{
}

}
