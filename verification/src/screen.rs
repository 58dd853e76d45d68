//! What the dashboard looks like: its words, its colours and its measures.
use vstd::prelude::*;

use crate::model;
use crate::model::{RowView, SnapshotView, WorktreeRow, WorktreeState};
use crate::number;
use crate::report;
use crate::report::distance_text;
use crate::text;
use crate::text::{contains, join, same_text, split, split_once, strip_prefix, to_ascii_lowercase};
use crate::ui;
use crate::ui::{AppState, AppView};
use crate::util;
use crate::util::compact;

verus! {

/// A colour by its parts of red, green and blue.
#[derive(Clone, Copy, Debug, PartialEq, Eq, Structural)]
pub struct Rgb {
    pub red: u8,
    pub green: u8,
    pub blue: u8,
}

/// How text is painted. Where no colour is given the terminal's own is kept.
#[derive(Clone, Copy, Debug, PartialEq, Eq, Structural)]
pub struct Paint {
    pub fg: Option<Rgb>,
    pub bg: Option<Rgb>,
    pub bold: bool,
}

/// A piece of text and how it is painted.
#[derive(Clone, Debug, PartialEq, Eq)]
pub struct Span {
    pub text: String,
    pub paint: Paint,
}

/// A piece of painted text, by the text that it holds.
pub struct SpanView {
    pub text: Seq<char>,
    pub paint: Paint,
}

/// How much room a part of the screen takes.
#[derive(Clone, Copy, Debug, PartialEq, Eq, Structural)]
pub enum Extent {
    Length(u16),
    Min(u16),
    Percentage(u16),
}

impl DeepView for Span {
    type V = SpanView;

    open spec fn deep_view(&self) -> SpanView {
        SpanView { text: self.text@, paint: self.paint }
    }
}

/// Paint of one colour.
pub open spec fn ink(red: u8, green: u8, blue: u8, bold: bool) -> Paint {
    Paint { fg: Some(Rgb { red, green, blue }), bg: None, bold }
}

/// No paint.
pub open spec fn unpainted() -> Paint {
    Paint { fg: None, bg: None, bold: false }
}

fn mixed(red: u8, green: u8, blue: u8, bold: bool) -> (paint: Paint)
    ensures
        paint == ink(red, green, blue, bold),
{
    Paint { fg: Some(Rgb { red, green, blue }), bg: None, bold }
}

/// The paint of the program's name.
pub fn title_style() -> (paint: Paint)
    ensures
        paint == ink(248, 250, 252, true),
{
    mixed(248, 250, 252, true)
}

/// The paint of the base branch.
pub fn model_style() -> (paint: Paint)
    ensures
        paint == ink(56, 189, 248, true),
{
    mixed(56, 189, 248, true)
}

/// The paint of ordinary text.
pub fn text_style() -> (paint: Paint)
    ensures
        paint == ink(226, 232, 240, false),
{
    mixed(226, 232, 240, false)
}

/// The paint of what matters less.
pub fn muted_style() -> (paint: Paint)
    ensures
        paint == ink(100, 116, 139, false),
{
    mixed(100, 116, 139, false)
}

/// The paint of a table's header.
pub fn header_style() -> (paint: Paint)
    ensures
        paint == ink(148, 163, 184, true),
{
    mixed(148, 163, 184, true)
}

/// The paint of a border.
pub fn border_style() -> (paint: Paint)
    ensures
        paint == ink(30, 64, 112, false),
{
    mixed(30, 64, 112, false)
}

/// The paint of the selected row.
pub fn selected_style() -> (paint: Paint)
    ensures
        paint == (Paint {
            bg: Some(Rgb { red: 14, green: 116, blue: 144 }),
            ..ink(248, 250, 252, true)
        }),
{
    Paint {
        fg: Some(Rgb { red: 248, green: 250, blue: 252 }),
        bg: Some(Rgb { red: 14, green: 116, blue: 144 }),
        bold: true,
    }
}

/// The paint of the light while it is on.
pub fn pulse_style() -> (paint: Paint)
    ensures
        paint == ink(125, 249, 255, true),
{
    mixed(125, 249, 255, true)
}

/// The paint that a mood has.
pub open spec fn mood_paint(mood: Seq<char>) -> Paint {
    if mood == "ready"@ {
        ink(34, 197, 94, true)
    } else if mood == "working"@ {
        ink(34, 211, 238, true)
    } else if mood == "blocked"@ {
        ink(251, 113, 133, true)
    } else if mood == "done"@ {
        ink(74, 222, 128, true)
    } else {
        ink(100, 116, 139, false)
    }
}

/// The paint that a mood has.
pub fn style_for(mood: &str) -> (paint: Paint)
    ensures
        paint == mood_paint(mood@),
{
    if same_text(mood, "ready") {
        mixed(34, 197, 94, true)
    } else if same_text(mood, "working") {
        mixed(34, 211, 238, true)
    } else if same_text(mood, "blocked") {
        mixed(251, 113, 133, true)
    } else if same_text(mood, "done") {
        mixed(74, 222, 128, true)
    } else {
        muted_style()
    }
}

/// The paint of a worktree's row.
pub open spec fn row_paint(state: WorktreeState) -> Paint {
    match state {
        WorktreeState::Ready => mood_paint("ready"@),
        WorktreeState::Dirty => ink(250, 204, 21, false),
        WorktreeState::Missing => ink(250, 204, 21, false),
        WorktreeState::WrongBranch => ink(250, 204, 21, false),
        WorktreeState::Behind => ink(232, 121, 249, false),
        WorktreeState::Merged => ink(100, 116, 139, false),
    }
}

/// The paint of a worktree's row.
pub fn worktree_style(state: WorktreeState) -> (paint: Paint)
    ensures
        paint == row_paint(state),
{
    match state {
        WorktreeState::Ready => style_for("ready"),
        WorktreeState::Dirty | WorktreeState::Missing | WorktreeState::WrongBranch => mixed(
            250,
            204,
            21,
            false,
        ),
        WorktreeState::Behind => mixed(232, 121, 249, false),
        WorktreeState::Merged => muted_style(),
    }
}

/// The paint of a line of recent activity, by the words in it.
pub open spec fn line_paint(line: Seq<char>) -> Paint {
    let lower = text::small_letters(line);
    if text::holds(lower, "blocked"@) || text::holds(lower, "failed"@) || text::holds(
        lower,
        "conflict"@,
    ) {
        mood_paint("blocked"@)
    } else if text::holds(lower, "merged"@) || text::holds(lower, "rebased"@) || text::holds(
        lower,
        "completed"@,
    ) {
        mood_paint("done"@)
    } else if text::behind(line, "$"@) is Some || text::holds(line, ": $"@) {
        ink(100, 116, 139, false)
    } else {
        ink(226, 232, 240, false)
    }
}

/// The paint of a line of recent activity.
pub fn recent_style(line: &str) -> (paint: Paint)
    ensures
        paint == line_paint(line@),
{
    let lower = to_ascii_lowercase(line);
    let lower = lower.as_str();
    if contains(lower, "blocked") || contains(lower, "failed") || contains(lower, "conflict") {
        style_for("blocked")
    } else if contains(lower, "merged") || contains(lower, "rebased") || contains(
        lower,
        "completed",
    ) {
        style_for("done")
    } else if strip_prefix(line, "$").is_some() || contains(line, ": $") {
        muted_style()
    } else {
        text_style()
    }
}

/// Whether a notice tells of something that did not work.
pub open spec fn tells_failure(notice: Seq<char>) -> bool {
    let lower = text::small_letters(notice);
    text::holds(lower, "blocked"@) || text::holds(lower, "failed"@)
}

/// The heading, the mood and the parts of the summary of a snapshot.
pub open spec fn snapshot_line(summary: Seq<char>) -> (Seq<char>, Seq<char>, Seq<Seq<char>>) {
    let (label, parts) = match text::halves(summary, " - "@) {
        Some((label, rest)) => (label, text::pieces(rest, ", "@)),
        None => ("Idle"@, seq![summary]),
    };
    let mood = if label == "Ready"@ {
        "ready"@
    } else if label == "Blocked"@ {
        "blocked"@
    } else {
        "muted"@
    };
    (label, mood, parts)
}

/// The heading, the mood and the parts of what the dashboard has to say first.
pub open spec fn headline(app: AppView) -> (Seq<char>, Seq<char>, Seq<Seq<char>>) {
    if app.loading {
        ("Working"@, "working"@, seq!["loading status"@])
    } else {
        match ui::shown_operation(app) {
            Some(operation) => if !operation.done {
                ("Working"@, "working"@, seq![operation.name + " running"@])
            } else if operation.ok == Some(false) {
                ("Blocked"@, "blocked"@, seq![operation.result])
            } else {
                ("Done"@, "done"@, seq![operation.result])
            },
            None => if app.notice.len() > 0 {
                if tells_failure(app.notice) {
                    ("Blocked"@, "blocked"@, seq![app.notice])
                } else {
                    ("Done"@, "done"@, seq![app.notice])
                }
            } else {
                snapshot_line(model::summary_text(app.snapshot))
            },
        }
    }
}

fn only(part: String) -> (parts: Vec<String>)
    ensures
        parts.deep_view() == seq![part@],
{
    let mut parts: Vec<String> = Vec::new();
    parts.push(part);
    assert(parts.deep_view() =~= seq![part@]);
    parts
}

/// Says first what matters most.
pub fn summary_line(app: &AppState) -> (line: (String, &'static str, Vec<String>))
    ensures
        (line.0@, line.1@, line.2.deep_view()) == headline(app.deep_view()),
{
    if app.loading {
        return ("Working".to_owned(), "working", only("loading status".to_owned()));
    }
    if let Some(operation) = app.visible_operation() {
        if !operation.done {
            return (
                "Working".to_owned(),
                "working",
                only(operation.name.clone().concat(" running")),
            );
        }
        let blocked = match operation.ok {
            Some(ok) => !ok,
            None => false,
        };
        if blocked {
            return ("Blocked".to_owned(), "blocked", only(operation.result.clone()));
        }
        return ("Done".to_owned(), "done", only(operation.result.clone()));
    }
    if !app.notice.as_str().is_empty() {
        let lower = to_ascii_lowercase(app.notice.as_str());
        if contains(lower.as_str(), "blocked") || contains(lower.as_str(), "failed") {
            return ("Blocked".to_owned(), "blocked", only(app.notice.clone()));
        }
        return ("Done".to_owned(), "done", only(app.notice.clone()));
    }
    let summary = app.snapshot.summary();
    proof {
        reveal_strlit(", ");
    }
    let (label, parts) = match split_once(summary.as_str(), " - ") {
        Some((label, rest)) => (label, split(rest.as_str(), ", ")),
        None => ("Idle".to_owned(), only(summary)),
    };
    let mood = if same_text(label.as_str(), "Ready") {
        "ready"
    } else if same_text(label.as_str(), "Blocked") {
        "blocked"
    } else {
        "muted"
    };
    (label, mood, parts)
}

/// The sign that goes with a heading.
pub open spec fn sign_of(label: Seq<char>) -> Seq<char> {
    if label == "Working"@ {
        ">"@
    } else if label == "Ready"@ {
        "+"@
    } else if label == "Blocked"@ {
        "!"@
    } else if label == "Done"@ {
        "*"@
    } else {
        "-"@
    }
}

/// The sign that goes with a heading.
pub fn indicator(label: &str) -> (sign: &'static str)
    ensures
        sign@ == sign_of(label@),
{
    if same_text(label, "Working") {
        ">"
    } else if same_text(label, "Ready") {
        "+"
    } else if same_text(label, "Blocked") {
        "!"
    } else if same_text(label, "Done") {
        "*"
    } else {
        "-"
    }
}

/// How many of the lines of an operation are shown where `room` lines are left
/// and `head` lines stand above: those that fit, and one at least.
pub open spec fn shown_count(room: nat, head: nat, available: nat) -> nat {
    let fit = if head + 1 <= room {
        (room - head) as nat
    } else {
        1
    };
    if available <= fit {
        available
    } else {
        fit
    }
}

/// The lines of recent activity, where there is room for `limit` lines: how the
/// operation ended, if it has, and the first that fit of its last `limit` lines.
pub open spec fn recent_text(app: AppView, limit: nat) -> Seq<Seq<char>> {
    match ui::shown_operation(app) {
        None => seq!["No recent activity"@],
        Some(operation) => {
            let start = operation.name + ": "@;
            let head = if operation.result.len() == 0 {
                seq![]
            } else {
                seq![start + operation.result]
            };
            let last = ui::last_lines(operation.lines, limit);
            let shown = last.take(shown_count(limit, head.len(), last.len()) as int);
            let rows = head + shown.map_values(|line: Seq<char>| start + line);
            if rows.len() == 0 {
                seq!["No recent activity"@]
            } else {
                rows
            }
        },
    }
}

/// The lines of recent activity that are shown.
pub fn recent_lines(app: &AppState, limit: usize) -> (rows: Vec<String>)
    ensures
        rows.deep_view() == recent_text(app.deep_view(), limit as nat),
{
    let mut rows: Vec<String> = Vec::new();
    assert(rows.deep_view() =~= seq![]);
    if let Some(operation) = app.visible_operation() {
        let start = operation.name.clone().concat(": ");
        let ghost all = operation.lines.deep_view();
        let ghost view = operation.deep_view();
        assert(all.len() == operation.lines.len());
        if !operation.result.as_str().is_empty() {
            rows.push(start.clone().concat(operation.result.as_str()));
        }
        let ghost head = rows.deep_view();
        assert(head =~= if view.result.len() == 0 {
            seq![]
        } else {
            seq![start@ + view.result]
        });
        let first: usize = if operation.lines.len() <= limit {
            0
        } else {
            operation.lines.len() - limit
        };
        let ghost last = ui::last_lines(all, limit as nat);
        let ghost want = shown_count(limit as nat, head.len(), last.len());
        let ghost named = |line: Seq<char>| start@ + line;
        let mut i: usize = first;
        assert(rows.deep_view() =~= head + last.take(0).map_values(named));
        while i < operation.lines.len()
            invariant_except_break
                head.len() < limit || i == first,
                i == first || rows.len() < limit,
            invariant
                first <= i <= operation.lines.len(),
                all == operation.lines.deep_view(),
                last == ui::last_lines(all, limit as nat),
                last.len() == operation.lines.len() - first,
                first == operation.lines.len() - last.len(),
                operation.lines.len() <= limit ==> first == 0,
                operation.lines.len() > limit ==> first == operation.lines.len() - limit,
                head.len() <= 1,
                want == shown_count(limit as nat, head.len(), last.len()),
                named == |line: Seq<char>| start@ + line,
                rows.len() == head.len() + (i - first),
                rows.deep_view() == head + last.take(i - first).map_values(named),
                i - first <= want,
            ensures
                i - first == want,
            decreases operation.lines.len() - i,
        {
            assert(operation.lines[i as int]@ == last[i - first]);
            let ghost before = rows.deep_view();
            rows.push(start.clone().concat(operation.lines[i].as_str()));
            i = i + 1;
            assert(rows.deep_view() =~= before.push(named(last[i - first - 1])));
            assert(rows.deep_view() =~= head + last.take(i - first).map_values(named));
            if rows.len() >= limit {
                break;
            }
        }
    }
    assert(rows.deep_view().len() == rows.len());
    if rows.len() == 0 {
        rows.push("No recent activity".to_owned());
        assert(rows.deep_view() =~= seq!["No recent activity"@]);
    }
    rows
}

/// The line with the program's name and the base branch.
pub open spec fn title_line(app: AppView) -> Seq<SpanView> {
    seq![
        SpanView { text: "sp"@, paint: ink(248, 250, 252, true) },
        SpanView { text: "  "@, paint: unpainted() },
        SpanView { text: "ship small, merge clean"@, paint: ink(100, 116, 139, false) },
        SpanView { text: "  "@, paint: unpainted() },
        SpanView { text: "base: "@ + app.config.base_branch, paint: ink(56, 189, 248, true) },
    ]
}

/// The line that says what matters most. Its heading lights up now and then while
/// work is going on.
pub open spec fn next_line(app: AppView) -> Seq<SpanView> {
    let (label, mood, parts) = headline(app);
    let lit = label == "Working"@ && app.pulse_on;
    seq![
        SpanView { text: sign_of(label), paint: mood_paint(mood) },
        SpanView { text: " "@, paint: unpainted() },
        SpanView {
            text: label,
            paint: if lit {
                ink(125, 249, 255, true)
            } else {
                mood_paint(mood)
            },
        },
        SpanView { text: " - "@, paint: ink(100, 116, 139, false) },
        SpanView { text: text::joined(parts, ", "@), paint: ink(226, 232, 240, false) },
    ]
}

fn span(words: &str, paint: Paint) -> (piece: Span)
    ensures
        piece.deep_view() == (SpanView { text: words@, paint }),
{
    Span { text: words.to_owned(), paint }
}

fn plain_style() -> (paint: Paint)
    ensures
        paint == unpainted(),
{
    Paint { fg: None, bg: None, bold: false }
}

/// The line with the program's name and the base branch.
pub fn title_spans(app: &AppState) -> (spans: Vec<Span>)
    ensures
        spans.deep_view() == title_line(app.deep_view()),
{
    let mut spans: Vec<Span> = Vec::new();
    spans.push(span("sp", title_style()));
    spans.push(span("  ", plain_style()));
    spans.push(span("ship small, merge clean", muted_style()));
    spans.push(span("  ", plain_style()));
    let base = "base: ".to_owned().concat(app.config.base_branch.as_str());
    spans.push(span(base.as_str(), model_style()));
    assert(spans.deep_view() =~= title_line(app.deep_view()));
    spans
}

/// The line that says what matters most.
pub fn summary_spans(app: &AppState) -> (spans: Vec<Span>)
    ensures
        spans.deep_view() == next_line(app.deep_view()),
{
    let (label, mood, parts) = summary_line(app);
    let heading = if app.pulse_on && same_text(label.as_str(), "Working") {
        pulse_style()
    } else {
        style_for(mood)
    };
    let mut spans: Vec<Span> = Vec::new();
    spans.push(span(indicator(label.as_str()), style_for(mood)));
    spans.push(span(" ", plain_style()));
    spans.push(span(label.as_str(), heading));
    spans.push(span(" - ", muted_style()));
    spans.push(span(join(&parts, ", ").as_str(), text_style()));
    assert(spans.deep_view() =~= next_line(app.deep_view()));
    spans
}

/// The cells of a worktree's row.
pub open spec fn cells_of(row: RowView) -> Seq<Seq<char>> {
    seq![
        row.label,
        row.branch,
        model::state_name(row.state),
        report::distance(row),
        row.summary,
        util::compacted(row.subject, 96),
    ]
}

/// The cells of a worktree's row.
pub fn worktree_cells(row: &WorktreeRow) -> (cells: Vec<String>)
    ensures
        cells.deep_view() == cells_of(row.deep_view()),
{
    let mut cells: Vec<String> = Vec::new();
    cells.push(row.label.clone());
    cells.push(row.branch.clone());
    cells.push(row.state.as_str().to_owned());
    cells.push(distance_text(row));
    cells.push(row.summary.clone());
    cells.push(compact(row.subject.as_str(), 96));
    assert(cells.deep_view() =~= cells_of(row.deep_view()));
    cells
}

/// What stands above the cells.
pub fn worktree_headers() -> (headers: Vec<&'static str>)
    ensures
        headers.deep_view() == seq![
            "Agent"@,
            "Branch"@,
            "State"@,
            "Base"@,
            "Status"@,
            "Last commit"@,
        ],
{
    let mut headers: Vec<&'static str> = Vec::new();
    headers.push("Agent");
    headers.push("Branch");
    headers.push("State");
    headers.push("Base");
    headers.push("Status");
    headers.push("Last commit");
    assert(headers.deep_view() =~= seq![
        "Agent"@,
        "Branch"@,
        "State"@,
        "Base"@,
        "Status"@,
        "Last commit"@,
    ]);
    headers
}

/// The room for each cell of a row in a table of a width.
pub open spec fn cell_extents(width: u16) -> Seq<Extent> {
    if width < 100 {
        seq![
            Extent::Length(16),
            Extent::Length(18),
            Extent::Length(12),
            Extent::Length(8),
            Extent::Length(12),
            Extent::Min(10),
        ]
    } else {
        seq![
            Extent::Length(18),
            Extent::Length(24),
            Extent::Length(13),
            Extent::Length(9),
            Extent::Length(16),
            Extent::Min(20),
        ]
    }
}

fn six(
    first: Extent,
    second: Extent,
    third: Extent,
    fourth: Extent,
    fifth: Extent,
    sixth: Extent,
) -> (extents: Vec<Extent>)
    ensures
        extents@ == seq![first, second, third, fourth, fifth, sixth],
{
    let mut extents: Vec<Extent> = Vec::new();
    extents.push(first);
    extents.push(second);
    extents.push(third);
    extents.push(fourth);
    extents.push(fifth);
    extents.push(sixth);
    assert(extents@ =~= seq![first, second, third, fourth, fifth, sixth]);
    extents
}

/// The room for each cell of a row in a table of a width.
pub fn table_widths(width: u16) -> (extents: Vec<Extent>)
    ensures
        extents@ == cell_extents(width),
{
    if width < 100 {
        six(
            Extent::Length(16),
            Extent::Length(18),
            Extent::Length(12),
            Extent::Length(8),
            Extent::Length(12),
            Extent::Min(10),
        )
    } else {
        six(
            Extent::Length(18),
            Extent::Length(24),
            Extent::Length(13),
            Extent::Length(9),
            Extent::Length(16),
            Extent::Min(20),
        )
    }
}

/// The row that the table marks: the selected one, where there are rows.
pub fn marked_row(app: &AppState) -> (row: Option<usize>)
    ensures
        row == if app.snapshot.worktrees@.len() == 0 {
            None
        } else {
            Some(app.selected)
        },
{
    if app.snapshot.worktrees.len() == 0 {
        None
    } else {
        Some(app.selected)
    }
}

/// The room for the parts of the screen from top to bottom: the title, the
/// summary, the body and the keys.
pub fn screen_rows() -> (extents: Vec<Extent>)
    ensures
        extents@ == seq![
            Extent::Length(3),
            Extent::Length(3),
            Extent::Min(1),
            Extent::Length(1),
        ],
{
    let mut extents: Vec<Extent> = Vec::new();
    extents.push(Extent::Length(3));
    extents.push(Extent::Length(3));
    extents.push(Extent::Min(1));
    extents.push(Extent::Length(1));
    extents
}

/// How the body of the screen is divided between the worktrees and the recent
/// activity: whether one stands above the other, and the room for each. A narrow
/// screen has them above each other.
pub open spec fn body_plan(width: u16) -> (bool, Seq<Extent>) {
    if width < 120 {
        (true, seq![Extent::Min(7), Extent::Length(8)])
    } else {
        (false, seq![Extent::Percentage(68), Extent::Percentage(32)])
    }
}

/// How the body of a screen is divided.
pub fn body_parts(width: u16) -> (plan: (bool, Vec<Extent>))
    ensures
        (plan.0, plan.1@) == body_plan(width),
{
    let mut extents: Vec<Extent> = Vec::new();
    if width < 120 {
        extents.push(Extent::Min(7));
        extents.push(Extent::Length(8));
        (true, extents)
    } else {
        extents.push(Extent::Percentage(68));
        extents.push(Extent::Percentage(32));
        (false, extents)
    }
}

/// The lines of recent activity in a panel of a height, painted. Its border takes
/// two lines.
pub open spec fn recent_panel(app: AppView, height: u16) -> Seq<SpanView> {
    let room = if height < 2 {
        0
    } else {
        (height - 2) as nat
    };
    recent_text(app, room).map_values(
        |line: Seq<char>| SpanView { text: line, paint: line_paint(line) },
    )
}

/// The lines of recent activity in a panel of a height, painted.
pub fn recent_spans(app: &AppState, height: u16) -> (spans: Vec<Span>)
    ensures
        spans.deep_view() == recent_panel(app.deep_view(), height),
{
    let room: usize = if height < 2 {
        0
    } else {
        (height - 2) as usize
    };
    let rows = recent_lines(app, room);
    let mut spans: Vec<Span> = Vec::new();
    let mut i: usize = 0;
    while i < rows.len()
        invariant
            i <= rows.len(),
            spans.len() == i,
            forall|j: int|
                0 <= j < i ==> (#[trigger] spans[j]).deep_view() == (SpanView {
                    text: rows[j]@,
                    paint: line_paint(rows[j]@),
                }),
        decreases rows.len() - i,
    {
        let paint = recent_style(rows[i].as_str());
        spans.push(span(rows[i].as_str(), paint));
        i = i + 1;
    }
    assert(spans.deep_view() =~= recent_panel(app.deep_view(), height));
    spans
}

/// The keys and what they do.
pub fn keybar() -> (line: &'static str)
    ensures
        line@ == "j/k select  m merge  M merge all  u rebase all  d deploy  r refresh  q quit"@,
{
    "j/k select  m merge  M merge all  u rebase all  d deploy  r refresh  q quit"
}

proof fn lemma_counted_part_lacks_commas(count: nat, singular: Seq<char>, plural: Seq<char>)
    requires
        text::lacks(singular, ','),
        text::lacks(plural, ','),
    ensures
        forall|i: int|
            0 <= i < model::counted_part(count, singular, plural).len() ==> text::lacks(
                #[trigger] model::counted_part(count, singular, plural)[i],
                ',',
            ),
{
    number::digits_are_read_back(count);
    reveal_strlit(" ");
    let digits = number::digits(count);
    assert forall|i: int| 0 <= i < digits.len() implies #[trigger] digits[i] != ',' by {
        assert(number::is_digit(digits[i]));
    }
}

proof fn lemma_parts_lack_commas(snapshot: SnapshotView)
    ensures
        forall|i: int|
            0 <= i < model::summary_parts(snapshot).len() ==> text::lacks(
                #[trigger] model::summary_parts(snapshot)[i],
                ',',
            ),
{
    reveal_strlit("branch ready");
    reveal_strlit("branches ready");
    reveal_strlit("branch dirty");
    reveal_strlit("branches dirty");
    reveal_strlit("branch blocked");
    reveal_strlit("branches blocked");
    reveal_strlit("branch behind");
    reveal_strlit("branches behind");
    reveal_strlit("base dirty");
    let rows = snapshot.worktrees;
    lemma_counted_part_lacks_commas(
        model::count_of(rows, WorktreeState::Ready),
        "branch ready"@,
        "branches ready"@,
    );
    lemma_counted_part_lacks_commas(
        model::count_of(rows, WorktreeState::Dirty),
        "branch dirty"@,
        "branches dirty"@,
    );
    lemma_counted_part_lacks_commas(
        model::blocked_count(rows),
        "branch blocked"@,
        "branches blocked"@,
    );
    lemma_counted_part_lacks_commas(
        model::count_of(rows, WorktreeState::Behind),
        "branch behind"@,
        "branches behind"@,
    );
}

/// Where there is something to say of the worktrees, the line that sums them up
/// says that they are ready or blocked, and its parts are those of the summary.
pub proof fn summaries_are_told_apart(snapshot: SnapshotView)
    requires
        model::summary_parts(snapshot).len() > 0,
    ensures
        ({
            let ready = model::count_of(snapshot.worktrees, WorktreeState::Ready) > 0
                && !snapshot.repo.dirty;
            snapshot_line(model::summary_text(snapshot)) == (
                if ready {
                    ("Ready"@, "ready"@, model::summary_parts(snapshot))
                } else {
                    ("Blocked"@, "blocked"@, model::summary_parts(snapshot))
                })
        }),
{
    reveal_strlit("Ready");
    reveal_strlit("Blocked");
    reveal_strlit("Ready - ");
    reveal_strlit("Blocked - ");
    reveal_strlit(" - ");
    reveal_strlit(", ");
    let parts = model::summary_parts(snapshot);
    let rest = text::joined(parts, ", "@);
    lemma_parts_lack_commas(snapshot);
    text::joined_parts_are_told_apart(parts, ", "@);
    assert("Ready - "@ + rest =~= "Ready"@ + " - "@ + rest);
    assert("Blocked - "@ + rest =~= "Blocked"@ + " - "@ + rest);
    text::lemma_halves_of("Ready"@, " - "@, rest);
    text::lemma_halves_of("Blocked"@, " - "@, rest);
    assert("Ready"@.len() != "Blocked"@.len());
}

/// There is always something to read among the recent lines, and never more than
/// one line above what there is room for.
pub proof fn recent_lines_are_never_empty(app: AppView, limit: nat)
    ensures
        recent_text(app, limit).len() >= 1,
        recent_text(app, limit).len() <= limit + 1,
{
}

}
