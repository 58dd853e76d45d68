//! Merges, rebases and deploys, and says why where it does not.
use vstd::prelude::*;

use crate::config::{Config, ConfigView};
use crate::conversation;
use crate::conversation::{Conversation, Reply, ReplyView, Request, RequestView, Script};
use crate::git;
use crate::git::{
    build_snapshot, checkout_present, git_ref, git_success, short_sha, worktree_branch,
    worktree_status,
};
use crate::model;
use crate::model::{RowView, SnapshotView, WorktreeRow, WorktreeState};
use crate::number;
use crate::number::unsigned_text;
use crate::text;
use crate::text::{blank, join, lossy_text, replace, same_text, split_lines};
use crate::util;
use crate::util::{compact, owned, shell_join};

verus! {

broadcast use crate::conversation::group_play;

/// How an operation ended.
#[derive(Clone, Debug, PartialEq, Eq)]
pub struct OperationResult {
    pub ok: bool,
    pub message: String,
}

/// The end of an operation, by the text that it holds.
pub struct ResultView {
    pub ok: bool,
    pub message: Seq<char>,
}

impl DeepView for OperationResult {
    type V = ResultView;

    open spec fn deep_view(&self) -> ResultView {
        ResultView { ok: self.ok, message: self.message@ }
    }
}

/// An operation that did what it was to do.
pub open spec fn done(message: Seq<char>) -> ResultView {
    ResultView { ok: true, message }
}

/// An operation that did not.
pub open spec fn refused(message: Seq<char>) -> ResultView {
    ResultView { ok: false, message }
}

impl OperationResult {
    /// An operation that did what it was to do.
    pub fn ok(message: String) -> (result: OperationResult)
        ensures
            result.deep_view() == done(message@),
    {
        OperationResult { ok: true, message }
    }

    /// An operation that did not.
    pub fn blocked(message: String) -> (result: OperationResult)
        ensures
            result.deep_view() == refused(message@),
    {
        OperationResult { ok: false, message }
    }
}

/// What came of a command.
#[derive(Clone, Debug, PartialEq, Eq)]
pub struct CommandResult {
    pub code: i32,
    pub output: String,
}

/// What came of a command, by the text that it holds.
pub struct CommandView {
    pub code: i32,
    pub output: Seq<char>,
}

impl DeepView for CommandResult {
    type V = CommandView;

    open spec fn deep_view(&self) -> CommandView {
        CommandView { code: self.code, output: self.output@ }
    }
}

/// What came of running `program`: its exit code and all that it wrote.
pub open spec fn command_result(program: Seq<char>, reply: ReplyView) -> CommandView {
    match reply {
        ReplyView::Ran { code, stdout, stderr } => CommandView {
            code: match code {
                Some(code) => code,
                None => 1,
            },
            output: text::utf8_lossy(stdout) + text::utf8_lossy(stderr),
        },
        _ => CommandView { code: 127, output: "failed to start "@ + program },
    }
}

/// The lines that are logged of a command: all that hold more than white space.
pub open spec fn command_lines(program: Seq<char>, reply: ReplyView) -> Seq<Seq<char>> {
    let output = command_result(program, reply).output;
    match reply {
        ReplyView::Ran { .. } => text::lines(output).filter(
            |line: Seq<char>| !text::is_blank(line),
        ),
        _ => seq![output],
    }
}

/// Logs lines, from `from` on, and goes on with `script`.
pub open spec fn log_all<T>(lines: Seq<Seq<char>>, from: int, script: Script<T>) -> Script<T>
    decreases lines.len() - from,
{
    if 0 <= from < lines.len() {
        Script::Log(lines[from], Box::new(log_all(lines, from + 1, script)))
    } else {
        script
    }
}

/// Runs a command where everyone can see it: the command and what it writes are
/// logged.
pub open spec fn command_script(argv: Seq<Seq<char>>, cwd: Seq<char>) -> Script<CommandView> {
    Script::Log(
        announcement(argv),
        Box::new(
            Script::Ask(
                RequestView::Output { argv, cwd: Some(cwd) },
                |reply: ReplyView|
                    log_all(
                        command_lines(argv[0], reply),
                        0,
                        Script::End(command_result(argv[0], reply)),
                    ),
            ),
        ),
    )
}

proof fn lemma_play_log_all<T>(
    lines: Seq<Seq<char>>,
    from: int,
    script: Script<T>,
    record: conversation::Record,
)
    requires
        0 <= from <= lines.len(),
    ensures
        conversation::play(log_all(lines, from, script), record) == conversation::play(
            script,
            conversation::Record { log: record.log + lines.skip(from), ..record },
        ),
    decreases lines.len() - from,
{
    if from < lines.len() {
        let next = conversation::Record { log: record.log.push(lines[from]), ..record };
        lemma_play_log_all(lines, from + 1, script, next);
        assert(next.log + lines.skip(from + 1) =~= record.log + lines.skip(from));
    } else {
        assert(record.log + lines.skip(from) =~= record.log);
    }
}

proof fn lemma_log_all_asks_nothing<T>(
    lines: Seq<Seq<char>>,
    from: int,
    value: T,
    record: conversation::Record,
    good: spec_fn(RequestView, Seq<Seq<char>>) -> bool,
)
    requires
        0 <= from <= lines.len(),
    ensures
        conversation::exchanges(log_all(lines, from, Script::End(value)), record) == Seq::<
            conversation::Exchange,
        >::empty(),
        conversation::asks_only(log_all(lines, from, Script::End(value)), record, good),
    decreases lines.len() - from,
{
    if from < lines.len() {
        let next = conversation::Record { log: record.log.push(lines[from]), ..record };
        lemma_log_all_asks_nothing(lines, from + 1, value, next, good);
    }
}

/// The line that announces a command.
pub open spec fn announcement(argv: Seq<Seq<char>>) -> Seq<char> {
    "$ "@ + util::command_line(argv)
}

/// A command takes one reply, and what comes of it is in that reply.
pub broadcast proof fn command_plays(
    argv: Seq<Seq<char>>,
    cwd: Seq<char>,
    record: conversation::Record,
)
    ensures
        #![trigger conversation::play(command_script(argv, cwd), record)]
        ({
            let (after, outcome) = conversation::play(command_script(argv, cwd), record);
            &&& after.replies == record.replies
            &&& if record.heard < record.replies.len() {
                let reply = record.replies[record.heard as int];
                &&& outcome == Ok::<CommandView, RequestView>(command_result(argv[0], reply))
                &&& after.heard == record.heard + 1
            } else {
                &&& outcome == Err::<CommandView, RequestView>(
                    RequestView::Output { argv, cwd: Some(cwd) },
                )
                &&& after.heard == record.heard
                &&& after.log == record.log.push(announcement(argv))
            }
        }),
{
    if record.heard < record.replies.len() {
        let reply = record.replies[record.heard as int];
        let lines = command_lines(argv[0], reply);
        let said = conversation::Record {
            heard: record.heard + 1,
            log: record.log.push(announcement(argv)),
            ..record
        };
        lemma_play_log_all(lines, 0, Script::End(command_result(argv[0], reply)), said);
    }
}

/// The log of a command that was answered: the line that announces it, and then the
/// lines that are logged of it.
pub proof fn command_log(argv: Seq<Seq<char>>, cwd: Seq<char>, record: conversation::Record)
    ensures
        record.heard < record.replies.len() ==> conversation::play(
            command_script(argv, cwd),
            record,
        ).0.log == record.log.push(announcement(argv)) + command_lines(
            argv[0],
            record.replies[record.heard as int],
        ),
{
    if record.heard < record.replies.len() {
        let reply = record.replies[record.heard as int];
        let lines = command_lines(argv[0], reply);
        let said = conversation::Record {
            heard: record.heard + 1,
            log: record.log.push(announcement(argv)),
            ..record
        };
        lemma_play_log_all(lines, 0, Script::End(command_result(argv[0], reply)), said);
        assert(lines.skip(0) =~= lines);
    }
}

/// A command is one exchange, right behind the line that announces it.
pub broadcast proof fn command_exchanges(
    argv: Seq<Seq<char>>,
    cwd: Seq<char>,
    record: conversation::Record,
)
    ensures
        #[trigger] conversation::exchanges(command_script(argv, cwd), record) == if record.heard
            < record.replies.len() {
            seq![
                conversation::Exchange {
                    request: RequestView::Output { argv, cwd: Some(cwd) },
                    reply: record.replies[record.heard as int],
                    log: record.log.push(announcement(argv)),
                },
            ]
        } else {
            seq![]
        },
{
    broadcast use crate::conversation::group_exchanges;

    if record.heard < record.replies.len() {
        let reply = record.replies[record.heard as int];
        let said = conversation::Record {
            heard: record.heard + 1,
            log: record.log.push(announcement(argv)),
            ..record
        };
        lemma_log_all_asks_nothing(
            command_lines(argv[0], reply),
            0,
            command_result(argv[0], reply),
            said,
            |request: RequestView, log: Seq<Seq<char>>| true,
        );
    }
}

/// A command makes one request, right behind the line that announces it.
pub broadcast proof fn command_asks(
    argv: Seq<Seq<char>>,
    cwd: Seq<char>,
    record: conversation::Record,
    good: spec_fn(RequestView, Seq<Seq<char>>) -> bool,
)
    ensures
        #[trigger] conversation::asks_only(command_script(argv, cwd), record, good) == good(
            RequestView::Output { argv, cwd: Some(cwd) },
            record.log.push(announcement(argv)),
        ),
{
    broadcast use crate::conversation::group_asks;

    if record.heard < record.replies.len() {
        let reply = record.replies[record.heard as int];
        let said = conversation::Record {
            heard: record.heard + 1,
            log: record.log.push(announcement(argv)),
            ..record
        };
        lemma_log_all_asks_nothing(
            command_lines(argv[0], reply),
            0,
            command_result(argv[0], reply),
            said,
            good,
        );
    }
}

/// A command makes one request.
pub broadcast proof fn command_requests(
    argv: Seq<Seq<char>>,
    cwd: Seq<char>,
    record: conversation::Record,
)
    ensures
        #[trigger] conversation::requests(command_script(argv, cwd), record) == seq![
            RequestView::Output { argv, cwd: Some(cwd) },
        ],
{
    broadcast use crate::conversation::group_requests;

    if record.heard < record.replies.len() {
        let reply = record.replies[record.heard as int];
        let said = conversation::Record {
            heard: record.heard + 1,
            log: record.log.push(announcement(argv)),
            ..record
        };
        lemma_log_all_requests_nothing(
            command_lines(argv[0], reply),
            0,
            command_result(argv[0], reply),
            said,
        );
    }
}

proof fn lemma_log_all_requests_nothing<T>(
    lines: Seq<Seq<char>>,
    from: int,
    value: T,
    record: conversation::Record,
)
    requires
        0 <= from <= lines.len(),
    ensures
        conversation::requests(log_all(lines, from, Script::End(value)), record) == Seq::<
            RequestView,
        >::empty(),
    decreases lines.len() - from,
{
    broadcast use crate::conversation::group_requests;

    if from < lines.len() {
        let next = conversation::Record { log: record.log.push(lines[from]), ..record };
        lemma_log_all_requests_nothing(lines, from + 1, value, next);
    }
}

pub broadcast group group_commands {
    command_requests,
    command_plays,
    command_exchanges,
    command_asks,
}

fn say_filled_lines(output: &str, talk: &mut Conversation)
    ensures
        final(talk).record() == (conversation::Record {
            log: old(talk).record().log + text::lines(output@).filter(
                |line: Seq<char>| !text::is_blank(line),
            ),
            ..old(talk).record()
        }),
{
    let found = split_lines(output);
    let ghost views = found.deep_view();
    let ghost filled = |line: Seq<char>| !text::is_blank(line);
    let ghost start = talk.record();
    let mut i: usize = 0;
    proof {
        reveal(Seq::filter);
        assert(start.log + views.take(0).filter(filled) =~= start.log);
    }
    while i < found.len()
        invariant
            i <= found.len(),
            views == found.deep_view(),
            filled == |line: Seq<char>| !text::is_blank(line),
            talk.record() == (conversation::Record {
                log: start.log + views.take(i as int).filter(filled),
                ..start
            }),
        decreases found.len() - i,
    {
        proof {
            reveal(Seq::filter);
            assert(views.take(i + 1).drop_last() =~= views.take(i as int));
        }
        if !blank(found[i].as_str()) {
            talk.say(found[i].clone());
        }
        assert(talk.record().log =~= start.log + views.take(i + 1).filter(filled));
        i = i + 1;
    }
    assert(views.take(i as int) =~= views);
}

/// Runs a command and logs it.
pub fn run_command(argv: &[&str], cwd: &str, talk: &mut Conversation) -> (outcome: Result<
    CommandResult,
    Request,
>)
    requires
        argv@.len() > 0,
    ensures
        (final(talk).record(), conversation::seen(outcome)) == conversation::play(
            command_script(argv.deep_view(), cwd@),
            old(talk).record(),
        ),
{
    let display = owned(argv);
    let ghost words = argv.deep_view();
    assert(words[0] == argv[0]@);
    talk.say("$ ".to_owned().concat(shell_join(display.as_slice()).as_str()));
    let reply = match talk.ask(Request::Output { argv: display, cwd: Some(cwd.to_owned()) }) {
        Err(request) => return Err(request),
        Ok(reply) => reply,
    };
    let ghost heard = talk.record();
    proof {
        let lines = command_lines(words[0], reply.deep_view());
        let rest = Script::End(command_result(words[0], reply.deep_view()));
        lemma_play_log_all(lines, 0, rest, heard);
        assert(lines.skip(0) =~= lines);
    }
    match reply {
        Reply::Ran { code, stdout, stderr } => {
            let output = lossy_text(stdout).concat(lossy_text(stderr).as_str());
            say_filled_lines(output.as_str(), talk);
            let code: i32 = match code {
                Some(code) => *code,
                None => 1,
            };
            Ok(CommandResult { code, output })
        },
        _ => {
            let output = "failed to start ".to_owned().concat(argv[0]);
            talk.say(output.clone());
            assert(talk.record().log =~= heard.log + seq![output@]);
            Ok(CommandResult { code: 127, output })
        },
    }
}

/// A branch by its name, or the words for a checkout that is on none.
pub open spec fn branch_name(branch: Seq<char>) -> Seq<char> {
    if branch.len() == 0 {
        "no branch"@
    } else {
        branch
    }
}

/// Finds what keeps the base checkout from being worked on: it is on another
/// branch, or it is dirty.
pub open spec fn base_blocker_script(config: ConfigView, action: Seq<char>) -> Script<
    Option<Seq<char>>,
> {
    conversation::chain(
        git::branch_script(config.repo_path),
        |branch: Seq<char>|
            if branch != config.base_branch {
                Script::End(
                    Some(action + " blocked: base checkout on "@ + branch_name(branch)),
                )
            } else {
                conversation::chain(
                    git::status_script(config.repo_path),
                    |status: Seq<char>|
                        Script::End(
                            if status.len() > 0 {
                                Some(action + " blocked: base checkout dirty"@)
                            } else {
                                None
                            },
                        ),
                )
            },
    )
}

fn base_checkout_blocker(config: &Config, action: &str, talk: &mut Conversation) -> (outcome:
    Result<Option<String>, Request>)
    ensures
        (final(talk).record(), conversation::seen(outcome)) == conversation::play(
            base_blocker_script(config.deep_view(), action@),
            old(talk).record(),
        ),
{
    let branch = match worktree_branch(config.repo_path.as_str(), talk) {
        Err(request) => return Err(request),
        Ok(branch) => branch,
    };
    if !same_text(branch.as_str(), config.base_branch.as_str()) {
        let name = if branch.as_str().is_empty() {
            "no branch"
        } else {
            branch.as_str()
        };
        return Ok(Some(action.to_owned().concat(" blocked: base checkout on ").concat(name)));
    }
    let status = match worktree_status(config.repo_path.as_str(), talk) {
        Err(request) => return Err(request),
        Ok(status) => status,
    };
    if !status.as_str().is_empty() {
        return Ok(Some(action.to_owned().concat(" blocked: base checkout dirty")));
    }
    Ok(None)
}

/// Finds out whether a worktree is away: not there, or on another branch.
pub open spec fn away_script(row: RowView) -> Script<Option<Seq<char>>> {
    conversation::chain(
        git::present_script(row.path),
        |present: bool|
            if !present {
                Script::End(Some("Merge blocked: "@ + row.label + " worktree missing"@))
            } else {
                conversation::chain(
                    git::branch_script(row.path),
                    |branch: Seq<char>|
                        Script::End(
                            if branch != row.branch {
                                Some(
                                    "Merge blocked: "@ + row.label + " on "@ + branch_name(branch),
                                )
                            } else {
                                None
                            },
                        ),
                )
            },
    )
}

fn away_blocker(row: &WorktreeRow, talk: &mut Conversation) -> (outcome: Result<
    Option<String>,
    Request,
>)
    ensures
        (final(talk).record(), conversation::seen(outcome)) == conversation::play(
            away_script(row.deep_view()),
            old(talk).record(),
        ),
{
    let present = match checkout_present(row.path.as_str(), talk) {
        Err(request) => return Err(request),
        Ok(present) => present,
    };
    let start = "Merge blocked: ".to_owned().concat(row.label.as_str());
    if !present {
        return Ok(Some(start.concat(" worktree missing")));
    }
    let branch = match worktree_branch(row.path.as_str(), talk) {
        Err(request) => return Err(request),
        Ok(branch) => branch,
    };
    if !same_text(branch.as_str(), row.branch.as_str()) {
        let name = if branch.as_str().is_empty() {
            "no branch"
        } else {
            branch.as_str()
        };
        return Ok(Some(start.concat(" on ").concat(name)));
    }
    Ok(None)
}

/// Finds what keeps a worktree from being merged: it is away, or it is dirty.
pub open spec fn target_blocker_script(row: RowView) -> Script<Option<Seq<char>>> {
    conversation::chain(
        away_script(row),
        |away: Option<Seq<char>>|
            match away {
                Some(blocker) => Script::End(Some(blocker)),
                None => conversation::chain(
                    git::status_script(row.path),
                    |status: Seq<char>|
                        Script::End(
                            if status.len() > 0 {
                                Some("Merge blocked: "@ + row.label + " dirty"@)
                            } else {
                                None
                            },
                        ),
                ),
            },
    )
}

fn target_blocker(row: &WorktreeRow, talk: &mut Conversation) -> (outcome: Result<
    Option<String>,
    Request,
>)
    ensures
        (final(talk).record(), conversation::seen(outcome)) == conversation::play(
            target_blocker_script(row.deep_view()),
            old(talk).record(),
        ),
{
    match away_blocker(row, talk) {
        Err(request) => return Err(request),
        Ok(Some(blocker)) => return Ok(Some(blocker)),
        Ok(None) => {},
    }
    let status = match worktree_status(row.path.as_str(), talk) {
        Err(request) => return Err(request),
        Ok(status) => status,
    };
    if !status.as_str().is_empty() {
        return Ok(
            Some("Merge blocked: ".to_owned().concat(row.label.as_str()).concat(" dirty")),
        );
    }
    Ok(None)
}

/// The first row with a label, from row `from` on.
pub open spec fn labelled_from(rows: Seq<RowView>, label: Seq<char>, from: int) -> Option<RowView>
    decreases rows.len() - from,
{
    if !(0 <= from < rows.len()) {
        None
    } else if rows[from].label == label {
        Some(rows[from])
    } else {
        labelled_from(rows, label, from + 1)
    }
}

/// Finds the worktree to merge, and makes sure that it may be merged now. What
/// is asked here changes nothing.
pub open spec fn merge_checks_script(config: ConfigView, label: Seq<char>) -> Script<
    Result<RowView, ResultView>,
> {
    conversation::chain(
        git::snapshot_script(config),
        |snapshot: SnapshotView|
            match labelled_from(snapshot.worktrees, label, 0) {
                None => Script::End(
                    Err(refused("Merge blocked: unknown worktree "@ + label)),
                ),
                Some(target) => if target.state != WorktreeState::Ready {
                    Script::End(
                        Err(
                            refused(
                                "Merge blocked: "@ + target.label + " is "@ + model::state_name(
                                    target.state,
                                ),
                            ),
                        ),
                    )
                } else {
                    merge_clearance_script(config, target)
                },
            },
    )
}

/// Makes sure that both checkouts that a merge touches are fit for it.
pub open spec fn merge_clearance_script(config: ConfigView, target: RowView) -> Script<
    Result<RowView, ResultView>,
> {
    conversation::chain(
        base_blocker_script(config, "Merge"@),
        |base: Option<Seq<char>>|
            match base {
                Some(blocker) => Script::End(Err(refused(blocker))),
                None => conversation::chain(
                    target_blocker_script(target),
                    |own: Option<Seq<char>>|
                        Script::End(
                            match own {
                                Some(blocker) => Err(refused(blocker)),
                                None => Ok(target),
                            },
                        ),
                ),
            },
    )
}

/// The command that rebases a checkout.
pub open spec fn rebase_argv(base_branch: Seq<char>) -> Seq<Seq<char>> {
    seq!["git"@, "rebase"@, base_branch]
}

/// The command that takes back a rebase that stopped halfway.
pub open spec fn rebase_abort_argv() -> Seq<Seq<char>> {
    seq!["git"@, "rebase"@, "--abort"@]
}

/// The command that takes a checkout forward to a branch that contains it.
pub open spec fn forward_argv(branch: Seq<char>) -> Seq<Seq<char>> {
    seq!["git"@, "merge"@, "--ff-only"@, branch]
}

/// The command that merges a branch, up to the commit.
pub open spec fn merge_argv(branch: Seq<char>) -> Seq<Seq<char>> {
    seq!["git"@, "merge"@, "--no-ff"@, "--no-commit"@, branch]
}

/// The command that takes back a merge that has not been committed.
pub open spec fn merge_abort_argv() -> Seq<Seq<char>> {
    seq!["git"@, "merge"@, "--abort"@]
}

/// The command that commits a merge.
pub open spec fn commit_argv() -> Seq<Seq<char>> {
    seq!["git"@, "-c"@, "commit.gpgsign=false"@, "commit"@, "--no-edit"@]
}

/// The command that succeeds where the base branch contains a branch.
pub open spec fn ancestor_argv(branch: Seq<char>, base_branch: Seq<char>) -> Seq<Seq<char>> {
    seq!["git"@, "merge-base"@, "--is-ancestor"@, branch, base_branch]
}

/// Ends an operation that failed, once `undo` has been run.
pub open spec fn undo_script(undo: Seq<Seq<char>>, cwd: Seq<char>, message: Seq<char>) -> Script<
    ResultView,
> {
    conversation::chain(
        command_script(undo, cwd),
        |undone: CommandView| Script::End(refused(message)),
    )
}

/// Merges a worktree that may be merged: rebases it, takes the base branch
/// forward to it, or else makes a merge commit, and checks what came of it.
pub open spec fn merge_steps_script(config: ConfigView, target: RowView) -> Script<ResultView> {
    conversation::chain(
        git::ref_script(config.repo_path, "HEAD"@),
        |main_before: Seq<char>|
            conversation::chain(
                git::ref_script(config.repo_path, target.branch),
                |branch_before: Seq<char>|
                    Script::Log(
                        target.label + ": base "@ + git::short_name(main_before) + " branch "@
                            + git::short_name(branch_before),
                        Box::new(merge_rebase_script(config, target, main_before)),
                    ),
            ),
    )
}

/// The merge from its rebase on.
pub open spec fn merge_rebase_script(
    config: ConfigView,
    target: RowView,
    main_before: Seq<char>,
) -> Script<ResultView> {
    conversation::chain(
        command_script(rebase_argv(config.base_branch), target.path),
        |rebase: CommandView|
            if rebase.code != 0 {
                undo_script(
                    rebase_abort_argv(),
                    target.path,
                    "Merge blocked: "@ + target.label + " rebase failed: "@ + util::compacted(
                        rebase.output,
                        160,
                    ),
                )
            } else {
                conversation::chain(
                    command_script(forward_argv(target.branch), config.repo_path),
                    |forward: CommandView|
                        if forward.code != 0 {
                            merge_commit_script(config, target, main_before)
                        } else {
                            verified_script(config, target, main_before)
                        },
                )
            },
    )
}

/// The merge by a merge commit.
pub open spec fn merge_commit_script(
    config: ConfigView,
    target: RowView,
    main_before: Seq<char>,
) -> Script<ResultView> {
    conversation::chain(
        command_script(merge_argv(target.branch), config.repo_path),
        |merge: CommandView|
            if merge.code != 0 {
                undo_script(
                    merge_abort_argv(),
                    config.repo_path,
                    "Merge blocked: "@ + target.label + " conflicts: "@ + util::compacted(
                        merge.output,
                        160,
                    ),
                )
            } else {
                conversation::chain(
                    command_script(commit_argv(), config.repo_path),
                    |commit: CommandView|
                        if commit.code != 0 {
                            undo_script(
                                merge_abort_argv(),
                                config.repo_path,
                                "Merge failed: "@ + target.label + " commit failed: "@
                                    + util::compacted(commit.output, 120),
                            )
                        } else {
                            verified_script(config, target, main_before)
                        },
                )
            },
    )
}

/// What a merge says when it is done.
pub open spec fn merged_message(
    config: ConfigView,
    target: RowView,
    main_before: Seq<char>,
    main_after: Seq<char>,
) -> Seq<char> {
    "Merged "@ + target.label + ": "@ + config.base_branch + " "@ + git::short_name(main_before)
        + " -> "@ + git::short_name(main_after)
}

/// Checks what came of a merge: the base checkout is clean, it has moved on, and
/// it contains the branch.
pub open spec fn verified_script(
    config: ConfigView,
    target: RowView,
    main_before: Seq<char>,
) -> Script<ResultView> {
    conversation::chain(
        git::ref_script(config.repo_path, "HEAD"@),
        |main_after: Seq<char>|
            conversation::chain(
                git::status_script(config.repo_path),
                |status: Seq<char>|
                    if status.len() > 0 {
                        Script::End(
                            refused("Merge failed: "@ + target.label + " left base dirty"@),
                        )
                    } else if target.ahead > 0 && main_after == main_before {
                        Script::End(
                            refused(
                                "Merge failed: "@ + target.label + " did not advance "@
                                    + config.base_branch + " from "@ + git::short_name(main_before),
                            ),
                        )
                    } else {
                        contained_script(config, target, main_before, main_after)
                    },
            ),
    )
}

/// The last check of a merge, and its end.
pub open spec fn contained_script(
    config: ConfigView,
    target: RowView,
    main_before: Seq<char>,
    main_after: Seq<char>,
) -> Script<ResultView> {
    conversation::chain(
        git::success_script(ancestor_argv(target.branch, config.base_branch), config.repo_path),
        |contained: bool|
            if !contained {
                Script::End(
                    refused(
                        "Merge failed: "@ + config.base_branch + " does not contain "@
                            + target.label,
                    ),
                )
            } else {
                let message = merged_message(config, target, main_before, main_after);
                Script::Log(message, Box::new(Script::End(done(message))))
            },
    )
}

/// Merges the worktree with a label into the base branch.
pub open spec fn merge_script(config: ConfigView, label: Seq<char>) -> Script<ResultView> {
    conversation::chain(
        merge_checks_script(config, label),
        |checked: Result<RowView, ResultView>|
            match checked {
                Err(result) => Script::End(result),
                Ok(target) => merge_steps_script(config, target),
            },
    )
}

fn find_labelled<'r>(rows: &'r Vec<WorktreeRow>, label: &str) -> (found: Option<&'r WorktreeRow>)
    ensures
        match found {
            Some(row) => labelled_from(rows.deep_view(), label@, 0) == Some(row.deep_view()),
            None => labelled_from(rows.deep_view(), label@, 0) is None,
        },
{
    let mut i: usize = 0;
    while i < rows.len()
        invariant
            i <= rows.len(),
            labelled_from(rows.deep_view(), label@, i as int) == labelled_from(
                rows.deep_view(),
                label@,
                0,
            ),
        decreases rows.len() - i,
    {
        assert(rows.deep_view()[i as int] == rows[i as int].deep_view());
        if same_text(rows[i].label.as_str(), label) {
            return Some(&rows[i]);
        }
        i = i + 1;
    }
    None
}

fn undo_and_refuse(undo: &[&str], cwd: &str, message: String, talk: &mut Conversation) -> (outcome:
    Result<OperationResult, Request>)
    requires
        undo@.len() > 0,
    ensures
        (final(talk).record(), conversation::seen(outcome)) == conversation::play(
            undo_script(undo.deep_view(), cwd@, message@),
            old(talk).record(),
        ),
{
    match run_command(undo, cwd, talk) {
        Err(request) => Err(request),
        Ok(undone) => Ok(OperationResult::blocked(message)),
    }
}

fn verified_merge(
    config: &Config,
    target: &WorktreeRow,
    main_before: &str,
    talk: &mut Conversation,
) -> (outcome: Result<OperationResult, Request>)
    ensures
        (final(talk).record(), conversation::seen(outcome)) == conversation::play(
            verified_script(config.deep_view(), target.deep_view(), main_before@),
            old(talk).record(),
        ),
{
    let repo_path = config.repo_path.as_str();
    let base_branch = config.base_branch.as_str();
    let label = target.label.as_str();
    let main_after = match git_ref(repo_path, "HEAD", talk) {
        Err(request) => return Err(request),
        Ok(commit) => commit,
    };
    let status = match worktree_status(repo_path, talk) {
        Err(request) => return Err(request),
        Ok(status) => status,
    };
    if !status.as_str().is_empty() {
        return Ok(
            OperationResult::blocked(
                "Merge failed: ".to_owned().concat(label).concat(" left base dirty"),
            ),
        );
    }
    if target.ahead > 0 && same_text(main_after.as_str(), main_before) {
        return Ok(
            OperationResult::blocked(
                "Merge failed: ".to_owned().concat(label).concat(" did not advance ").concat(
                    base_branch,
                ).concat(" from ").concat(short_sha(main_before).as_str()),
            ),
        );
    }
    let argv = ["git", "merge-base", "--is-ancestor", target.branch.as_str(), base_branch];
    assert(argv.deep_view() =~= ancestor_argv(target.branch@, base_branch@));
    let contained = match git_success(&argv, repo_path, talk) {
        Err(request) => return Err(request),
        Ok(contained) => contained,
    };
    if !contained {
        return Ok(
            OperationResult::blocked(
                "Merge failed: ".to_owned().concat(base_branch).concat(
                    " does not contain ",
                ).concat(label),
            ),
        );
    }
    let message = "Merged ".to_owned().concat(label).concat(": ").concat(base_branch).concat(
        " ",
    ).concat(short_sha(main_before).as_str()).concat(" -> ").concat(
        short_sha(main_after.as_str()).as_str(),
    );
    talk.say(message.clone());
    Ok(OperationResult::ok(message))
}

fn merge_by_commit(
    config: &Config,
    target: &WorktreeRow,
    main_before: &str,
    talk: &mut Conversation,
) -> (outcome: Result<OperationResult, Request>)
    ensures
        (final(talk).record(), conversation::seen(outcome)) == conversation::play(
            merge_commit_script(config.deep_view(), target.deep_view(), main_before@),
            old(talk).record(),
        ),
{
    let repo_path = config.repo_path.as_str();
    let label = target.label.as_str();
    let abort = ["git", "merge", "--abort"];
    assert(abort.deep_view() =~= merge_abort_argv());
    let argv = ["git", "merge", "--no-ff", "--no-commit", target.branch.as_str()];
    assert(argv.deep_view() =~= merge_argv(target.branch@));
    let merge = match run_command(&argv, repo_path, talk) {
        Err(request) => return Err(request),
        Ok(merge) => merge,
    };
    if merge.code != 0 {
        let message = "Merge blocked: ".to_owned().concat(label).concat(" conflicts: ").concat(
            compact(merge.output.as_str(), 160).as_str(),
        );
        return undo_and_refuse(&abort, repo_path, message, talk);
    }
    let argv = ["git", "-c", "commit.gpgsign=false", "commit", "--no-edit"];
    assert(argv.deep_view() =~= commit_argv());
    let commit = match run_command(&argv, repo_path, talk) {
        Err(request) => return Err(request),
        Ok(commit) => commit,
    };
    if commit.code != 0 {
        let message = "Merge failed: ".to_owned().concat(label).concat(" commit failed: ").concat(
            compact(commit.output.as_str(), 120).as_str(),
        );
        return undo_and_refuse(&abort, repo_path, message, talk);
    }
    verified_merge(config, target, main_before, talk)
}

fn merge_cleared(config: &Config, target: &WorktreeRow, talk: &mut Conversation) -> (outcome:
    Result<OperationResult, Request>)
    ensures
        (final(talk).record(), conversation::seen(outcome)) == conversation::play(
            merge_steps_script(config.deep_view(), target.deep_view()),
            old(talk).record(),
        ),
{
    let repo_path = config.repo_path.as_str();
    let label = target.label.as_str();
    let main_before = match git_ref(repo_path, "HEAD", talk) {
        Err(request) => return Err(request),
        Ok(commit) => commit,
    };
    let branch_before = match git_ref(repo_path, target.branch.as_str(), talk) {
        Err(request) => return Err(request),
        Ok(commit) => commit,
    };
    talk.say(
        label.to_owned().concat(": base ").concat(short_sha(main_before.as_str()).as_str()).concat(
            " branch ",
        ).concat(short_sha(branch_before.as_str()).as_str()),
    );
    let argv = ["git", "rebase", config.base_branch.as_str()];
    assert(argv.deep_view() =~= rebase_argv(config.base_branch@));
    let rebase = match run_command(&argv, target.path.as_str(), talk) {
        Err(request) => return Err(request),
        Ok(rebase) => rebase,
    };
    if rebase.code != 0 {
        let abort = ["git", "rebase", "--abort"];
        assert(abort.deep_view() =~= rebase_abort_argv());
        let message = "Merge blocked: ".to_owned().concat(label).concat(" rebase failed: ").concat(
            compact(rebase.output.as_str(), 160).as_str(),
        );
        return undo_and_refuse(&abort, target.path.as_str(), message, talk);
    }
    let argv = ["git", "merge", "--ff-only", target.branch.as_str()];
    assert(argv.deep_view() =~= forward_argv(target.branch@));
    let forward = match run_command(&argv, repo_path, talk) {
        Err(request) => return Err(request),
        Ok(forward) => forward,
    };
    if forward.code != 0 {
        return merge_by_commit(config, target, main_before.as_str(), talk);
    }
    verified_merge(config, target, main_before.as_str(), talk)
}

/// Merges the worktree with a label into the base branch, where it may be merged.
pub fn merge_worktree(config: &Config, label: &str, talk: &mut Conversation) -> (outcome: Result<
    OperationResult,
    Request,
>)
    ensures
        (final(talk).record(), conversation::seen(outcome)) == conversation::play(
            merge_script(config.deep_view(), label@),
            old(talk).record(),
        ),
{
    let snapshot = match build_snapshot(config, talk) {
        Err(request) => return Err(request),
        Ok(snapshot) => snapshot,
    };
    let target = match find_labelled(&snapshot.worktrees, label) {
        None => return Ok(
            OperationResult::blocked("Merge blocked: unknown worktree ".to_owned().concat(label)),
        ),
        Some(target) => target,
    };
    if target.state != WorktreeState::Ready {
        return Ok(
            OperationResult::blocked(
                "Merge blocked: ".to_owned().concat(target.label.as_str()).concat(" is ").concat(
                    target.state.as_str(),
                ),
            ),
        );
    }
    match base_checkout_blocker(config, "Merge", talk) {
        Err(request) => return Err(request),
        Ok(Some(blocker)) => return Ok(OperationResult::blocked(blocker)),
        Ok(None) => {},
    }
    match target_blocker(target, talk) {
        Err(request) => return Err(request),
        Ok(Some(blocker)) => return Ok(OperationResult::blocked(blocker)),
        Ok(None) => {},
    }
    merge_cleared(config, target, talk)
}

/// What is added to the message of an operation that stopped after it had
/// already gone through some worktrees.
pub open spec fn after_some(words: Seq<char>, labels: Seq<Seq<char>>) -> Seq<char> {
    if labels.len() == 0 {
        seq![]
    } else {
        words + text::joined(labels, ", "@)
    }
}

/// Merges the ready ones of the rows from `from` on, one after the other, and
/// stops at the first that cannot be merged. Those in `merged` have been merged.
pub open spec fn merge_rows_script(
    config: ConfigView,
    rows: Seq<RowView>,
    from: int,
    merged: Seq<Seq<char>>,
) -> Script<ResultView>
    decreases rows.len() - from,
{
    if !(0 <= from < rows.len()) {
        Script::End(
            if merged.len() == 0 {
                refused("Merge skipped: no ready worktrees"@)
            } else {
                done("Merged "@ + text::joined(merged, ", "@))
            },
        )
    } else if rows[from].state != WorktreeState::Ready {
        merge_rows_script(config, rows, from + 1, merged)
    } else {
        conversation::chain(
            merge_script(config, rows[from].label),
            |result: ResultView|
                if !result.ok {
                    Script::End(
                        refused(result.message + after_some(" after merging "@, merged)),
                    )
                } else {
                    merge_rows_script(config, rows, from + 1, merged.push(rows[from].label))
                },
        )
    }
}

/// Merges every worktree that is ready.
pub open spec fn merge_all_script(config: ConfigView) -> Script<ResultView> {
    conversation::chain(
        git::snapshot_script(config),
        |snapshot: SnapshotView| merge_rows_script(config, snapshot.worktrees, 0, seq![]),
    )
}

fn suffix_after(words: &str, labels: &Vec<String>) -> (suffix: String)
    ensures
        suffix@ == after_some(words@, labels.deep_view()),
{
    if labels.len() == 0 {
        let suffix = String::new();
        assert(suffix@ =~= seq![]);
        suffix
    } else {
        words.to_owned().concat(join(labels, ", ").as_str())
    }
}

/// Merges every worktree that is ready, one after the other.
pub fn merge_all(config: &Config, talk: &mut Conversation) -> (outcome: Result<
    OperationResult,
    Request,
>)
    ensures
        (final(talk).record(), conversation::seen(outcome)) == conversation::play(
            merge_all_script(config.deep_view()),
            old(talk).record(),
        ),
{
    let snapshot = match build_snapshot(config, talk) {
        Err(request) => return Err(request),
        Ok(snapshot) => snapshot,
    };
    let rows = &snapshot.worktrees;
    let ghost views = rows.deep_view();
    let mut merged: Vec<String> = Vec::new();
    assert(merged.deep_view() =~= seq![]);
    let mut i: usize = 0;
    while i < rows.len()
        invariant
            i <= rows.len(),
            views == rows.deep_view(),
            conversation::play(
                merge_rows_script(config.deep_view(), views, i as int, merged.deep_view()),
                talk.record(),
            ) == conversation::play(merge_all_script(config.deep_view()), old(talk).record()),
        decreases rows.len() - i,
    {
        let row = &rows[i];
        assert(row.deep_view() == views[i as int]);
        if row.state == WorktreeState::Ready {
            let result = match merge_worktree(config, row.label.as_str(), talk) {
                Err(request) => return Err(request),
                Ok(result) => result,
            };
            if !result.ok {
                return Ok(
                    OperationResult::blocked(
                        result.message.concat(suffix_after(" after merging ", &merged).as_str()),
                    ),
                );
            }
            let ghost before = merged.deep_view();
            merged.push(row.label.clone());
            assert(merged.deep_view() =~= before.push(row.label@));
        }
        i = i + 1;
    }
    if merged.len() == 0 {
        Ok(OperationResult::blocked("Merge skipped: no ready worktrees".to_owned()))
    } else {
        Ok(
            OperationResult::ok(
                "Merged ".to_owned().concat(join(&merged, ", ").as_str()),
            ),
        )
    }
}

/// The base branch as the remote has it.
pub open spec fn remote_name(base_branch: Seq<char>) -> Seq<char> {
    "origin/"@ + base_branch
}

/// Brings the base branch up to date with its remote, where it has one. Ends with
/// what keeps it from that, if anything does.
pub open spec fn sync_script(config: ConfigView) -> Script<Option<ResultView>> {
    conversation::chain(
        git::success_script(
            seq!["git"@, "remote"@, "get-url"@, "origin"@],
            config.repo_path,
        ),
        |has_remote: bool|
            if !has_remote {
                Script::Log(
                    "No origin remote; rebasing onto local base branch"@,
                    Box::new(Script::End(None)),
                )
            } else {
                conversation::chain(
                    command_script(seq!["git"@, "fetch"@, "origin"@], config.repo_path),
                    |fetch: CommandView|
                        if fetch.code != 0 {
                            Script::End(
                                Some(
                                    refused(
                                        "Rebase blocked: fetch origin failed: "@
                                            + util::compacted(fetch.output, 120),
                                    ),
                                ),
                            )
                        } else {
                            forward_base_script(config)
                        },
                )
            },
    )
}

/// Takes the base branch forward to what was fetched.
pub open spec fn forward_base_script(config: ConfigView) -> Script<Option<ResultView>> {
    let remote = remote_name(config.base_branch);
    conversation::chain(
        git::known_script(config.repo_path, remote),
        |known: bool|
            if !known {
                Script::Log(
                    remote + " missing; rebasing onto local base branch"@,
                    Box::new(Script::End(None)),
                )
            } else {
                conversation::chain(
                    command_script(forward_argv(remote), config.repo_path),
                    |forward: CommandView|
                        Script::End(
                            if forward.code != 0 {
                                Some(
                                    refused(
                                        "Rebase blocked: base does not fast-forward to "@ + remote
                                            + ": "@ + util::compacted(forward.output, 120),
                                    ),
                                )
                            } else {
                                None
                            },
                        ),
                )
            },
    )
}

fn sync_base(config: &Config, talk: &mut Conversation) -> (outcome: Result<
    Option<OperationResult>,
    Request,
>)
    ensures
        (final(talk).record(), conversation::seen(outcome)) == conversation::play(
            sync_script(config.deep_view()),
            old(talk).record(),
        ),
{
    let repo_path = config.repo_path.as_str();
    let argv = ["git", "remote", "get-url", "origin"];
    assert(argv.deep_view() =~= seq!["git"@, "remote"@, "get-url"@, "origin"@]);
    let has_remote = match git_success(&argv, repo_path, talk) {
        Err(request) => return Err(request),
        Ok(has_remote) => has_remote,
    };
    if !has_remote {
        talk.say("No origin remote; rebasing onto local base branch".to_owned());
        return Ok(None);
    }
    let argv = ["git", "fetch", "origin"];
    assert(argv.deep_view() =~= seq!["git"@, "fetch"@, "origin"@]);
    let fetch = match run_command(&argv, repo_path, talk) {
        Err(request) => return Err(request),
        Ok(fetch) => fetch,
    };
    if fetch.code != 0 {
        return Ok(
            Some(
                OperationResult::blocked(
                    "Rebase blocked: fetch origin failed: ".to_owned().concat(
                        compact(fetch.output.as_str(), 120).as_str(),
                    ),
                ),
            ),
        );
    }
    let remote = "origin/".to_owned().concat(config.base_branch.as_str());
    let argv = ["git", "rev-parse", "--verify", remote.as_str()];
    assert(argv.deep_view() =~= seq!["git"@, "rev-parse"@, "--verify"@, remote@]);
    let known = match git_success(&argv, repo_path, talk) {
        Err(request) => return Err(request),
        Ok(known) => known,
    };
    if !known {
        talk.say(remote.concat(" missing; rebasing onto local base branch"));
        return Ok(None);
    }
    let argv = ["git", "merge", "--ff-only", remote.as_str()];
    assert(argv.deep_view() =~= forward_argv(remote@));
    let forward = match run_command(&argv, repo_path, talk) {
        Err(request) => return Err(request),
        Ok(forward) => forward,
    };
    if forward.code != 0 {
        return Ok(
            Some(
                OperationResult::blocked(
                    "Rebase blocked: base does not fast-forward to ".to_owned().concat(
                        remote.as_str(),
                    ).concat(": ").concat(compact(forward.output.as_str(), 120).as_str()),
                ),
            ),
        );
    }
    Ok(None)
}

/// The command that puts local changes aside.
pub open spec fn stash_argv(label: Seq<char>) -> Seq<Seq<char>> {
    seq![
        "git"@,
        "stash"@,
        "push"@,
        "-u"@,
        "-m"@,
        "sp auto-stash before rebase "@ + label,
    ]
}

/// The command that brings local changes back.
pub open spec fn restore_argv() -> Seq<Seq<char>> {
    seq!["git"@, "stash"@, "pop"@, "--index"@]
}

/// Rebases one worktree onto the base branch. Local changes are put aside for
/// as long as it takes.
pub open spec fn rebase_script(config: ConfigView, row: RowView) -> Script<ResultView> {
    conversation::chain(
        away_script(row),
        |away: Option<Seq<char>>|
            match away {
                Some(blocker) => Script::End(
                    refused(text::replaced(blocker, "Merge"@, "Rebase"@)),
                ),
                None => conversation::chain(
                    git::status_script(row.path),
                    |status: Seq<char>|
                        if status.len() > 0 {
                            stash_script(config, row)
                        } else {
                            rebase_step_script(config, row, false)
                        },
                ),
            },
    )
}

/// Puts the local changes of a worktree aside and rebases it.
pub open spec fn stash_script(config: ConfigView, row: RowView) -> Script<ResultView> {
    conversation::chain(
        command_script(stash_argv(row.label), row.path),
        |stash: CommandView|
            if stash.code != 0 {
                Script::End(
                    refused(
                        "Rebase blocked: "@ + row.label + " stash failed: "@ + util::compacted(
                            stash.output,
                            120,
                        ),
                    ),
                )
            } else {
                rebase_step_script(config, row, true)
            },
    )
}

/// Rebases a worktree that has no local changes, or none any more if they are
/// `stashed`.
pub open spec fn rebase_step_script(config: ConfigView, row: RowView, stashed: bool) -> Script<
    ResultView,
> {
    conversation::chain(
        command_script(rebase_argv(config.base_branch), row.path),
        |rebase: CommandView|
            if rebase.code != 0 {
                rebase_undo_script(
                    row,
                    stashed,
                    "Rebase blocked: "@ + row.label + " conflicts: "@ + util::compacted(
                        rebase.output,
                        120,
                    ),
                )
            } else if stashed {
                restore_script(row)
            } else {
                Script::End(done("Rebased "@ + row.label))
            },
    )
}

/// Takes back a rebase that failed, and brings local changes back if they are
/// `stashed`.
pub open spec fn rebase_undo_script(row: RowView, stashed: bool, message: Seq<char>) -> Script<
    ResultView,
> {
    conversation::chain(
        command_script(rebase_abort_argv(), row.path),
        |undone: CommandView|
            if stashed {
                undo_script(restore_argv(), row.path, message)
            } else {
                Script::End(refused(message))
            },
    )
}

/// Brings the local changes of a rebased worktree back.
pub open spec fn restore_script(row: RowView) -> Script<ResultView> {
    conversation::chain(
        command_script(restore_argv(), row.path),
        |restore: CommandView|
            Script::End(
                if restore.code != 0 {
                    refused(
                        "Rebase blocked: "@ + row.label + " stash restore failed: "@
                            + util::compacted(restore.output, 120),
                    )
                } else {
                    done("Rebased "@ + row.label)
                },
            ),
    )
}

fn rebase_stashed(config: &Config, row: &WorktreeRow, stashed: bool, talk: &mut Conversation) -> (
outcome: Result<OperationResult, Request>)
    ensures
        (final(talk).record(), conversation::seen(outcome)) == conversation::play(
            rebase_step_script(config.deep_view(), row.deep_view(), stashed),
            old(talk).record(),
        ),
{
    let path = row.path.as_str();
    let label = row.label.as_str();
    let argv = ["git", "rebase", config.base_branch.as_str()];
    assert(argv.deep_view() =~= rebase_argv(config.base_branch@));
    let rebase = match run_command(&argv, path, talk) {
        Err(request) => return Err(request),
        Ok(rebase) => rebase,
    };
    let pop = ["git", "stash", "pop", "--index"];
    assert(pop.deep_view() =~= restore_argv());
    if rebase.code != 0 {
        let abort = ["git", "rebase", "--abort"];
        assert(abort.deep_view() =~= rebase_abort_argv());
        match run_command(&abort, path, talk) {
            Err(request) => return Err(request),
            Ok(undone) => {},
        }
        let message = "Rebase blocked: ".to_owned().concat(label).concat(" conflicts: ").concat(
            compact(rebase.output.as_str(), 120).as_str(),
        );
        if stashed {
            return undo_and_refuse(&pop, path, message, talk);
        }
        return Ok(OperationResult::blocked(message));
    }
    if stashed {
        let restore = match run_command(&pop, path, talk) {
            Err(request) => return Err(request),
            Ok(restore) => restore,
        };
        if restore.code != 0 {
            return Ok(
                OperationResult::blocked(
                    "Rebase blocked: ".to_owned().concat(label).concat(
                        " stash restore failed: ",
                    ).concat(compact(restore.output.as_str(), 120).as_str()),
                ),
            );
        }
    }
    Ok(OperationResult::ok("Rebased ".to_owned().concat(label)))
}

fn rebase_one(config: &Config, row: &WorktreeRow, talk: &mut Conversation) -> (outcome: Result<
    OperationResult,
    Request,
>)
    ensures
        (final(talk).record(), conversation::seen(outcome)) == conversation::play(
            rebase_script(config.deep_view(), row.deep_view()),
            old(talk).record(),
        ),
{
    proof {
        reveal_strlit("Merge");
    }
    match away_blocker(row, talk) {
        Err(request) => return Err(request),
        Ok(Some(blocker)) => return Ok(
            OperationResult::blocked(replace(blocker.as_str(), "Merge", "Rebase")),
        ),
        Ok(None) => {},
    }
    let path = row.path.as_str();
    let status = match worktree_status(path, talk) {
        Err(request) => return Err(request),
        Ok(status) => status,
    };
    let stashed = !status.as_str().is_empty();
    if stashed {
        let stash_message = "sp auto-stash before rebase ".to_owned().concat(row.label.as_str());
        let argv = ["git", "stash", "push", "-u", "-m", stash_message.as_str()];
        assert(argv.deep_view() =~= stash_argv(row.label@));
        let stash = match run_command(&argv, path, talk) {
            Err(request) => return Err(request),
            Ok(stash) => stash,
        };
        if stash.code != 0 {
            return Ok(
                OperationResult::blocked(
                    "Rebase blocked: ".to_owned().concat(row.label.as_str()).concat(
                        " stash failed: ",
                    ).concat(compact(stash.output.as_str(), 120).as_str()),
                ),
            );
        }
    }
    rebase_stashed(config, row, stashed, talk)
}

/// What is added to the message of a rebase that passed over missing worktrees.
pub open spec fn skipped_words(skipped: nat) -> Seq<char> {
    if skipped == 0 {
        seq![]
    } else {
        "; skipped "@ + number::digits(skipped) + " missing"@
    }
}

/// Rebases the rows from `from` on that are not missing, one after the other, and
/// stops at the first that cannot be rebased. Those in `rebased` have been
/// rebased, and `skipped` were missing.
pub open spec fn rebase_rows_script(
    config: ConfigView,
    rows: Seq<RowView>,
    from: int,
    rebased: Seq<Seq<char>>,
    skipped: nat,
) -> Script<ResultView>
    decreases rows.len() - from,
{
    if !(0 <= from < rows.len()) {
        Script::End(
            if rebased.len() == 0 {
                refused("Rebase skipped: no present worktrees"@)
            } else {
                done("Rebased "@ + text::joined(rebased, ", "@) + skipped_words(skipped))
            },
        )
    } else if rows[from].state == WorktreeState::Missing {
        rebase_rows_script(config, rows, from + 1, rebased, skipped + 1)
    } else {
        conversation::chain(
            rebase_script(config, rows[from]),
            |result: ResultView|
                if !result.ok {
                    Script::End(
                        refused(result.message + after_some(" after rebasing "@, rebased)),
                    )
                } else {
                    rebase_rows_script(
                        config,
                        rows,
                        from + 1,
                        rebased.push(rows[from].label),
                        skipped,
                    )
                },
        )
    }
}

/// Rebases every worktree that is not missing, once the base branch is up to
/// date.
pub open spec fn rebase_all_script(config: ConfigView) -> Script<ResultView> {
    conversation::chain(
        base_blocker_script(config, "Rebase"@),
        |base: Option<Seq<char>>|
            match base {
                Some(blocker) => Script::End(refused(blocker)),
                None => conversation::chain(
                    sync_script(config),
                    |stopped: Option<ResultView>|
                        match stopped {
                            Some(result) => Script::End(result),
                            None => conversation::chain(
                                git::snapshot_script(config),
                                |snapshot: SnapshotView|
                                    rebase_rows_script(config, snapshot.worktrees, 0, seq![], 0),
                            ),
                        },
                ),
            },
    )
}

fn skipped_suffix(skipped: usize) -> (suffix: String)
    ensures
        suffix@ == skipped_words(skipped as nat),
{
    if skipped == 0 {
        let suffix = String::new();
        assert(suffix@ =~= seq![]);
        suffix
    } else {
        "; skipped ".to_owned().concat(unsigned_text(skipped as u64).as_str()).concat(" missing")
    }
}

/// Rebases every worktree that is not missing, one after the other.
pub fn rebase_all(config: &Config, talk: &mut Conversation) -> (outcome: Result<
    OperationResult,
    Request,
>)
    ensures
        (final(talk).record(), conversation::seen(outcome)) == conversation::play(
            rebase_all_script(config.deep_view()),
            old(talk).record(),
        ),
{
    match base_checkout_blocker(config, "Rebase", talk) {
        Err(request) => return Err(request),
        Ok(Some(blocker)) => return Ok(OperationResult::blocked(blocker)),
        Ok(None) => {},
    }
    match sync_base(config, talk) {
        Err(request) => return Err(request),
        Ok(Some(result)) => return Ok(result),
        Ok(None) => {},
    }
    let snapshot = match build_snapshot(config, talk) {
        Err(request) => return Err(request),
        Ok(snapshot) => snapshot,
    };
    let rows = &snapshot.worktrees;
    let ghost views = rows.deep_view();
    let mut rebased: Vec<String> = Vec::new();
    assert(rebased.deep_view() =~= seq![]);
    let mut skipped: usize = 0;
    let mut i: usize = 0;
    while i < rows.len()
        invariant
            i <= rows.len(),
            skipped <= i,
            views == rows.deep_view(),
            conversation::play(
                rebase_rows_script(
                    config.deep_view(),
                    views,
                    i as int,
                    rebased.deep_view(),
                    skipped as nat,
                ),
                talk.record(),
            ) == conversation::play(rebase_all_script(config.deep_view()), old(talk).record()),
        decreases rows.len() - i,
    {
        let row = &rows[i];
        assert(row.deep_view() == views[i as int]);
        if row.state == WorktreeState::Missing {
            skipped = skipped + 1;
        } else {
            let result = match rebase_one(config, row, talk) {
                Err(request) => return Err(request),
                Ok(result) => result,
            };
            if !result.ok {
                return Ok(
                    OperationResult::blocked(
                        result.message.concat(suffix_after(" after rebasing ", &rebased).as_str()),
                    ),
                );
            }
            let ghost before = rebased.deep_view();
            rebased.push(row.label.clone());
            assert(rebased.deep_view() =~= before.push(row.label@));
        }
        i = i + 1;
    }
    if rebased.len() == 0 {
        Ok(OperationResult::blocked("Rebase skipped: no present worktrees".to_owned()))
    } else {
        Ok(
            OperationResult::ok(
                "Rebased ".to_owned().concat(join(&rebased, ", ").as_str()).concat(
                    skipped_suffix(skipped).as_str(),
                ),
            ),
        )
    }
}

/// Runs the deploy command in the base checkout, where that may be deployed.
pub open spec fn deploy_script(config: ConfigView) -> Script<ResultView> {
    conversation::chain(
        base_blocker_script(config, "Deploy"@),
        |base: Option<Seq<char>>|
            match base {
                Some(blocker) => Script::End(refused(blocker)),
                None => match config.deploy_command {
                    None => Script::End(refused("Deploy blocked: no deploy_command in sp.toml"@)),
                    Some(command) => if command.len() == 0 {
                        Script::End(refused("Deploy blocked: empty deploy_command"@))
                    } else {
                        conversation::chain(
                            command_script(command, config.repo_path),
                            |result: CommandView|
                                Script::End(
                                    if result.code == 0 {
                                        done("Deploy completed"@)
                                    } else {
                                        refused(
                                            "Deploy failed: "@ + util::compacted(
                                                result.output,
                                                160,
                                            ),
                                        )
                                    },
                                ),
                        )
                    },
                },
            },
    )
}

fn borrowed(words: &Vec<String>) -> (argv: Vec<&str>)
    ensures
        argv.deep_view() == words.deep_view(),
        argv.len() == words.len(),
{
    let mut argv: Vec<&str> = Vec::new();
    let mut i: usize = 0;
    while i < words.len()
        invariant
            i <= words.len(),
            argv.len() == i,
            forall|j: int| 0 <= j < i ==> (#[trigger] argv[j])@ == words[j]@,
        decreases words.len() - i,
    {
        argv.push(words[i].as_str());
        i = i + 1;
    }
    assert(argv.deep_view() =~= words.deep_view());
    argv
}

/// Deploys the base checkout, where it may be deployed.
pub fn deploy(config: &Config, talk: &mut Conversation) -> (outcome: Result<
    OperationResult,
    Request,
>)
    ensures
        (final(talk).record(), conversation::seen(outcome)) == conversation::play(
            deploy_script(config.deep_view()),
            old(talk).record(),
        ),
{
    match base_checkout_blocker(config, "Deploy", talk) {
        Err(request) => return Err(request),
        Ok(Some(blocker)) => return Ok(OperationResult::blocked(blocker)),
        Ok(None) => {},
    }
    match &config.deploy_command {
        None => Ok(
            OperationResult::blocked("Deploy blocked: no deploy_command in sp.toml".to_owned()),
        ),
        Some(command) => {
            assert(command.len() == command.deep_view().len());
            if command.len() == 0 {
                return Ok(
                    OperationResult::blocked("Deploy blocked: empty deploy_command".to_owned()),
                );
            }
            let argv = borrowed(command);
            let result = match run_command(argv.as_slice(), config.repo_path.as_str(), talk) {
                Err(request) => return Err(request),
                Ok(result) => result,
            };
            if result.code == 0 {
                Ok(OperationResult::ok("Deploy completed".to_owned()))
            } else {
                Ok(
                    OperationResult::blocked(
                        "Deploy failed: ".to_owned().concat(
                            compact(result.output.as_str(), 160).as_str(),
                        ),
                    ),
                )
            }
        },
    }
}

}
