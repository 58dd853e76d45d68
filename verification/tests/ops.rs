use sp::config::{Config, WorktreeSpec};
use sp::conversation::{Conversation, Reply, Request};
use sp::ops::{deploy, merge_all, merge_worktree, rebase_all, run_command, OperationResult};

fn wrote(text: &str) -> Reply {
    Reply::Ran { code: Some(0), stdout: text.as_bytes().to_vec(), stderr: Vec::new() }
}

fn failed(text: &str) -> Reply {
    Reply::Ran { code: Some(1), stdout: Vec::new(), stderr: text.as_bytes().to_vec() }
}

// What a step comes to, what it asked for and where, and what it logged.
type Held<T> = (T, Vec<String>, Vec<String>);

// Holds a conversation to its end.
fn drive<T>(
    mut answer: impl FnMut(&str, &str, &Request) -> Reply,
    step: impl Fn(&mut Conversation) -> Result<T, Request>,
) -> Held<T> {
    let mut replies = Vec::new();
    let mut ran = Vec::new();
    loop {
        let mut talk = Conversation::new(&replies);
        let outcome = step(&mut talk);
        let log = talk.log().clone();
        match outcome {
            Ok(value) => return (value, ran, log),
            Err(request) => {
                let (line, place) = match &request {
                    Request::Output { argv, cwd } | Request::Status { argv, cwd } => {
                        (argv.join(" "), cwd.clone().unwrap())
                    }
                    Request::Exists { path } => ("exists".to_string(), path.clone()),
                    Request::Canonicalize { path } => ("canonical".to_string(), path.clone()),
                };
                ran.push(format!("{place}: {line}"));
                replies.push(answer(&line, &place, &request));
            }
        }
    }
}

// A base checkout on main and two worktrees that are ready. Commands that a case
// does not answer itself succeed, and move the base branch on.
fn usual(line: &str, place: &str, moved: &mut bool) -> Reply {
    let label = place.rsplit('/').next().unwrap();
    match line {
        "exists" => Reply::Exists(true),
        "canonical" => Reply::Canonical(place.to_string()),
        "git branch --show-current" => wrote(match label {
            "agent-A" => "agent/A\n",
            "agent-B" => "agent/B\n",
            _ => "main\n",
        }),
        "git status --short" => wrote(""),
        "git worktree list --porcelain" => wrote(
            "worktree /w/repo\nbranch refs/heads/main\n\n\
             worktree /w/agent-A\nbranch refs/heads/agent/A\n\n\
             worktree /w/agent-B\nbranch refs/heads/agent/B\n",
        ),
        "git rev-parse HEAD" => wrote(if *moved {
            "2222222222222222\n"
        } else {
            "1111111111111111\n"
        }),
        "git rev-parse agent/A" => wrote("aaaaaaaaaaaaaaaa\n"),
        _ if line.starts_with("git rev-list") => wrote("0\t1\n"),
        _ if line.starts_with("git log") => wrote("agent change\n"),
        _ if line.starts_with("git merge --ff-only") => {
            *moved = true;
            wrote("Updating\n\nFast-forward\n")
        }
        _ if line.ends_with("commit --no-edit") => {
            *moved = true;
            wrote("")
        }
        _ => wrote(""),
    }
}

fn config() -> Config {
    Config {
        repo_path: "/w/repo".to_string(),
        base_branch: "main".to_string(),
        deploy_command: Some(vec!["bin/deploy".to_string(), "to prod".to_string()]),
        worktrees: Vec::new(),
    }
}

// Drives an operation on the usual repository, but for what `odd` answers.
fn case(
    odd: impl Fn(&str, &str) -> Option<Reply>,
    step: impl Fn(&mut Conversation) -> Result<OperationResult, Request>,
) -> Held<OperationResult> {
    let mut moved = false;
    drive(
        |line, place, _| odd(line, place).unwrap_or_else(|| usual(line, place, &mut moved)),
        step,
    )
}

fn merge(odd: impl Fn(&str, &str) -> Option<Reply>) -> Held<OperationResult> {
    case(odd, |talk| merge_worktree(&config(), "agent-A", talk))
}

fn rebase(odd: impl Fn(&str, &str) -> Option<Reply>) -> Held<OperationResult> {
    case(odd, |talk| rebase_all(&config(), talk))
}

// What was run that does not only look.
fn changes(ran: &[String]) -> Vec<&str> {
    let looks = [
        "exists",
        "canonical",
        "git branch",
        "git status",
        "git worktree list",
        "git rev-",
        "git log",
        "git merge-base",
        "git remote",
    ];
    ran.iter()
        .map(String::as_str)
        .filter(|line| !looks.iter().any(|look| line.contains(&format!(": {look}"))))
        .collect()
}

#[test]
fn merge_worktree_fast_forwards_base() {
    let config = Config {
        repo_path: "/w/repo".to_string(),
        base_branch: "main".to_string(),
        deploy_command: None,
        worktrees: vec![WorktreeSpec {
            label: "agent-A".to_string(),
            branch: "agent/A".to_string(),
            path: Some("/w/agent-A".to_string()),
        }],
    };

    let (result, _, logs) = case(|_, _| None, |talk| merge_worktree(&config, "agent-A", talk));

    assert!(result.ok, "{}", result.message);
    assert!(result.message.contains("Merged agent-A"));
    assert!(logs.iter().any(|line| line == "$ git merge --ff-only agent/A"));
}

#[test]
fn a_merge_says_what_it_does() {
    let (result, ran, log) = merge(|_, _| None);
    assert_eq!(
        OperationResult {
            ok: true,
            message: "Merged agent-A: main 11111111 -> 22222222".to_string()
        },
        result
    );
    assert_eq!(
        vec![
            "agent-A: base 11111111 branch aaaaaaaa",
            "$ git rebase main",
            "$ git merge --ff-only agent/A",
            "Updating",
            "Fast-forward",
            "Merged agent-A: main 11111111 -> 22222222",
        ],
        log
    );
    assert_eq!(
        vec!["/w/agent-A: git rebase main", "/w/repo: git merge --ff-only agent/A"],
        changes(&ran)
    );
}

#[test]
fn a_merge_looks_right_before_it_changes_anything() {
    let (_, ran, _) = merge(|_, _| None);
    let first = ran.iter().position(|line| line == "/w/agent-A: git rebase main").unwrap();
    assert_eq!(
        [
            "/w/repo: git branch --show-current",
            "/w/repo: git status --short",
            "/w/agent-A/.git: exists",
            "/w/agent-A: git branch --show-current",
            "/w/agent-A: git status --short",
            "/w/repo: git rev-parse HEAD",
            "/w/repo: git rev-parse agent/A",
        ],
        ran[first - 7..first]
    );
    assert_eq!(
        [
            "/w/repo: git rev-parse HEAD",
            "/w/repo: git status --short",
            "/w/repo: git merge-base --is-ancestor agent/A main",
        ],
        ran[ran.len() - 3..]
    );
}

fn refused(found: Held<OperationResult>) -> String {
    let (result, ran, log) = found;
    assert!(!result.ok);
    assert!(changes(&ran).is_empty(), "{ran:?}");
    assert!(log.is_empty());
    result.message
}

#[test]
fn a_merge_is_refused_without_a_change() {
    assert_eq!(
        "Merge blocked: unknown worktree nobody",
        refused(case(|_, _| None, |talk| merge_worktree(&config(), "nobody", talk)))
    );
    assert_eq!(
        "Merge blocked: agent-A is merged",
        refused(merge(|line, _| line.starts_with("git rev-list").then_some(wrote("0 0"))))
    );
    assert_eq!(
        "Merge blocked: agent-A is dirty",
        refused(merge(|line, place| {
            (line == "git status --short" && place == "/w/agent-A").then_some(wrote(" M x\n"))
        }))
    );
    assert_eq!(
        "Merge blocked: base checkout on topic",
        refused(merge(|line, place| {
            (line == "git branch --show-current" && place == "/w/repo").then_some(wrote("topic\n"))
        }))
    );
    assert_eq!(
        "Merge blocked: base checkout on no branch",
        refused(merge(|line, place| {
            (line == "git branch --show-current" && place == "/w/repo").then_some(wrote(""))
        }))
    );
    assert_eq!(
        "Merge blocked: base checkout dirty",
        refused(merge(|line, place| {
            (line == "git status --short" && place == "/w/repo").then_some(wrote("?? x\n"))
        }))
    );
}

// Answers the second question of a kind, which comes after the snapshot.
fn changed_later(wanted: &'static str, reply: Reply) -> Held<OperationResult> {
    let mut moved = false;
    let mut times = 0;
    drive(
        |line, place, _| {
            if format!("{place}: {line}") == wanted {
                times += 1;
                if times == 2 {
                    return reply.clone();
                }
            }
            usual(line, place, &mut moved)
        },
        |talk| merge_worktree(&config(), "agent-A", talk),
    )
}

#[test]
fn a_merge_looks_at_the_worktree_again() {
    assert_eq!(
        "Merge blocked: agent-A worktree missing",
        refused(changed_later("/w/agent-A/.git: exists", Reply::Exists(false)))
    );
    assert_eq!(
        "Merge blocked: agent-A on other",
        refused(changed_later("/w/agent-A: git branch --show-current", wrote("other\n")))
    );
    assert_eq!(
        "Merge blocked: agent-A on no branch",
        refused(changed_later("/w/agent-A: git branch --show-current", failed("")))
    );
    assert_eq!(
        "Merge blocked: agent-A dirty",
        refused(changed_later("/w/agent-A: git status --short", wrote(" M x\n")))
    );
}

#[test]
fn a_failed_rebase_is_aborted() {
    let (result, ran, log) =
        merge(|line, _| (line == "git rebase main").then_some(failed("CONFLICT\n in x\n")));
    assert_eq!("Merge blocked: agent-A rebase failed: CONFLICT in x", result.message);
    assert!(!result.ok);
    assert_eq!(
        vec!["/w/agent-A: git rebase main", "/w/agent-A: git rebase --abort"],
        changes(&ran)
    );
    assert_eq!(
        vec![
            "agent-A: base 11111111 branch aaaaaaaa",
            "$ git rebase main",
            "CONFLICT",
            " in x",
            "$ git rebase --abort",
        ],
        log
    );
}

#[test]
fn a_merge_commit_is_made_where_the_base_cannot_go_forward() {
    let (result, ran, _) =
        merge(|line, _| line.starts_with("git merge --ff-only").then_some(failed("no")));
    assert!(result.ok, "{}", result.message);
    assert_eq!(
        vec![
            "/w/agent-A: git rebase main",
            "/w/repo: git merge --ff-only agent/A",
            "/w/repo: git merge --no-ff --no-commit agent/A",
            "/w/repo: git -c commit.gpgsign=false commit --no-edit",
        ],
        changes(&ran)
    );
}

#[test]
fn conflicts_are_aborted() {
    let (result, ran, _) = merge(|line, _| {
        (line.starts_with("git merge --ff-only") || line.starts_with("git merge --no-ff"))
            .then_some(failed("conflict in x"))
    });
    assert_eq!("Merge blocked: agent-A conflicts: conflict in x", result.message);
    assert_eq!("/w/repo: git merge --abort", *ran.last().unwrap());
}

#[test]
fn a_failed_commit_is_aborted() {
    let (result, ran, _) = merge(|line, _| {
        (line.starts_with("git merge --ff-only") || line.ends_with("commit --no-edit"))
            .then_some(failed("hook"))
    });
    assert_eq!("Merge failed: agent-A commit failed: hook", result.message);
    assert_eq!("/w/repo: git merge --abort", *ran.last().unwrap());
}

#[test]
fn a_merge_that_left_the_base_dirty_failed() {
    let mut moved = false;
    let (result, _, _) = drive(
        |line, place, _| {
            if moved && line == "git status --short" {
                return wrote(" M x\n");
            }
            usual(line, place, &mut moved)
        },
        |talk| merge_worktree(&config(), "agent-A", talk),
    );
    assert_eq!("Merge failed: agent-A left base dirty", result.message);
    assert!(!result.ok);
}

#[test]
fn a_merge_that_did_not_advance_the_base_failed() {
    let (result, _, _) = merge(|line, _| {
        (line == "git rev-parse HEAD").then_some(wrote("1111111111111111\n"))
    });
    assert_eq!("Merge failed: agent-A did not advance main from 11111111", result.message);
}

#[test]
fn a_merge_that_the_base_does_not_contain_failed() {
    let (result, _, _) =
        merge(|line, _| line.starts_with("git merge-base").then_some(failed("")));
    assert_eq!("Merge failed: main does not contain agent-A", result.message);
}

#[test]
fn all_ready_worktrees_are_merged() {
    let mut heads = 0;
    let mut moved = false;
    let (result, ran, _) = drive(
        |line, place, _| {
            if line == "git rev-parse HEAD" {
                heads += 1;
                return wrote(&format!("{heads}\n"));
            }
            usual(line, place, &mut moved)
        },
        |talk| merge_all(&config(), talk),
    );
    assert_eq!("Merged agent-A, agent-B", result.message);
    assert!(result.ok);
    assert_eq!(
        vec![
            "/w/agent-A: git rebase main",
            "/w/repo: git merge --ff-only agent/A",
            "/w/agent-B: git rebase main",
            "/w/repo: git merge --ff-only agent/B",
        ],
        changes(&ran)
    );
}

#[test]
fn merging_all_stops_at_the_first_failure() {
    let mut heads = 0;
    let mut moved = false;
    let (result, ran, _) = drive(
        |line, place, _| {
            if line == "git rev-parse HEAD" {
                heads += 1;
                return wrote(&format!("{heads}\n"));
            }
            if line == "git rebase main" && place == "/w/agent-B" {
                return failed("stuck");
            }
            usual(line, place, &mut moved)
        },
        |talk| merge_all(&config(), talk),
    );
    assert_eq!(
        "Merge blocked: agent-B rebase failed: stuck after merging agent-A",
        result.message
    );
    assert!(!result.ok);
    assert_eq!("/w/agent-B: git rebase --abort", *ran.last().unwrap());
}

#[test]
fn merging_all_says_when_nothing_is_ready() {
    let (result, ran, _) = case(
        |line, _| line.starts_with("git rev-list").then_some(wrote("1 0")),
        |talk| merge_all(&config(), talk),
    );
    assert_eq!("Merge skipped: no ready worktrees", result.message);
    assert!(!result.ok);
    assert!(changes(&ran).is_empty());
}

#[test]
fn merging_all_can_fail_at_once() {
    let (result, _, _) = case(
        |line, _| (line == "git rebase main").then_some(failed("stuck")),
        |talk| merge_all(&config(), talk),
    );
    assert_eq!("Merge blocked: agent-A rebase failed: stuck", result.message);
}

#[test]
fn all_worktrees_are_rebased() {
    let (result, ran, _) = rebase(|_, _| None);
    assert_eq!("Rebased agent-A, agent-B", result.message);
    assert!(result.ok);
    assert_eq!(
        vec![
            "/w/repo: git fetch origin",
            "/w/repo: git merge --ff-only origin/main",
            "/w/agent-A: git rebase main",
            "/w/agent-B: git rebase main",
        ],
        changes(&ran)
    );
}

#[test]
fn missing_worktrees_are_skipped() {
    let (result, _, _) =
        rebase(|line, place| {
            (line == "exists" && place == "/w/agent-A/.git").then_some(Reply::Exists(false))
        });
    assert_eq!("Rebased agent-B; skipped 1 missing", result.message);
    let (result, _, _) = rebase(|line, _| (line == "exists").then_some(Reply::Exists(false)));
    assert_eq!("Rebase skipped: no present worktrees", result.message);
    assert!(!result.ok);
}

#[test]
fn without_a_remote_the_local_base_is_used() {
    let (result, ran, log) =
        rebase(|line, _| line.starts_with("git remote").then_some(failed("")));
    assert!(result.ok);
    assert_eq!("No origin remote; rebasing onto local base branch", log[0]);
    assert!(!ran.iter().any(|line| line.contains("fetch")));
    let (result, ran, log) =
        rebase(|line, _| (line == "git rev-parse --verify origin/main").then_some(failed("")));
    assert!(result.ok);
    assert!(log.contains(&"origin/main missing; rebasing onto local base branch".to_string()));
    assert!(!ran.iter().any(|line| line.contains("--ff-only")));
}

#[test]
fn a_rebase_is_refused_where_the_base_is_not_fit() {
    assert_eq!(
        "Rebase blocked: base checkout dirty",
        refused(rebase(|line, place| {
            (line == "git status --short" && place == "/w/repo").then_some(wrote("?? x\n"))
        }))
    );
    let (result, ran, _) =
        rebase(|line, _| (line == "git fetch origin").then_some(failed("no network")));
    assert_eq!("Rebase blocked: fetch origin failed: no network", result.message);
    assert_eq!(vec!["/w/repo: git fetch origin"], changes(&ran));
    let (result, _, _) =
        rebase(|line, _| line.starts_with("git merge --ff-only").then_some(failed("diverged")));
    assert_eq!(
        "Rebase blocked: base does not fast-forward to origin/main: diverged",
        result.message
    );
}

fn dirty(line: &str, place: &str) -> Option<Reply> {
    (line == "git status --short" && place == "/w/agent-A").then_some(wrote(" M x\n"))
}

#[test]
fn dirty_worktrees_are_stashed_rebased_and_restored() {
    let (result, ran, log) = rebase(dirty);
    assert_eq!("Rebased agent-A, agent-B", result.message);
    assert_eq!(
        vec![
            "/w/agent-A: git stash push -u -m sp auto-stash before rebase agent-A",
            "/w/agent-A: git rebase main",
            "/w/agent-A: git stash pop --index",
            "/w/agent-B: git rebase main",
        ],
        changes(&ran)[2..]
    );
    assert!(log.contains(
        &"$ git stash push -u -m 'sp auto-stash before rebase agent-A'".to_string()
    ));
}

#[test]
fn a_failed_rebase_brings_changes_back() {
    let (result, ran, _) = rebase(|line, place| {
        dirty(line, place).or((line == "git rebase main").then_some(failed("conflict")))
    });
    assert_eq!("Rebase blocked: agent-A conflicts: conflict", result.message);
    assert_eq!(
        vec![
            "/w/agent-A: git stash push -u -m sp auto-stash before rebase agent-A",
            "/w/agent-A: git rebase main",
            "/w/agent-A: git rebase --abort",
            "/w/agent-A: git stash pop --index",
        ],
        changes(&ran)[2..]
    );
}

#[test]
fn a_failed_rebase_of_a_clean_worktree_is_only_aborted() {
    let (result, ran, _) = rebase(|line, place| {
        (line == "git rebase main" && place == "/w/agent-B").then_some(failed("conflict"))
    });
    assert_eq!(
        "Rebase blocked: agent-B conflicts: conflict after rebasing agent-A",
        result.message
    );
    assert_eq!("/w/agent-B: git rebase --abort", *ran.last().unwrap());
}

#[test]
fn a_failed_restore_stops_and_names_the_worktree() {
    let (result, ran, _) = rebase(|line, place| {
        dirty(line, place).or((line == "git stash pop --index").then_some(failed("clash")))
    });
    assert_eq!("Rebase blocked: agent-A stash restore failed: clash", result.message);
    assert!(!result.ok);
    assert_eq!("/w/agent-A: git stash pop --index", *ran.last().unwrap());
}

#[test]
fn a_failed_stash_stops() {
    let (result, ran, _) = rebase(|line, place| {
        dirty(line, place).or(line.starts_with("git stash push").then_some(failed("full")))
    });
    assert_eq!("Rebase blocked: agent-A stash failed: full", result.message);
    assert!(ran.last().unwrap().contains("git stash push"));
}

#[test]
fn a_worktree_on_another_branch_is_not_rebased() {
    let (result, _, _) = rebase(|line, place| {
        (line == "git branch --show-current" && place == "/w/agent-A").then_some(wrote("x\n"))
    });
    assert_eq!("Rebase blocked: agent-A on x", result.message);
}

fn deployed(odd: impl Fn(&str, &str) -> Option<Reply>) -> Held<OperationResult> {
    case(odd, |talk| deploy(&config(), talk))
}

#[test]
fn a_deploy_runs_the_command_in_the_base_checkout() {
    let (result, ran, log) = deployed(|line, _| line.starts_with("bin").then_some(wrote("ok\n")));
    assert_eq!("Deploy completed", result.message);
    assert!(result.ok);
    assert_eq!(
        vec![
            "/w/repo: git branch --show-current",
            "/w/repo: git status --short",
            "/w/repo: bin/deploy to prod",
        ],
        ran
    );
    assert_eq!(vec!["$ bin/deploy 'to prod'", "ok"], log);
}

#[test]
fn a_deploy_can_fail() {
    let (result, _, _) = deployed(|line, _| line.starts_with("bin").then_some(failed("down")));
    assert_eq!("Deploy failed: down", result.message);
    assert!(!result.ok);
    let (result, _, log) = deployed(|line, _| line.starts_with("bin").then_some(Reply::Failed));
    assert_eq!("Deploy failed: failed to start bin/deploy", result.message);
    assert_eq!("failed to start bin/deploy", *log.last().unwrap());
}

#[test]
fn a_deploy_is_refused_without_a_command_or_a_fit_base() {
    assert_eq!(
        "Deploy blocked: base checkout on no branch",
        refused(deployed(|line, _| line.starts_with("git branch").then_some(wrote(""))))
    );
    let mut config = config();
    config.deploy_command = None;
    assert_eq!(
        "Deploy blocked: no deploy_command in sp.toml",
        refused(case(|_, _| None, |talk| deploy(&config, talk)))
    );
    config.deploy_command = Some(Vec::new());
    assert_eq!(
        "Deploy blocked: empty deploy_command",
        refused(case(|_, _| None, |talk| deploy(&config, talk)))
    );
}

#[test]
fn commands_are_logged_with_what_they_wrote() {
    let (result, _, log) = drive(
        |_, _, _| Reply::Ran {
            code: None,
            stdout: b"one\n\n  \ntwo\r\n".to_vec(),
            stderr: b"three".to_vec(),
        },
        |talk| run_command(&["a", "b c"], "/w", talk),
    );
    assert_eq!(1, result.code);
    assert_eq!("one\n\n  \ntwo\r\nthree", result.output);
    assert_eq!(vec!["$ a 'b c'", "one", "two", "three"], log);
}

#[test]
fn commands_are_announced_before_they_are_run() {
    let replies = Vec::new();
    let mut talk = Conversation::new(&replies);
    let outcome = run_command(&["a", "b"], "/w", &mut talk);
    assert!(outcome.is_err());
    assert_eq!(vec!["$ a b".to_string()], *talk.log());
}

#[test]
fn long_output_is_cut_in_messages() {
    let long = "x".repeat(300);
    let (result, _, _) = merge(|line, _| (line == "git rebase main").then_some(failed(&long)));
    assert_eq!(
        format!("Merge blocked: agent-A rebase failed: {}...", "x".repeat(157)),
        result.message
    );
}
