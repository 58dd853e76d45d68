use sp::config::{Config, WorktreeSpec};
use sp::conversation::{Conversation, Reply, Request};
use sp::git::{
    build_snapshot, git_ref, git_stdout, git_success, parse_counts, parse_worktree_list,
    repo_status, short_sha, worktree_branch, worktree_rows, worktree_state, worktree_status,
    WorktreeEntry,
};
use sp::model::{WorktreeRow, WorktreeState};
use sp::order::{sort_rows, worktree_sort_key};

// Answers every request of a step, and gives what it comes to and what it asked.
fn drive<T>(
    answer: impl Fn(&Request) -> Reply,
    step: impl Fn(&mut Conversation) -> Result<T, Request>,
) -> (T, Vec<Request>) {
    let mut replies = Vec::new();
    let mut asked = Vec::new();
    loop {
        let outcome = step(&mut Conversation::new(&replies));
        match outcome {
            Ok(value) => return (value, asked),
            Err(request) => {
                replies.push(answer(&request));
                asked.push(request);
            }
        }
    }
}

fn wrote(text: &str) -> Reply {
    Reply::Ran { code: Some(0), stdout: text.as_bytes().to_vec(), stderr: Vec::new() }
}

fn failed() -> Reply {
    Reply::Ran { code: Some(1), stdout: b"lost".to_vec(), stderr: b"fatal".to_vec() }
}

fn output(argv: &[&str], cwd: &str) -> Request {
    Request::Output {
        argv: argv.iter().map(|word| word.to_string()).collect(),
        cwd: Some(cwd.to_string()),
    }
}

fn status(argv: &[&str], cwd: &str) -> Request {
    Request::Status {
        argv: argv.iter().map(|word| word.to_string()).collect(),
        cwd: Some(cwd.to_string()),
    }
}

fn config(worktrees: Vec<WorktreeSpec>) -> Config {
    Config {
        repo_path: "/work/repo".to_string(),
        base_branch: "main".to_string(),
        deploy_command: None,
        worktrees,
    }
}

fn spec(label: &str, branch: &str, path: Option<&str>) -> WorktreeSpec {
    WorktreeSpec {
        label: label.to_string(),
        branch: branch.to_string(),
        path: path.map(str::to_string),
    }
}

#[test]
fn parses_porcelain_worktree_output() {
    let rows = parse_worktree_list(
        "/repo\nworktree /repo\nHEAD 111\nbranch refs/heads/main\n\nworktree /repo-worktrees/agent-A\nHEAD 222\nbranch refs/heads/agent/A\n",
    );

    assert_eq!(2, rows.len());
    assert_eq!("agent/A", rows[1].branch);
}

#[test]
fn state_marks_dirty_before_ready() {
    assert_eq!(
        WorktreeState::Dirty,
        worktree_state(true, true, "agent/A", "agent/A", "1 changed file", 1, 0)
    );
    assert_eq!(
        WorktreeState::Ready,
        worktree_state(true, true, "agent/A", "agent/A", "", 1, 0)
    );
}

#[test]
fn states_come_in_order() {
    let state = |present, known, current, dirty, ahead, behind| {
        worktree_state(present, known, "a", current, dirty, ahead, behind)
    };
    assert_eq!(WorktreeState::Missing, state(false, true, "a", "", 1, 0));
    assert_eq!(WorktreeState::Missing, state(true, false, "a", "x", 1, 0));
    assert_eq!(WorktreeState::WrongBranch, state(true, true, "b", "x", 1, 0));
    assert_eq!(WorktreeState::WrongBranch, state(true, true, "", "", 1, 0));
    assert_eq!(WorktreeState::Dirty, state(true, true, "a", "x", 0, 0));
    assert_eq!(WorktreeState::Ready, state(true, true, "a", "", 1, 5));
    assert_eq!(WorktreeState::Behind, state(true, true, "a", "", 0, 1));
    assert_eq!(WorktreeState::Merged, state(true, true, "a", "", 0, 0));
    assert_eq!(WorktreeState::Merged, state(true, true, "a", "", -1, -1));
}

#[test]
fn lists_of_worktrees_are_read_entry_by_entry() {
    let entry = |path: &str, branch: &str| WorktreeEntry {
        path: path.to_string(),
        branch: branch.to_string(),
    };
    assert!(parse_worktree_list("").is_empty());
    assert!(parse_worktree_list("branch refs/heads/lost\n").is_empty());
    assert_eq!(
        vec![
            entry("/a", "main"),
            entry("/b", ""),
            entry("/c d", "odd"),
            entry("/e", "second"),
            entry("/f", "")
        ],
        parse_worktree_list(
            "worktree /a\nHEAD 1\nbranch refs/heads/main\n\nworktree /b\nHEAD 2\ndetached\n\
             worktree /c d\nbranch odd\n \nbranch refs/heads/late\nworktree /e\n\
             branch first\nbranch refs/heads/second\n\nworktree /f"
        )
    );
}

#[test]
fn listed_worktrees_come_back() {
    let entries = [("/a", "main"), ("/b c", ""), ("/d", "agent/A")];
    let mut list = String::new();
    for (path, branch) in entries {
        let line = if branch.is_empty() {
            "detached".to_string()
        } else {
            format!("branch refs/heads/{branch}")
        };
        list += &format!("worktree {path}\nHEAD 0123\n{line}\n\n");
    }
    let found = parse_worktree_list(&list);
    let found: Vec<(&str, &str)> = found
        .iter()
        .map(|entry| (entry.path.as_str(), entry.branch.as_str()))
        .collect();
    assert_eq!(entries.to_vec(), found);
}

#[test]
fn entries_are_compared_by_what_their_paths_lead_to() {
    let entry = |path: &str| WorktreeEntry { path: path.to_string(), branch: "b".to_string() };
    assert!(entry("/a/b") == entry("/a//b/"));
    assert!(entry("/a/b") != entry("/a/c"));
}

#[test]
fn counts_are_behind_and_then_ahead() {
    assert_eq!((5, 3), parse_counts("3\t5\n"));
    assert_eq!((0, 0), parse_counts("3"));
    assert_eq!((0, 0), parse_counts("3 5 7"));
    assert_eq!((0, 3), parse_counts("3 x"));
    assert_eq!((0, 0), parse_counts(""));
}

#[test]
fn commits_are_shortened() {
    assert_eq!("unknown", short_sha(""));
    assert_eq!("1234567", short_sha("1234567"));
    assert_eq!("12345678", short_sha("12345678"));
    assert_eq!("12345678", short_sha("123456789abcdef"));
}

#[test]
fn branches_are_read_from_git() {
    let (branch, asked) = drive(|_| wrote("agent/A\n"), |talk| worktree_branch("/w", talk));
    assert_eq!("agent/A", branch);
    assert_eq!(vec![output(&["git", "branch", "--show-current"], "/w")], asked);
    assert_eq!("", drive(|_| failed(), |talk| worktree_branch("/w", talk)).0);
}

#[test]
fn changed_files_are_counted() {
    let summary = |text: &'static str| {
        drive(move |_| wrote(text), |talk| worktree_status("/w", talk)).0
    };
    assert_eq!("", summary(""));
    assert_eq!("", summary("\n  \n"));
    assert_eq!("1 changed file", summary(" M a\n"));
    assert_eq!("3 changed files", summary(" M a\n?? b\n\nD  c"));
    assert_eq!("", drive(|_| failed(), |talk| worktree_status("/w", talk)).0);
    let (_, asked) = drive(|_| wrote(""), |talk| worktree_status("/w", talk));
    assert_eq!(vec![output(&["git", "status", "--short"], "/w")], asked);
}

#[test]
fn commits_are_read_from_git() {
    let (commit, asked) = drive(|_| wrote(" abc \n"), |talk| git_ref("/r", "HEAD", talk));
    assert_eq!("abc", commit);
    assert_eq!(vec![output(&["git", "rev-parse", "HEAD"], "/r")], asked);
}

#[test]
fn programs_run_for_their_output_or_for_their_status() {
    let (text, asked) = drive(|_| wrote("x\n"), |talk| git_stdout(&["git", "log"], "/r", talk));
    assert_eq!("x\n", text);
    assert_eq!(vec![output(&["git", "log"], "/r")], asked);
    let (ok, asked) = drive(|_| wrote(""), |talk| git_success(&["git", "x"], "/r", talk));
    assert!(ok);
    assert_eq!(vec![status(&["git", "x"], "/r")], asked);
    assert!(!drive(|_| failed(), |talk| git_success(&["git", "x"], "/r", talk)).0);
    assert!(!drive(|_| Reply::Failed, |talk| git_success(&["git", "x"], "/r", talk)).0);
}

#[test]
fn the_base_checkout_is_read() {
    let answer = |request: &Request| match request {
        Request::Output { argv, .. } if argv[1] == "status" => wrote(" M x\n"),
        _ => wrote("main\n"),
    };
    let (repo, asked) = drive(answer, |talk| repo_status("/work/repo", talk));
    assert_eq!("/work/repo", repo.path);
    assert_eq!("main", repo.branch);
    assert!(repo.dirty);
    assert_eq!("1 changed file", repo.summary);
    assert_eq!(
        vec![
            output(&["git", "status", "--short"], "/work/repo"),
            output(&["git", "branch", "--show-current"], "/work/repo"),
        ],
        asked
    );
}

// A repository with a worktree on agent/B, one on zeta, one on main and one on no
// branch.
fn repository(request: &Request) -> Reply {
    match request {
        Request::Exists { path } => Reply::Exists(path != "/work/gone/.git"),
        Request::Canonicalize { path } => match path.as_str() {
            "/link" => Reply::Canonical("/work/agent-B".to_string()),
            "/nowhere" => Reply::Failed,
            path => Reply::Canonical(path.to_string()),
        },
        Request::Status { argv, .. } => {
            if argv[3] == "agent/Z" {
                failed()
            } else {
                wrote("")
            }
        }
        Request::Output { argv, cwd } => {
            let cwd = cwd.as_deref().unwrap();
            match argv[1].as_str() {
                "worktree" => wrote(
                    "worktree /work/repo\nbranch refs/heads/main\n\n\
                     worktree /work/zeta\nbranch refs/heads/zeta\n\n\
                     worktree /work/agent-B\nbranch refs/heads/agent/B\n\n\
                     worktree /work/loose\ndetached\n",
                ),
                "branch" => wrote(match cwd {
                    "/work/repo" => "main\n",
                    "/work/agent-B" => "agent/B\n",
                    "/work/zeta" => "other\n",
                    _ => "",
                }),
                "status" => wrote(if cwd == "/work/repo" { "" } else { "\n" }),
                "rev-list" => wrote("1\t2\n"),
                "log" => wrote("a   subject\n"),
                _ => failed(),
            }
        }
    }
}

#[test]
fn listed_worktrees_are_discovered_and_sorted() {
    let config = config(Vec::new());
    let (snapshot, _) = drive(repository, |talk| build_snapshot(&config, talk));
    assert_eq!("main", snapshot.base_branch);
    assert_eq!("clean", snapshot.repo.summary);
    let expected = WorktreeRow {
        label: "agent-B".to_string(),
        branch: "agent/B".to_string(),
        path: "/work/agent-B".to_string(),
        current_branch: "agent/B".to_string(),
        state: WorktreeState::Ready,
        dirty: false,
        summary: "clean".to_string(),
        ahead: 2,
        behind: 1,
        subject: "a subject".to_string(),
    };
    assert_eq!(2, snapshot.worktrees.len());
    assert_eq!(expected, snapshot.worktrees[0]);
    assert_eq!("zeta", snapshot.worktrees[1].label);
    assert_eq!(WorktreeState::WrongBranch, snapshot.worktrees[1].state);
    assert_eq!("other", snapshot.worktrees[1].current_branch);
}

#[test]
fn named_worktrees_keep_their_order() {
    let config = config(vec![
        spec("last", "zeta", Some("/elsewhere")),
        spec("linked", "agent/X", Some("/link")),
        spec("given", "agent/Y", Some("/nowhere")),
        spec("gone", "agent/Z", None),
    ]);
    let (rows, _) = drive(repository, |talk| worktree_rows(&config, talk));
    let places: Vec<(&str, &str)> =
        rows.iter().map(|row| (row.label.as_str(), row.path.as_str())).collect();
    assert_eq!(
        vec![
            ("last", "/work/zeta"),
            ("linked", "/work/agent-B"),
            ("given", "/nowhere"),
            ("gone", "/work/gone"),
        ],
        places
    );
    assert_eq!(WorktreeState::WrongBranch, rows[1].state);
    assert_eq!(WorktreeState::Missing, rows[3].state);
    assert_eq!((0, 0), (rows[3].ahead, rows[3].behind));
    assert_eq!("", rows[3].subject);
    assert_eq!("", rows[3].current_branch);
}

#[test]
fn what_is_missing_is_not_asked_about() {
    let config = config(vec![spec("gone", "agent/Z", None)]);
    let (_, asked) = drive(repository, |talk| worktree_rows(&config, talk));
    assert_eq!(
        vec![
            output(&["git", "worktree", "list", "--porcelain"], "/work/repo"),
            Request::Canonicalize { path: "/work/repo".to_string() },
            Request::Canonicalize { path: "/work/zeta".to_string() },
            Request::Canonicalize { path: "/work/agent-B".to_string() },
            Request::Canonicalize { path: "/work/loose".to_string() },
            Request::Exists { path: "/work/gone/.git".to_string() },
            status(&["git", "rev-parse", "--verify", "agent/Z"], "/work/repo"),
        ],
        asked
    );
}

#[test]
fn a_row_is_asked_for_in_order() {
    let config = config(vec![spec("b", "agent/B", None)]);
    let (_, asked) = drive(repository, |talk| worktree_rows(&config, talk));
    assert_eq!(
        [
            Request::Exists { path: "/work/agent-B/.git".to_string() },
            status(&["git", "rev-parse", "--verify", "agent/B"], "/work/repo"),
            output(&["git", "branch", "--show-current"], "/work/agent-B"),
            output(&["git", "status", "--short"], "/work/agent-B"),
            output(
                &["git", "rev-list", "--left-right", "--count", "main...agent/B"],
                "/work/repo"
            ),
            output(&["git", "log", "-1", "--pretty=%s", "agent/B"], "/work/repo"),
        ],
        asked[5..]
    );
}

#[test]
fn of_two_worktrees_on_a_branch_the_last_counts() {
    let config = config(vec![spec("b", "twice", None)]);
    let answer = |request: &Request| match request {
        Request::Output { argv, .. } if argv[1] == "worktree" => wrote(
            "worktree /one\nbranch refs/heads/twice\n\nworktree /two\nbranch refs/heads/twice\n",
        ),
        request => repository(request),
    };
    let (rows, _) = drive(answer, |talk| worktree_rows(&config, talk));
    assert_eq!("/two", rows[0].path);
}

#[test]
fn a_listed_worktree_without_a_name_is_called_by_its_branch() {
    let config = config(Vec::new());
    let answer = |request: &Request| match request {
        Request::Output { argv, .. } if argv[1] == "worktree" => {
            wrote("worktree /\nbranch refs/heads/root\n")
        }
        request => repository(request),
    };
    let (rows, _) = drive(answer, |talk| worktree_rows(&config, talk));
    assert_eq!("root", rows[0].label);
}

#[test]
fn labels_are_ranked() {
    assert_eq!((0, "agent-A".to_string()), worktree_sort_key("agent-A"));
    assert_eq!(1, worktree_sort_key("agent-B").0);
    assert_eq!(2, worktree_sort_key("agent-C").0);
    assert_eq!(3, worktree_sort_key("agent-D").0);
    assert_eq!(10, worktree_sort_key("agent-E").0);
    assert_eq!(99, worktree_sort_key("my-annotation-tool").0);
}

#[test]
fn rows_are_sorted_by_rank_and_then_by_label() {
    let row = |label: &str, subject: &str| WorktreeRow {
        label: label.to_string(),
        branch: String::new(),
        path: String::new(),
        current_branch: String::new(),
        state: WorktreeState::Merged,
        dirty: false,
        summary: String::new(),
        ahead: 0,
        behind: 0,
        subject: subject.to_string(),
    };
    let rows = sort_rows(vec![
        row("annotation", ""),
        row("zeta", "first"),
        row("agent-D", ""),
        row("alpha", ""),
        row("zeta", "second"),
        row("agent-A", ""),
    ]);
    let found: Vec<(&str, &str)> =
        rows.iter().map(|row| (row.label.as_str(), row.subject.as_str())).collect();
    assert_eq!(
        vec![
            ("agent-A", ""),
            ("agent-D", ""),
            ("alpha", ""),
            ("zeta", "first"),
            ("zeta", "second"),
            ("annotation", ""),
        ],
        found
    );
}

#[test]
fn later_replies_do_not_change_what_was_asked() {
    let config = config(Vec::new());
    let (_, asked) = drive(repository, |talk| build_snapshot(&config, talk));
    let replies: Vec<Reply> = asked.iter().map(repository).collect();
    for count in 0..replies.len() {
        let known = replies[..count].to_vec();
        let outcome = build_snapshot(&config, &mut Conversation::new(&known));
        assert_eq!(asked[count], outcome.unwrap_err());
    }
}

#[test]
fn lists_are_read_on_both_sides_of_a_blank_line() {
    let parts = [
        "",
        "\n",
        "worktree /a\nbranch refs/heads/main\n",
        "branch lost\nworktree /b\ndetached\n",
        "worktree /c\r\nbranch c\r\n\r\nworktree /d\n",
    ];
    for first in parts {
        for second in parts.iter().chain(&["branch x", "worktree /e\nbranch e"]) {
            let mut expected = parse_worktree_list(first);
            expected.extend(parse_worktree_list(second));
            assert_eq!(expected, parse_worktree_list(&format!("{first}\n{second}")));
        }
    }
}
