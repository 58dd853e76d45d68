use sp::config::{
    config_file, expand_relative_path, shell_words, Config, FileConfig, FileWorktree, WorktreeSpec,
};
use sp::conversation::{Conversation, Reply, Request};

// The settings of a file, as far as the tests write them.
fn file_config(content: &str) -> FileConfig {
    let table: toml::Table = toml::from_str(content).unwrap();
    let text = |table: &toml::Table, key: &str| {
        table.get(key).and_then(|value| value.as_str()).map(str::to_string)
    };
    FileConfig {
        base_branch: text(&table, "base_branch"),
        deploy_command: text(&table, "deploy_command"),
        worktree: table.get("worktree").and_then(|rows| rows.as_array()).map(|rows| {
            rows.iter()
                .map(|row| {
                    let row = row.as_table().unwrap();
                    FileWorktree {
                        label: text(row, "label").unwrap(),
                        branch: text(row, "branch").unwrap(),
                        path: text(row, "path"),
                    }
                })
                .collect()
        }),
    }
}

#[test]
fn parses_minimal_config_file() {
    let file = file_config(
        r#"
base_branch = "trunk"
deploy_command = "bin/deploy"

[[worktree]]
label = "agent-A"
branch = "agent/A"
path = "../repo-worktrees/agent-A"
"#,
    );
    let replies = vec![Reply::Exists(true)];
    let mut talk = Conversation::new(&replies);
    assert_eq!(Ok(Some("/repo/sp.toml".to_string())), config_file(None, "/repo", &mut talk));

    let config = Config::load("/repo".to_string(), "main".to_string(), Some(file));

    assert_eq!("trunk", config.base_branch);
    assert_eq!(Some(vec!["bin/deploy".to_string()]), config.deploy_command);
    assert_eq!("agent-A", config.worktrees[0].label);
    assert_eq!("agent/A", config.worktrees[0].branch);
    assert_eq!(
        Some("/repo/../repo-worktrees/agent-A".to_string()),
        config.worktrees[0].path
    );
}

#[test]
fn without_a_file_the_arguments_decide() {
    let config = Config::load("/repo".to_string(), "main".to_string(), None);
    assert_eq!("/repo", config.repo_path);
    assert_eq!("main", config.base_branch);
    assert_eq!(None, config.deploy_command);
    assert!(config.worktrees.is_empty());
}

#[test]
fn what_a_file_leaves_open_the_arguments_decide() {
    let file = FileConfig { base_branch: None, deploy_command: None, worktree: None };
    let config = Config::load("/repo".to_string(), "main".to_string(), Some(file));
    assert_eq!("main", config.base_branch);
    assert_eq!(None, config.deploy_command);
    assert!(config.worktrees.is_empty());
}

#[test]
fn a_blank_deploy_command_has_no_words() {
    let file = FileConfig {
        base_branch: None,
        deploy_command: Some("  ".to_string()),
        worktree: Some(vec![FileWorktree {
            label: "a".to_string(),
            branch: "b".to_string(),
            path: None,
        }]),
    };
    let config = Config::load("/repo".to_string(), "main".to_string(), Some(file));
    assert_eq!(Some(Vec::new()), config.deploy_command);
    assert_eq!(None, config.worktrees[0].path);
}

#[test]
fn a_given_file_is_read_without_looking() {
    let replies = Vec::new();
    let mut talk = Conversation::new(&replies);
    assert_eq!(
        Ok(Some("x.toml".to_string())),
        config_file(Some("x.toml".to_string()), "/repo", &mut talk)
    );
}

#[test]
fn the_default_file_is_read_if_it_exists() {
    let replies = Vec::new();
    let mut talk = Conversation::new(&replies);
    assert_eq!(
        Err(Request::Exists { path: "/repo/sp.toml".to_string() }),
        config_file(None, "/repo", &mut talk)
    );
    for reply in [Reply::Exists(false), Reply::Failed] {
        let replies = vec![reply];
        let mut talk = Conversation::new(&replies);
        assert_eq!(Ok(None), config_file(None, "/repo", &mut talk));
    }
}

#[test]
fn relative_paths_start_at_the_repository() {
    assert_eq!("/repo/x/y", expand_relative_path("/repo", "x/y".to_string()));
    assert_eq!("/x/y", expand_relative_path("/repo", "/x/y".to_string()));
}

#[test]
fn commands_are_split_at_white_space() {
    assert_eq!(
        vec!["bin/deploy".to_string(), "--to".to_string(), "'a".to_string(), "b'".to_string()],
        shell_words(" bin/deploy  --to 'a b'\n")
    );
}

fn named(path: Option<&str>) -> WorktreeSpec {
    WorktreeSpec {
        label: "a".to_string(),
        branch: "b".to_string(),
        path: path.map(str::to_string),
    }
}

#[test]
fn settings_are_compared_by_what_their_paths_lead_to() {
    let one = Config {
        repo_path: "/repo".to_string(),
        base_branch: "main".to_string(),
        deploy_command: Some(vec!["x".to_string()]),
        worktrees: vec![named(Some("/w/a"))],
    };
    let mut other = one.clone();
    other.repo_path = "/repo/".to_string();
    other.worktrees = vec![named(Some("/w/./a"))];
    assert!(one == other);
    other.deploy_command = None;
    assert!(one != other);
    other.deploy_command = Some(vec!["y".to_string()]);
    assert!(one != other);
    other.deploy_command = one.deploy_command.clone();
    other.worktrees = vec![named(None)];
    assert!(one != other);
    other.worktrees = Vec::new();
    assert!(one != other);
    assert!(named(None) == named(None));
}
