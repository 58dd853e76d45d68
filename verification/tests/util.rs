use sp::conversation::{Conversation, Reply, Request};
use sp::util::{compact, owned, run_output, shell_join, shell_quote, success_output};

fn words(argv: &[&str]) -> Vec<String> {
    argv.iter().map(|word| word.to_string()).collect()
}

#[test]
fn compact_trims_by_display_width() {
    assert_eq!("ab...", compact("abcdef", 5));
}

#[test]
fn shell_join_quotes_spaces() {
    assert_eq!(
        "git commit -m 'hello world'",
        shell_join(&[
            "git".to_string(),
            "commit".to_string(),
            "-m".to_string(),
            "hello world".to_string()
        ])
    );
}

#[test]
fn compact_puts_words_on_one_line() {
    assert_eq!("a b c", compact("  a\n\tb \u{a0}\u{3000} c\r\n", 0));
    assert_eq!("", compact(" \n ", 10));
    assert_eq!("", compact("", 2));
}

#[test]
fn compact_leaves_what_fits() {
    assert_eq!("abcdef", compact("abcdef", 6));
    assert_eq!("abcdef", compact("abcdef", 0));
    assert_eq!("abcdef", compact("abcdef", 100));
}

#[test]
fn compact_takes_characters_under_a_small_limit() {
    assert_eq!("a", compact("abcdef", 1));
    assert_eq!("abc", compact("abcdef", 3));
    assert_eq!("a...", compact("abcdef", 4));
}

#[test]
fn compact_counts_wide_characters_twice() {
    assert_eq!("\u{65e5}\u{672c}", compact("\u{65e5}\u{672c}", 4));
    assert_eq!("\u{65e5}...", compact("\u{65e5}\u{672c}\u{8a9e}", 5));
    assert_eq!("...", compact("\u{65e5}\u{672c}\u{8a9e}", 4));
}

#[test]
fn compact_does_not_count_control_characters() {
    assert_eq!("a\u{1}b...", compact("a\u{1}bcdefg", 5));
}

#[test]
fn compact_drops_the_space_before_the_dots() {
    assert_eq!("ab...", compact("ab cdefgh", 6));
    assert_eq!("ab c...", compact("ab cdefgh", 7));
}

#[test]
fn shell_quote_leaves_plain_words() {
    assert_eq!("refs/heads/agent-A_1.2:x", shell_quote("refs/heads/agent-A_1.2:x"));
    assert_eq!("", shell_quote(""));
}

#[test]
fn shell_quote_writes_quotes_outside_of_quotes() {
    assert_eq!("'it'\\''s'", shell_quote("it's"));
    assert_eq!("''\\'''", shell_quote("'"));
    assert_eq!("'\u{e4}'", shell_quote("\u{e4}"));
    assert_eq!("'$HOME'", shell_quote("$HOME"));
}

#[test]
fn shell_join_of_nothing_is_empty() {
    assert_eq!("", shell_join(&[]));
    assert_eq!("a b", shell_join(&words(&["a", "b"])));
}

#[test]
fn run_output_gives_what_a_program_wrote() {
    let replies = vec![Reply::Ran {
        code: Some(0),
        stdout: b"hello\n".to_vec(),
        stderr: b"noise".to_vec(),
    }];
    let mut talk = Conversation::new(&replies);
    assert_eq!(Ok("hello\n".to_string()), run_output(&["echo", "hello"], None, &mut talk));
}

#[test]
fn run_output_asks_for_the_program() {
    let replies = Vec::new();
    let mut talk = Conversation::new(&replies);
    assert_eq!(
        Err(Request::Output {
            argv: words(&["git", "status"]),
            cwd: Some("/repo".to_string())
        }),
        run_output(&["git", "status"], Some("/repo"), &mut talk)
    );
}

#[test]
fn run_output_of_no_program_is_empty() {
    let replies = Vec::new();
    let mut talk = Conversation::new(&replies);
    assert_eq!(Ok(String::new()), run_output(&[], None, &mut talk));
}

#[test]
fn failed_programs_wrote_nothing() {
    let stdout = b"partial".to_vec();
    for code in [Some(1), Some(-1), None] {
        let reply = Reply::Ran { code, stdout: stdout.clone(), stderr: Vec::new() };
        assert_eq!("", success_output(&reply));
        assert!(!reply.success());
    }
    assert_eq!("", success_output(&Reply::Failed));
    assert_eq!("", success_output(&Reply::Exists(true)));
    assert!(!Reply::Canonical("/".to_string()).success());
}

#[test]
fn output_is_read_as_lossy_text() {
    let reply = Reply::Ran {
        code: Some(0),
        stdout: vec![0x61, 0xff, 0xc3, 0xa4],
        stderr: Vec::new(),
    };
    assert_eq!("a\u{fffd}\u{e4}", success_output(&reply));
    assert!(reply.success());
}

#[test]
fn owned_copies_words() {
    assert_eq!(words(&["a", "b"]), owned(&["a", "b"]));
}

// Reads a command line as a shell does, as far as quotes and backslashes go.
fn read_back(line: &str) -> Vec<String> {
    let mut found = Vec::new();
    let mut word: Option<String> = None;
    let mut quoted = false;
    let mut chars = line.chars();
    while let Some(ch) = chars.next() {
        match ch {
            '\'' => {
                quoted = !quoted;
                word.get_or_insert_with(String::new);
            }
            _ if quoted => word.get_or_insert_with(String::new).push(ch),
            ' ' => found.extend(word.take()),
            '\\' => word.get_or_insert_with(String::new).push(chars.next().unwrap()),
            _ => word.get_or_insert_with(String::new).push(ch),
        }
    }
    found.extend(word);
    found
}

#[test]
fn shell_join_is_read_back() {
    for argv in [
        words(&["git", "commit", "-m", "hello world"]),
        words(&["it's", "''", "a\\b", "x'y'z"]),
        words(&["$(rm)", "*", "a\nb", " "]),
    ] {
        assert_eq!(argv, read_back(&shell_join(&argv)));
    }
}

#[test]
fn compacting_twice_changes_nothing() {
    for value in ["ab cdefgh", "a  b\tc d e f g", "abcdefgh", "a b c d e f", "   x", ""] {
        let line = compact(value, 0);
        assert_eq!(value.split_whitespace().collect::<Vec<_>>().join(" "), line);
        for limit in 4..12 {
            let cut = compact(value, limit);
            assert!(cut.len() <= limit);
            let expected = if line.len() <= limit {
                line.clone()
            } else {
                format!("{}...", line[..limit - 3].trim_end())
            };
            assert_eq!(expected, cut);
            assert_eq!(cut, compact(&cut, limit));
        }
    }
}
