use sp::number::{parse_integer, signed_text, unsigned_text};
use sp::text::{
    blank, chars_of, contains, is_whitespace, join, no_later, pad, replace, same_text, slice_text,
    split, split_lines, split_once, split_whitespace, strip_prefix, take_chars,
    to_ascii_lowercase, trim, trim_end,
};

const SAMPLES: [&str; 18] = [
    "",
    " ",
    "a",
    "  a  b ",
    "a\nb\r\nc",
    "\n",
    "\r\n",
    "a\r",
    "a\r\r\n\n",
    "\u{a0}x\u{3000}",
    "a, b, c",
    ", ",
    "Ready - 1 branch ready, 2 branches dirty",
    "MERGE Failed",
    "aaa",
    "\u{e4}\u{65e5} \u{1f600}",
    "worktree /repo",
    "--- - ---",
];

#[test]
fn white_space_is_that_of_unicode() {
    for code in 0..=0x10ffff_u32 {
        if let Some(ch) = char::from_u32(code) {
            assert_eq!(ch.is_whitespace(), is_whitespace(ch), "{code:x}");
        }
    }
}

#[test]
fn texts_are_split_like_in_std() {
    for sample in SAMPLES {
        let words: Vec<String> = sample.split_whitespace().map(str::to_string).collect();
        assert_eq!(words, split_whitespace(sample), "{sample:?}");
        let lines: Vec<String> = sample.lines().map(str::to_string).collect();
        assert_eq!(lines, split_lines(sample), "{sample:?}");
        for part in [", ", " - ", "a", "aa", "-", " "] {
            let pieces: Vec<String> = sample.split(part).map(str::to_string).collect();
            assert_eq!(pieces, split(sample, part), "{sample:?} {part:?}");
            assert_eq!(sample.replace(part, "<>"), replace(sample, part, "<>"));
            assert_eq!(sample.contains(part), contains(sample, part));
            let halves = sample.split_once(part).map(|(a, b)| (a.to_string(), b.to_string()));
            assert_eq!(halves, split_once(sample, part), "{sample:?} {part:?}");
            assert_eq!(
                sample.strip_prefix(part).map(str::to_string),
                strip_prefix(sample, part)
            );
        }
    }
}

#[test]
fn texts_are_trimmed_like_in_std() {
    for sample in SAMPLES {
        assert_eq!(sample.trim(), trim(sample), "{sample:?}");
        assert_eq!(sample.trim_end(), trim_end(sample), "{sample:?}");
        assert_eq!(sample.trim().is_empty(), blank(sample), "{sample:?}");
        assert_eq!(sample.to_ascii_lowercase(), to_ascii_lowercase(sample));
        assert_eq!(sample.chars().collect::<Vec<_>>(), chars_of(sample));
        for count in 0..6 {
            assert_eq!(sample.chars().take(count).collect::<String>(), take_chars(sample, count));
            assert_eq!(format!("{sample:<count$}"), pad(sample, count), "{sample:?}");
        }
    }
}

#[test]
fn texts_are_compared_like_in_std() {
    for left in SAMPLES {
        for right in SAMPLES {
            assert_eq!(left <= right, no_later(left, right), "{left:?} {right:?}");
            assert_eq!(left == right, same_text(left, right));
        }
    }
}

#[test]
fn pieces_put_together_are_the_text() {
    for sample in SAMPLES {
        for part in [", ", "a", " "] {
            assert_eq!(sample, join(&split(sample, part), part));
        }
    }
}

#[test]
fn empty_parts_are_everywhere() {
    assert!(contains("", ""));
    assert!(contains("abc", ""));
    assert_eq!(Some((String::new(), "abc".to_string())), split_once("abc", ""));
    assert_eq!(Some("abc".to_string()), strip_prefix("abc", ""));
}

#[test]
fn lists_are_joined_with_separators_between() {
    assert_eq!("", join(&Vec::new(), ", "));
    assert_eq!("a", join(&vec!["a".to_string()], ", "));
    assert_eq!("a, , b", join(&vec!["a".to_string(), String::new(), "b".to_string()], ", "));
}

#[test]
fn texts_are_sliced_by_character() {
    let chars = chars_of("a\u{65e5}bc");
    assert_eq!("\u{65e5}b", slice_text(&chars, 1, 3));
    assert_eq!("", slice_text(&chars, 4, 4));
}

#[test]
fn written_lines_come_back() {
    let lines = vec!["one".to_string(), String::new(), " two".to_string()];
    let text: String = lines.iter().map(|line| format!("{line}\n")).collect();
    assert_eq!(lines, split_lines(&text));
}

#[test]
fn numbers_are_written_like_in_std() {
    for value in [0, 7, 10, 99, 100, 1234567890, u64::MAX] {
        assert_eq!(value.to_string(), unsigned_text(value));
    }
    for value in [0, 1, -1, 10, -10, i64::MAX, i64::MIN, -907] {
        assert_eq!(value.to_string(), signed_text(value));
    }
}

#[test]
fn numbers_are_read_like_in_std() {
    for text in [
        "",
        "0",
        "-0",
        "+5",
        "-",
        "+",
        "--1",
        "1 ",
        " 1",
        "007",
        "12a",
        "9223372036854775807",
        "9223372036854775808",
        "-9223372036854775808",
        "-9223372036854775809",
        "99999999999999999999999",
        "\u{664}",
    ] {
        assert_eq!(text.parse::<i64>().ok(), parse_integer(text), "{text:?}");
    }
}

#[test]
fn written_numbers_are_read_back() {
    for value in [0, 42, -42, i64::MAX, i64::MIN] {
        assert_eq!(Some(value), parse_integer(&signed_text(value)));
    }
}
