//! How a shell reads a simple command line, and that it reads back the words that
//! were written.
use vstd::prelude::*;

use crate::text;
use crate::util;

verus! {

/// The position of the first single quote in a text from `from` on, if there is
/// one.
pub open spec fn quote_from(line: Seq<char>, from: int) -> Option<int>
    decreases line.len() - from,
{
    if !(0 <= from < line.len()) {
        None
    } else if line[from] == '\'' {
        Some(from)
    } else {
        quote_from(line, from + 1)
    }
}

/// What has been read of a word so far; nothing if it has not begun.
pub open spec fn begun(word: Option<Seq<char>>) -> Seq<char> {
    match word {
        Some(word) => word,
        None => seq![],
    }
}

/// The words that a shell reads from a line, where `word` has been read so far of
/// the first one: a space ends a word, what is in single quotes is taken as it
/// stands, and so is a character behind a backslash. A line with an open quote has
/// no reading, nor has one with a character that means something else to a shell.
pub open spec fn shell_reads(line: Seq<char>, word: Option<Seq<char>>) -> Option<Seq<Seq<char>>>
    decreases line.len(),
{
    if line.len() == 0 {
        Some(
            match word {
                Some(word) => seq![word],
                None => seq![],
            },
        )
    } else if line[0] == ' ' {
        match (word, shell_reads(line.skip(1), None)) {
            (Some(word), Some(rest)) => Some(seq![word] + rest),
            (_, rest) => rest,
        }
    } else if line[0] == '\'' {
        proof {
            lemma_quote_from(line, 1);
        }
        match quote_from(line, 1) {
            None => None,
            Some(end) => shell_reads(
                line.skip(end + 1),
                Some(begun(word) + line.subrange(1, end)),
            ),
        }
    } else if line[0] == '\\' {
        if line.len() == 1 {
            None
        } else {
            shell_reads(line.skip(2), Some(begun(word).push(line[1])))
        }
    } else if util::is_plain(line[0]) {
        shell_reads(line.skip(1), Some(begun(word).push(line[0])))
    } else {
        None
    }
}

/// A quote is found where there is one, and the first.
pub proof fn lemma_quote_from(line: Seq<char>, from: int)
    requires
        0 <= from,
    ensures
        quote_from(line, from) matches Some(at) ==> {
            &&& from <= at < line.len()
            &&& line[at] == '\''
        },
    decreases line.len() - from,
{
    if from < line.len() && line[from] != '\'' {
        lemma_quote_from(line, from + 1);
    }
}

proof fn lemma_quote_at(line: Seq<char>, from: int, at: int)
    requires
        0 <= from <= at < line.len(),
        line[at] == '\'',
        forall|i: int| from <= i < at ==> #[trigger] line[i] != '\'',
    ensures
        quote_from(line, from) == Some(at),
    decreases at - from,
{
    if from < at {
        lemma_quote_at(line, from + 1, at);
    }
}

/// Plain characters are read as they stand.
proof fn lemma_plain_is_read(part: Seq<char>, rest: Seq<char>, word: Option<Seq<char>>)
    requires
        part.len() > 0,
        forall|i: int| 0 <= i < part.len() ==> util::is_plain(#[trigger] part[i]),
    ensures
        shell_reads(part + rest, word) == shell_reads(rest, Some(begun(word) + part)),
    decreases part.len(),
{
    let line = part + rest;
    let first = part[0];
    let tail = part.skip(1);
    assert(line[0] == first);
    assert(util::is_plain(part[0]));
    assert(line.skip(1) =~= tail + rest);
    let grown = Some(begun(word).push(first));
    if part.len() == 1 {
        assert(tail + rest =~= rest);
        assert(begun(word) + part =~= begun(word).push(first));
    } else {
        lemma_plain_is_read(tail, rest, grown);
        assert(begun(word).push(first) + tail =~= begun(word) + part);
    }
}

/// What is in single quotes is read as it stands.
proof fn lemma_quoted_is_read(part: Seq<char>, rest: Seq<char>, word: Option<Seq<char>>)
    requires
        forall|i: int| 0 <= i < part.len() ==> #[trigger] part[i] != '\'',
    ensures
        shell_reads(seq!['\''] + part + seq!['\''] + rest, word) == shell_reads(
            rest,
            Some(begun(word) + part),
        ),
{
    let line = seq!['\''] + part + seq!['\''] + rest;
    let end: int = part.len() as int + 1;
    assert(line[0] == '\'');
    assert(line[end] == '\'');
    assert forall|i: int| 1 <= i < end implies #[trigger] line[i] != '\'' by {
        assert(line[i] == part[i - 1]);
    }
    lemma_quote_at(line, 1, end);
    assert(line.subrange(1, end) =~= part);
    assert(line.skip(end + 1) =~= rest);
}

/// A quote behind a backslash is read as a quote.
proof fn lemma_escaped_is_read(rest: Seq<char>, word: Option<Seq<char>>)
    ensures
        shell_reads(seq!['\\', '\''] + rest, word) == shell_reads(
            rest,
            Some(begun(word).push('\'')),
        ),
{
    let line = seq!['\\', '\''] + rest;
    assert(line[0] == '\\');
    assert(line[1] == '\'');
    assert(line.skip(2) =~= rest);
}

/// Pieces without quotes, each in single quotes and with an escaped quote between
/// neighbours, are read as the pieces with a quote between neighbours.
proof fn lemma_pieces_are_read(
    parts: Seq<Seq<char>>,
    rest: Seq<char>,
    word: Option<Seq<char>>,
)
    requires
        parts.len() > 0,
        forall|i: int|
            0 <= i < parts.len() ==> !text::holds(#[trigger] parts[i], seq!['\'']),
    ensures
        shell_reads(
            seq!['\''] + text::joined(parts, seq!['\'', '\\', '\'', '\'']) + seq!['\''] + rest,
            word,
        ) == shell_reads(rest, Some(begun(word) + text::joined(parts, seq!['\'']))),
    decreases parts.len(),
{
    let between = seq!['\'', '\\', '\'', '\''];
    let quote = seq!['\''];
    let first = parts[0];
    assert forall|i: int| 0 <= i < first.len() implies #[trigger] first[i] != '\'' by {
        if first[i] == '\'' {
            assert(first.subrange(i, i + 1) =~= quote);
            assert(text::occurs(first, quote, i));
        }
    }
    if parts.len() == 1 {
        lemma_quoted_is_read(first, rest, word);
    } else {
        let tail = parts.skip(1);
        text::lemma_joined_first(parts, between);
        text::lemma_joined_first(parts, quote);
        let inner = quote + text::joined(tail, between) + quote + rest;
        let escaped = seq!['\\', '\''] + inner;
        let line = quote + text::joined(parts, between) + quote + rest;
        assert(line =~= quote + first + quote + escaped);
        lemma_quoted_is_read(first, escaped, word);
        let read = Some(begun(word) + first);
        lemma_escaped_is_read(inner, read);
        let grown = Some(begun(read).push('\''));
        assert forall|i: int| 0 <= i < tail.len() implies !text::holds(
            #[trigger] tail[i],
            seq!['\''],
        ) by {
            assert(tail[i] == parts[i + 1]);
        }
        lemma_pieces_are_read(tail, rest, grown);
        assert(begun(grown) + text::joined(tail, quote) =~= begun(word) + text::joined(
            parts,
            quote,
        ));
    }
}

/// A word that is not empty is read as it was before it was quoted.
proof fn lemma_word_is_read(word: Seq<char>, rest: Seq<char>)
    requires
        word.len() > 0,
    ensures
        shell_reads(util::quoted(word) + rest, None) == shell_reads(rest, Some(word)),
{
    let quote = seq!['\''];
    if forall|i: int| 0 <= i < word.len() ==> util::is_plain(#[trigger] word[i]) {
        lemma_plain_is_read(word, rest, None);
        assert(begun(None) + word =~= word);
    } else {
        text::pieces_make_up_the_text(word, quote);
        let parts = text::pieces(word, quote);
        assert(parts.len() > 0);
        lemma_pieces_are_read(parts, rest, None);
        assert(begun(None) + word =~= word);
    }
}

proof fn lemma_words_are_read(argv: Seq<Seq<char>>)
    requires
        argv.len() > 0,
        forall|i: int| 0 <= i < argv.len() ==> (#[trigger] argv[i]).len() > 0,
    ensures
        shell_reads(util::command_line(argv), None) == Some(argv),
    decreases argv.len(),
{
    let quotes = argv.map_values(|word: Seq<char>| util::quoted(word));
    let space = seq![' '];
    let first = argv[0];
    if argv.len() == 1 {
        lemma_word_is_read(first, seq![]);
        assert(util::command_line(argv) =~= util::quoted(first) + Seq::<char>::empty());
        assert(argv =~= seq![first]);
    } else {
        let tail = argv.skip(1);
        text::lemma_joined_first(quotes, space);
        assert(quotes.skip(1) =~= tail.map_values(|word: Seq<char>| util::quoted(word)));
        let rest = space + util::command_line(tail);
        assert(util::command_line(argv) =~= util::quoted(first) + rest);
        lemma_word_is_read(first, rest);
        assert(rest[0] == ' ');
        assert(rest.skip(1) =~= util::command_line(tail));
        assert forall|i: int| 0 <= i < tail.len() implies (#[trigger] tail[i]).len() > 0 by {
            assert(tail[i] == argv[i + 1]);
        }
        lemma_words_are_read(tail);
        assert(argv =~= seq![first] + tail);
    }
}

/// A shell reads back from a command line the words that were written on it, as
/// long as none of them is empty.
pub proof fn command_lines_are_read_back(argv: Seq<Seq<char>>)
    requires
        forall|i: int| 0 <= i < argv.len() ==> (#[trigger] argv[i]).len() > 0,
    ensures
        shell_reads(util::command_line(argv), None) == Some(argv),
{
    if argv.len() > 0 {
        lemma_words_are_read(argv);
    } else {
        assert(util::command_line(argv) =~= seq![]);
        assert(argv =~= seq![]);
    }
}

}
