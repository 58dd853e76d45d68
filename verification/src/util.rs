//! Text for one line of a terminal.
use unicode_width::{UnicodeWidthChar, UnicodeWidthStr};
use vstd::prelude::*;

use crate::conversation;
use crate::conversation::{Conversation, Reply, ReplyView, Request, RequestView, Script};
use crate::text;
use crate::text::{
    chars_of, join, lossy_text, replace, slice_text, split_whitespace, take_chars, trim_end,
};

verus! {

broadcast use crate::conversation::group_play;

/// The columns that `UnicodeWidthChar::width` gives a character.
pub uninterp spec fn char_width(ch: char) -> Option<usize>;

/// The columns that `UnicodeWidthStr::width` gives a text.
pub uninterp spec fn text_width(text: Seq<char>) -> usize;

/// Whether the character is one of printable ASCII: a space, or a sign with ink.
pub open spec fn is_printable_ascii(ch: char) -> bool {
    ' ' <= ch <= '~'
}

/// Whether a text is made of printable ASCII.
pub open spec fn is_printable(text: Seq<char>) -> bool {
    forall|i: int| 0 <= i < text.len() ==> is_printable_ascii(#[trigger] text[i])
}

/// `UnicodeWidthChar::width`, by its name `char_width`. A control character has
/// no width, and a character of printable ASCII takes one column.
#[verifier::external_body]
fn width_of_char(ch: char) -> (width: Option<usize>)
    ensures
        width == char_width(ch),
        width is None <==> (ch < ' ' || '\u{7f}' <= ch < '\u{a0}'),
        is_printable_ascii(ch) ==> width == Some(1usize),
{
    UnicodeWidthChar::width(ch)
}

/// `UnicodeWidthStr::width`, by its name `text_width`. A text of printable ASCII
/// takes one column for each character.
#[verifier::external_body]
fn width_of_text(text: &str) -> (width: usize)
    ensures
        width == text_width(text@),
        is_printable(text@) ==> width == text@.len(),
{
    UnicodeWidthStr::width(text)
}

/// The columns that a character adds to a line; a control character adds none.
pub open spec fn columns(ch: char) -> nat {
    match char_width(ch) {
        Some(width) => width as nat,
        None => 0,
    }
}

/// The columns of the characters of a text, added up.
pub open spec fn total_columns(text: Seq<char>) -> nat
    decreases text.len(),
{
    if text.len() == 0 {
        0
    } else {
        total_columns(text.drop_last()) + columns(text.last())
    }
}

/// How many characters of `text` fit into `budget` columns, from `from` on.
pub open spec fn fitting_from(text: Seq<char>, budget: nat, from: int) -> int
    decreases text.len() - from,
{
    if 0 <= from < text.len() && total_columns(text.take(from + 1)) <= budget {
        fitting_from(text, budget, from + 1)
    } else {
        from
    }
}

/// The longest beginning of `text` that fits into `budget` columns.
pub open spec fn fitting(text: Seq<char>, budget: nat) -> Seq<char> {
    text.take(fitting_from(text, budget, 0))
}

/// The words of `text` on one line, with one space between neighbours.
pub open spec fn one_line(text: Seq<char>) -> Seq<char> {
    text::joined(text::words(text), seq![' '])
}

/// `text` on one line, cut to `limit` columns; no limit where that is zero.
pub open spec fn compacted(text: Seq<char>, limit: nat) -> Seq<char> {
    let line = one_line(text);
    if limit == 0 || text_width(line) <= limit {
        line
    } else if limit <= 3 {
        if limit < line.len() {
            line.take(limit as int)
        } else {
            line
        }
    } else {
        text::trimmed_end(fitting(line, (limit - 3) as nat)) + seq!['.', '.', '.']
    }
}

/// A line of printable ASCII, one column for each character, cut to `limit` of them:
/// where it is longer, three dots stand at its end.
pub open spec fn cut_line(line: Seq<char>, limit: nat) -> Seq<char> {
    if line.len() <= limit {
        line
    } else {
        text::trimmed_end(line.take(limit - 3)) + seq!['.', '.', '.']
    }
}

/// Puts a text on one line and cuts it to a number of columns. Printable ASCII is
/// cut by its characters; the result then fits, and is not changed by doing the
/// same again.
pub fn compact(value: &str, limit: usize) -> (text: String)
    ensures
        text@ == compacted(value@, limit as nat),
        limit > 3 && is_printable(one_line(value@)) ==> {
            &&& text@ == cut_line(one_line(value@), limit as nat)
            &&& text@.len() <= limit
            &&& is_printable(text@)
            &&& one_line(text@) == text@
        },
        0 < limit <= 3 && is_printable(one_line(value@)) ==> text@ == if one_line(value@).len()
            <= limit {
            one_line(value@)
        } else {
            one_line(value@).take(limit as int)
        },
{
    let found = split_whitespace(value);
    proof {
        reveal_strlit(" ");
        assert(" "@ =~= seq![' ']);
        cut_lines_fit(value@, limit as nat);
    }
    let line = join(&found, " ");
    if limit == 0 || width_of_text(line.as_str()) <= limit {
        return line;
    }
    if limit <= 3 {
        return take_chars(line.as_str(), limit);
    }
    let chars = chars_of(line.as_str());
    let budget: usize = limit - 3;
    let mut used: usize = 0;
    let mut count: usize = 0;
    while count < chars.len()
        invariant_except_break
            fitting_from(line@, budget as nat, count as int) == fitting_from(
                line@,
                budget as nat,
                0,
            ),
        invariant
            count <= chars.len(),
            chars@ == line@,
            used <= budget,
            used == total_columns(line@.take(count as int)),
            is_printable(line@) ==> used == count,
        ensures
            count == fitting_from(line@, budget as nat, 0),
            is_printable(line@) ==> count == budget || count == chars.len(),
        decreases chars.len() - count,
    {
        let width: usize = match width_of_char(chars[count]) {
            Some(width) => width,
            None => 0,
        };
        proof {
            assert(line@.take(count + 1).drop_last() =~= line@.take(count as int));
        }
        if width > budget - used {
            break;
        }
        used = used + width;
        count = count + 1;
    }
    let kept = slice_text(&chars, 0, count);
    assert(kept@ =~= fitting(line@, budget as nat));
    assert(is_printable(line@) ==> kept@ =~= line@.take(budget as int));
    proof {
        reveal_strlit("...");
        assert("..."@ =~= seq!['.', '.', '.']);
    }
    trim_end(kept.as_str()).concat("...")
}

/// Whether a shell reads the character as it stands.
pub open spec fn is_plain(ch: char) -> bool {
    ||| '0' <= ch <= '9'
    ||| 'A' <= ch <= 'Z'
    ||| 'a' <= ch <= 'z'
    ||| ch == '_'
    ||| ch == '-'
    ||| ch == '.'
    ||| ch == '/'
    ||| ch == ':'
}

/// A word as a shell has to be given it: plain, or in single quotes, with each
/// quote in it written outside of them.
pub open spec fn quoted(word: Seq<char>) -> Seq<char> {
    if forall|i: int| 0 <= i < word.len() ==> is_plain(#[trigger] word[i]) {
        word
    } else {
        seq!['\''] + text::replaced(word, seq!['\''], seq!['\'', '\\', '\'', '\'']) + seq!['\'']
    }
}

/// A command line: its words quoted, with one space between neighbours.
pub open spec fn command_line(argv: Seq<Seq<char>>) -> Seq<char> {
    text::joined(argv.map_values(|word: Seq<char>| quoted(word)), seq![' '])
}

fn is_plain_char(ch: char) -> (yes: bool)
    ensures
        yes == is_plain(ch),
{
    ('0' <= ch && ch <= '9') || ('A' <= ch && ch <= 'Z') || ('a' <= ch && ch <= 'z') || ch == '_'
        || ch == '-' || ch == '.' || ch == '/' || ch == ':'
}

/// Quotes a word for a shell.
pub fn shell_quote(value: &str) -> (text: String)
    ensures
        text@ == quoted(value@),
{
    let chars = chars_of(value);
    let mut i: usize = 0;
    let mut plain = true;
    while i < chars.len()
        invariant
            i <= chars.len(),
            chars@ == value@,
            plain == (forall|j: int| 0 <= j < i ==> is_plain(#[trigger] value@[j])),
        decreases chars.len() - i,
    {
        if !is_plain_char(chars[i]) {
            plain = false;
            assert(!is_plain(value@[i as int]));
        }
        i = i + 1;
    }
    if plain {
        return value.to_owned();
    }
    proof {
        reveal_strlit("'");
        reveal_strlit("'\\''");
        assert("'"@ =~= seq!['\'']);
        assert("'\\''"@ =~= seq!['\'', '\\', '\'', '\'']);
    }
    let mut text = String::new();
    text.append("'");
    text.append(replace(value, "'", "'\\''").as_str());
    text.append("'");
    assert(text@ =~= quoted(value@));
    text
}

/// Writes a command as a line for a shell.
pub fn shell_join(argv: &[String]) -> (text: String)
    ensures
        text@ == command_line(argv.deep_view()),
{
    let mut parts: Vec<String> = Vec::new();
    let mut i: usize = 0;
    while i < argv.len()
        invariant
            i <= argv.len(),
            parts.len() == i,
            forall|j: int| 0 <= j < i ==> (#[trigger] parts[j])@ == quoted(argv[j]@),
        decreases argv.len() - i,
    {
        parts.push(shell_quote(argv[i].as_str()));
        i = i + 1;
    }
    assert(parts.deep_view() =~= argv.deep_view().map_values(|word: Seq<char>| quoted(word)));
    proof {
        reveal_strlit(" ");
        assert(" "@ =~= seq![' ']);
    }
    join(&parts, " ")
}

/// What a program wrote, where it ran and reported success; nothing where not.
pub open spec fn output_text(reply: ReplyView) -> Seq<char> {
    match reply {
        ReplyView::Ran { code: Some(0), stdout, .. } => text::utf8_lossy(stdout),
        _ => seq![],
    }
}

/// Runs a program for what it writes. A command without words runs nothing.
pub open spec fn output_script(argv: Seq<Seq<char>>, cwd: Option<Seq<char>>) -> Script<Seq<char>> {
    if argv.len() == 0 {
        Script::End(seq![])
    } else {
        Script::Ask(
            RequestView::Output { argv, cwd },
            |reply: ReplyView| Script::End(output_text(reply)),
        )
    }
}

/// Owned copies of words.
pub fn owned(words: &[&str]) -> (copies: Vec<String>)
    ensures
        copies.deep_view() == words.deep_view(),
{
    let mut copies: Vec<String> = Vec::new();
    let mut i: usize = 0;
    while i < words.len()
        invariant
            i <= words.len(),
            copies.len() == i,
            forall|j: int| 0 <= j < i ==> (#[trigger] copies[j])@ == words[j]@,
        decreases words.len() - i,
    {
        copies.push(words[i].to_owned());
        i = i + 1;
    }
    assert(copies.deep_view() =~= words.deep_view());
    copies
}

/// Runs a program and gives what it wrote, or nothing if it failed.
pub fn run_output(argv: &[&str], cwd: Option<&str>, talk: &mut Conversation) -> (outcome: Result<
    String,
    Request,
>)
    ensures
        (final(talk).record(), conversation::seen(outcome)) == conversation::play(
            output_script(argv.deep_view(), cwd.deep_view()),
            old(talk).record(),
        ),
{
    if argv.len() == 0 {
        let nothing = String::new();
        assert(nothing@ =~= seq![]);
        return Ok(nothing);
    }
    let cwd: Option<String> = match cwd {
        Some(path) => Some(path.to_owned()),
        None => None,
    };
    match talk.ask(Request::Output { argv: owned(argv), cwd }) {
        Err(request) => Err(request),
        Ok(reply) => Ok(success_output(reply)),
    }
}

/// What a program wrote, where it ran and reported success; nothing where not.
pub fn success_output(reply: &Reply) -> (text: String)
    ensures
        text@ == output_text(reply.deep_view()),
        reply.deep_view() matches ReplyView::Ran { code, stdout, .. } ==> code == Some(0i32)
            && vstd::utf8::valid_utf8(stdout) ==> text@ == vstd::utf8::decode_utf8(stdout),
{
    match reply {
        Reply::Ran { code: Some(0), stdout, .. } => lossy_text(stdout),
        _ => String::new(),
    }
}

/// Whether a text is one word: not empty, and without white space.
pub open spec fn is_word(word: Seq<char>) -> bool {
    word.len() > 0 && forall|i: int| 0 <= i < word.len() ==> !text::is_white(#[trigger] word[i])
}

proof fn lemma_words_are_words(value: Seq<char>, from: int)
    requires
        0 <= from,
    ensures
        forall|i: int|
            0 <= i < text::words_from(value, from).len() ==> is_word(
                #[trigger] text::words_from(value, from)[i],
            ),
    decreases value.len() - from,
{
    let all = text::words_from(value, from);
    if from < value.len() {
        if text::is_white(value[from]) {
            lemma_words_are_words(value, from + 1);
            assert(all == text::words_from(value, from + 1));
        } else {
            text::lemma_word_end(value, from);
            text::lemma_word_end(value, from + 1);
            let end = text::word_end(value, from);
            let word = value.subrange(from, end);
            lemma_words_are_words(value, end);
            let rest = text::words_from(value, end);
            assert(all == seq![word] + rest);
            assert(is_word(word));
            assert forall|i: int| 0 <= i < all.len() implies is_word(#[trigger] all[i]) by {
                if i > 0 {
                    assert(all[i] == rest[i - 1]);
                }
            }
        }
    }
}

/// Whether the only white space in a text is spaces.
pub open spec fn is_single_line(line: Seq<char>) -> bool {
    forall|i: int| 0 <= i < line.len() && text::is_white(#[trigger] line[i]) ==> line[i] == ' '
}

proof fn lemma_joined_words(parts: Seq<Seq<char>>)
    requires
        forall|i: int| 0 <= i < parts.len() ==> is_word(#[trigger] parts[i]),
    ensures
        is_single_line(text::joined(parts, seq![' '])),
    decreases parts.len(),
{
    if parts.len() > 0 {
        assert(is_word(parts[parts.len() - 1]));
        if parts.len() > 1 {
            lemma_joined_words(parts.drop_last());
        }
    }
}

/// A text that is put on one line has no white space but spaces.
pub proof fn one_line_is_a_single_line(value: Seq<char>)
    ensures
        is_single_line(one_line(value)),
{
    lemma_words_are_words(value, 0);
    lemma_joined_words(text::words(value));
}

proof fn lemma_fitting(line: Seq<char>, budget: nat, from: int)
    requires
        0 <= from <= line.len(),
        total_columns(line.take(from)) <= budget,
    ensures
        from <= fitting_from(line, budget, from) <= line.len(),
        total_columns(line.take(fitting_from(line, budget, from))) <= budget,
        fitting_from(line, budget, from) < line.len() ==> total_columns(
            line.take(fitting_from(line, budget, from) + 1),
        ) > budget,
    decreases line.len() - from,
{
    if from < line.len() && total_columns(line.take(from + 1)) <= budget {
        lemma_fitting(line, budget, from + 1);
    }
}

proof fn lemma_columns_grow(line: Seq<char>, upto: int)
    requires
        0 <= upto <= line.len(),
    ensures
        total_columns(line.take(upto)) <= total_columns(line),
    decreases line.len(),
{
    if upto < line.len() {
        lemma_columns_grow(line.drop_last(), upto);
        assert(line.drop_last().take(upto) =~= line.take(upto));
    } else {
        assert(line.take(upto) =~= line);
    }
}

/// A compacted text is a single line. Where it had to be cut to more than three
/// columns, three dots stand at its end, and what is before them is the beginning
/// of the line, does not end in white space and leaves room for the dots.
pub proof fn compacted_text_fits(value: Seq<char>, limit: nat)
    ensures
        is_single_line(compacted(value, limit)),
        limit == 0 || text_width(one_line(value)) <= limit ==> compacted(value, limit) == one_line(
            value,
        ),
        0 < limit <= 3 && text_width(one_line(value)) > limit ==> compacted(value, limit).len()
            <= limit,
        limit > 3 && text_width(one_line(value)) > limit ==> ({
            let cut = compacted(value, limit);
            let kept = cut.take(cut.len() - 3);
            &&& cut.len() >= 3
            &&& cut == kept + seq!['.', '.', '.']
            &&& kept.is_prefix_of(one_line(value))
            &&& total_columns(kept) <= limit - 3
            &&& kept.len() > 0 ==> !text::is_white(kept.last())
        }),
{
    one_line_is_a_single_line(value);
    let line = one_line(value);
    if limit > 3 && text_width(line) > limit {
        let budget = (limit - 3) as nat;
        assert(line.take(0) =~= seq![]);
        assert(total_columns(line.take(0)) == 0);
        lemma_fitting(line, budget, 0);
        let whole = fitting(line, budget);
        text::lemma_trimmed_end(whole);
        let kept = text::trimmed_end(whole);
        lemma_columns_grow(whole, kept.len() as int);
        let cut = compacted(value, limit);
        assert(cut.take(cut.len() - 3) =~= kept);
        assert(kept =~= line.take(kept.len() as int));
    } else if 0 < limit <= 3 && limit < line.len() {
        assert(is_single_line(line.take(limit as int)));
    }
}

/// Whether a text is words with one space between neighbours: each white character
/// is a space, and one that is not white stands before and behind it.
pub open spec fn is_neat(line: Seq<char>) -> bool {
    forall|i: int|
        0 <= i < line.len() && text::is_white(#[trigger] line[i]) ==> {
            &&& line[i] == ' '
            &&& 0 < i < line.len() - 1
            &&& !text::is_white(line[i + 1])
        }
}

proof fn lemma_joined_words_are_neat(parts: Seq<Seq<char>>)
    requires
        forall|i: int| 0 <= i < parts.len() ==> is_word(#[trigger] parts[i]),
    ensures
        is_neat(text::joined(parts, seq![' '])),
        parts.len() > 0 ==> text::joined(parts, seq![' ']).len() > 0 && !text::is_white(
            text::joined(parts, seq![' ']).last(),
        ),
    decreases parts.len(),
{
    if parts.len() > 0 {
        let word = parts.last();
        assert(is_word(parts[parts.len() - 1]));
        assert(!text::is_white(word[0]));
        assert(!text::is_white(word[word.len() - 1]));
        if parts.len() > 1 {
            let before = text::joined(parts.drop_last(), seq![' ']);
            let line = text::joined(parts, seq![' ']);
            lemma_joined_words_are_neat(parts.drop_last());
            assert(line =~= before + seq![' '] + word);
            assert(line.last() == word.last());
            assert forall|i: int| 0 <= i < line.len() && text::is_white(
                #[trigger] line[i],
            ) implies line[i] == ' ' && 0 < i < line.len() - 1 && !text::is_white(line[i + 1]) by {
                if i < before.len() {
                    assert(line[i] == before[i]);
                    assert(line[i + 1] == before[i + 1]);
                } else if i == before.len() {
                    assert(line[i + 1] == word[0]);
                } else {
                    assert(line[i] == word[i - before.len() - 1]);
                }
            }
        }
    }
}

proof fn lemma_neat_from(line: Seq<char>, from: int)
    requires
        is_neat(line),
        0 <= from < line.len(),
        !text::is_white(line[from]),
    ensures
        text::words_from(line, from).len() > 0,
        text::joined(text::words_from(line, from), seq![' ']) == line.skip(from),
    decreases line.len() - from,
{
    text::lemma_word_end(line, from);
    text::lemma_word_end(line, from + 1);
    let end = text::word_end(line, from);
    let word = line.subrange(from, end);
    let found = text::words_from(line, from);
    let rest = text::words_from(line, end);
    assert(found == seq![word] + rest);
    if end == line.len() {
        assert(rest =~= seq![]);
        assert(word =~= line.skip(from));
        assert(found[0] == word);
    } else {
        assert(text::is_white(line[end]));
        assert(rest == text::words_from(line, end + 1));
        lemma_neat_from(line, end + 1);
        text::lemma_joined_first(found, seq![' ']);
        assert(found.skip(1) =~= rest);
        assert(line.skip(from) =~= word + seq![' '] + line.skip(end + 1));
    }
}

/// A neat text is on one line already.
pub proof fn neat_text_stays(line: Seq<char>)
    requires
        is_neat(line),
    ensures
        one_line(line) == line,
{
    if line.len() > 0 {
        assert(!text::is_white(line[0]));
        lemma_neat_from(line, 0);
        assert(line.skip(0) =~= line);
    } else {
        assert(one_line(line) =~= line);
    }
}

proof fn lemma_one_line_is_neat(value: Seq<char>)
    ensures
        is_neat(one_line(value)),
{
    lemma_words_are_words(value, 0);
    lemma_joined_words_are_neat(text::words(value));
}

proof fn lemma_cut_is_neat(line: Seq<char>, upto: int)
    requires
        is_neat(line),
        0 <= upto <= line.len(),
    ensures
        is_neat(text::trimmed_end(line.take(upto)) + seq!['.', '.', '.']),
        text::trimmed_end(line.take(upto)).len() <= upto,
        text::trimmed_end(line.take(upto)).is_prefix_of(line),
{
    let whole = line.take(upto);
    text::lemma_trimmed_end(whole);
    let kept = text::trimmed_end(whole);
    let cut = kept + seq!['.', '.', '.'];
    assert(kept =~= line.take(kept.len() as int));
    assert forall|i: int| 0 <= i < cut.len() && text::is_white(#[trigger] cut[i]) implies cut[i]
        == ' ' && 0 < i < cut.len() - 1 && !text::is_white(cut[i + 1]) by {
        if i < kept.len() {
            assert(cut[i] == line[i]);
            assert(kept[i] == line[i]);
            if i + 1 < kept.len() {
                assert(cut[i + 1] == line[i + 1]);
            }
        }
    }
}

/// A text that has been compacted is on one line already, where there was no limit
/// or room for the dots.
pub proof fn compacted_text_is_on_one_line(value: Seq<char>, limit: nat)
    requires
        limit == 0 || limit > 3,
    ensures
        one_line(compacted(value, limit)) == compacted(value, limit),
{
    let line = one_line(value);
    lemma_one_line_is_neat(value);
    if limit == 0 || text_width(line) <= limit {
        neat_text_stays(line);
    } else {
        let budget = (limit - 3) as nat;
        assert(line.take(0) =~= seq![]);
        assert(total_columns(line.take(0)) == 0);
        lemma_fitting(line, budget, 0);
        lemma_cut_is_neat(line, fitting_from(line, budget, 0));
        neat_text_stays(compacted(value, limit));
    }
}

/// Printable ASCII that is cut is still printable ASCII, is no longer than the
/// limit, and is not changed by being put on one line and cut again.
pub proof fn cut_lines_fit(value: Seq<char>, limit: nat)
    ensures
        limit > 3 && is_printable(one_line(value)) ==> ({
            let cut = cut_line(one_line(value), limit);
            &&& cut.len() <= limit
            &&& is_printable(cut)
            &&& one_line(cut) == cut
            &&& cut_line(one_line(cut), limit) == cut
        }),
{
    if limit > 3 && is_printable(one_line(value)) {
        let line = one_line(value);
        let cut = cut_line(line, limit);
        lemma_one_line_is_neat(value);
        if line.len() > limit {
            lemma_cut_is_neat(line, limit - 3);
            let kept = text::trimmed_end(line.take(limit - 3));
            assert forall|i: int| 0 <= i < cut.len() implies is_printable_ascii(
                #[trigger] cut[i],
            ) by {
                if i < kept.len() {
                    assert(cut[i] == line[i]);
                }
            }
        }
        neat_text_stays(cut);
    }
}

proof fn lemma_words_are_printable(value: Seq<char>, from: int)
    requires
        0 <= from,
        forall|i: int|
            0 <= i < value.len() ==> is_printable_ascii(#[trigger] value[i]) || text::is_white(
                value[i],
            ),
    ensures
        forall|i: int|
            0 <= i < text::words_from(value, from).len() ==> is_printable(
                #[trigger] text::words_from(value, from)[i],
            ),
    decreases value.len() - from,
{
    let all = text::words_from(value, from);
    if from < value.len() {
        if text::is_white(value[from]) {
            lemma_words_are_printable(value, from + 1);
            assert(all == text::words_from(value, from + 1));
        } else {
            text::lemma_word_end(value, from);
            text::lemma_word_end(value, from + 1);
            let end = text::word_end(value, from);
            let word = value.subrange(from, end);
            lemma_words_are_printable(value, end);
            let rest = text::words_from(value, end);
            assert(all == seq![word] + rest);
            assert forall|i: int| 0 <= i < word.len() implies is_printable_ascii(
                #[trigger] word[i],
            ) by {
                assert(word[i] == value[from + i]);
            }
            assert forall|i: int| 0 <= i < all.len() implies is_printable(#[trigger] all[i]) by {
                if i > 0 {
                    assert(all[i] == rest[i - 1]);
                }
            }
        }
    }
}

proof fn lemma_joined_is_printable(parts: Seq<Seq<char>>)
    requires
        forall|i: int| 0 <= i < parts.len() ==> is_printable(#[trigger] parts[i]),
    ensures
        is_printable(text::joined(parts, seq![' '])),
    decreases parts.len(),
{
    if parts.len() > 0 {
        assert(is_printable(parts[parts.len() - 1]));
        if parts.len() > 1 {
            lemma_joined_is_printable(parts.drop_last());
        }
    }
}

/// A text of printable ASCII and white space, put on one line, is printable ASCII.
pub proof fn printable_text_stays_printable(value: Seq<char>)
    requires
        forall|i: int|
            0 <= i < value.len() ==> is_printable_ascii(#[trigger] value[i]) || text::is_white(
                value[i],
            ),
    ensures
        is_printable(one_line(value)),
{
    lemma_words_are_printable(value, 0);
    lemma_joined_is_printable(text::words(value));
}

}
