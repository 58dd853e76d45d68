//! What is done with the characters of a text, told apart from how it is found.
use vstd::prelude::*;

use crate::text;
use crate::util;

verus! {

/// White space is these characters and no others.
pub proof fn white_space_is_known(ch: char)
    ensures
        text::is_white(ch) <==> {
            ||| ch == '\t'
            ||| ch == '\n'
            ||| ch == '\u{b}'
            ||| ch == '\u{c}'
            ||| ch == '\r'
            ||| ch == ' '
            ||| ch == '\u{85}'
            ||| ch == '\u{a0}'
            ||| ch == '\u{1680}'
            ||| ch == '\u{2000}'
            ||| ch == '\u{2001}'
            ||| ch == '\u{2002}'
            ||| ch == '\u{2003}'
            ||| ch == '\u{2004}'
            ||| ch == '\u{2005}'
            ||| ch == '\u{2006}'
            ||| ch == '\u{2007}'
            ||| ch == '\u{2008}'
            ||| ch == '\u{2009}'
            ||| ch == '\u{200a}'
            ||| ch == '\u{2028}'
            ||| ch == '\u{2029}'
            ||| ch == '\u{202f}'
            ||| ch == '\u{205f}'
            ||| ch == '\u{3000}'
        },
{
}

/// Every character is white.
pub open spec fn all_white(part: Seq<char>) -> bool {
    forall|i: int| 0 <= i < part.len() ==> text::is_white(#[trigger] part[i])
}

/// What is left of a text without the white space at its end: only white space is
/// gone, and what is left does not end in it.
pub proof fn trimmed_ends_are_white(value: Seq<char>)
    ensures
        ({
            let kept = text::trimmed_end(value);
            &&& kept.is_prefix_of(value)
            &&& all_white(value.skip(kept.len() as int))
            &&& kept.len() > 0 ==> !text::is_white(kept[kept.len() - 1])
        }),
    decreases value.len(),
{
    let kept = text::trimmed_end(value);
    text::lemma_trimmed_end(value);
    if value.len() > 0 && text::is_white(value.last()) {
        let shorter = value.drop_last();
        trimmed_ends_are_white(shorter);
        let gone = value.skip(kept.len() as int);
        assert forall|i: int| 0 <= i < gone.len() implies text::is_white(#[trigger] gone[i]) by {
            if i < gone.len() - 1 {
                assert(gone[i] == shorter.skip(kept.len() as int)[i]);
            }
        }
    }
}

/// What is left of a text without the white space at both ends: what is gone before it
/// and behind it is white, and it neither starts nor ends in white space.
pub proof fn trimmed_texts_lose_white_space_only(value: Seq<char>)
    ensures
        ({
            let kept = text::trimmed(value);
            exists|start: int|
                {
                    &&& 0 <= start <= start + kept.len() <= value.len()
                    &&& kept == #[trigger] value.subrange(start, start + kept.len())
                    &&& all_white(value.subrange(0, start))
                    &&& all_white(value.subrange(start + kept.len(), value.len() as int))
                }
        }),
        text::trimmed(value).len() > 0 ==> {
            &&& !text::is_white(text::trimmed(value)[0])
            &&& !text::is_white(text::trimmed(value)[text::trimmed(value).len() - 1])
        },
{
    lemma_white_end(value, 0);
    let start = text::white_end(value, 0);
    let rest = value.skip(start);
    trimmed_ends_are_white(rest);
    let kept = text::trimmed(value);
    assert(kept =~= value.subrange(start, start + kept.len()));
    assert(all_white(value.subrange(0, start)));
    let tail = value.subrange(start + kept.len(), value.len() as int);
    assert(tail =~= rest.skip(kept.len() as int));
    if kept.len() > 0 {
        assert(kept[0] == rest[0]);
        assert(rest[0] == value[start]);
    }
}

proof fn lemma_white_end(value: Seq<char>, from: int)
    requires
        0 <= from <= value.len(),
    ensures
        from <= text::white_end(value, from) <= value.len(),
        forall|i: int|
            from <= i < text::white_end(value, from) ==> text::is_white(#[trigger] value[i]),
        text::white_end(value, from) < value.len() ==> !text::is_white(
            value[text::white_end(value, from)],
        ),
    decreases value.len() - from,
{
    if from < value.len() && text::is_white(value[from]) {
        lemma_white_end(value, from + 1);
    }
}

/// Parts are written one after the other: none is nothing, one is itself, and each one
/// more comes behind a separator.
pub proof fn parts_are_written_in_order(parts: Seq<Seq<char>>, part: Seq<char>, between: Seq<char>)
    ensures
        text::joined(seq![], between) == Seq::<char>::empty(),
        text::joined(seq![part], between) == part,
        parts.len() > 0 ==> text::joined(parts.push(part), between) == text::joined(parts, between)
            + between + part,
{
    assert(parts.push(part).drop_last() =~= parts);
}

/// A capital letter becomes the small one, and every other character stays.
pub proof fn capitals_become_small(value: Seq<char>, i: int)
    requires
        0 <= i < value.len(),
    ensures
        text::small_letters(value).len() == value.len(),
        ({
            let code = value[i] as u32;
            let small = text::small_letters(value)[i] as u32;
            &&& 65 <= code <= 90 ==> small == code + 32
            &&& code < 65 || code > 90 ==> small == code
        }),
{
}

/// A text is filled up with spaces: it comes first, then come spaces, and a text that is
/// wide enough stays.
pub proof fn padding_is_spaces(value: Seq<char>, width: nat)
    ensures
        ({
            let wide = text::padded(value, width);
            &&& value.is_prefix_of(wide)
            &&& value.len() <= width ==> wide.len() == width
            &&& value.len() >= width ==> wide.len() == value.len()
            &&& forall|i: int| value.len() <= i < wide.len() ==> #[trigger] wide[i] == ' '
        }),
{
    assert(value =~= text::padded(value, width).take(value.len() as int));
}

/// Texts differ first at a position: they are alike before it.
pub open spec fn differ_at(left: Seq<char>, right: Seq<char>, i: int) -> bool {
    &&& 0 <= i < left.len()
    &&& i < right.len()
    &&& left[i] != right[i]
    &&& left.take(i) == right.take(i)
}

/// Texts are ordered by the first character in which they differ, or else by their
/// length.
pub proof fn first_differences_decide(left: Seq<char>, right: Seq<char>)
    ensures
        forall|i: int| #[trigger]
            differ_at(left, right, i) ==> (text::text_le(left, right) <==> left[i] < right[i]),
        left.is_prefix_of(right) ==> text::text_le(left, right),
        right.is_prefix_of(left) && left != right ==> !text::text_le(left, right),
    decreases left.len(),
{
    if left.len() > 0 && right.len() > 0 && left[0] == right[0] {
        let l = left.skip(1);
        let r = right.skip(1);
        first_differences_decide(l, r);
        assert forall|i: int| #[trigger] differ_at(left, right, i) implies (text::text_le(
            left,
            right,
        ) <==> left[i] < right[i]) by {
            assert(l.take(i - 1) =~= left.take(i).skip(1));
            assert(r.take(i - 1) =~= right.take(i).skip(1));
            assert(differ_at(l, r, i - 1));
        }
        if left.is_prefix_of(right) {
            assert(l =~= r.take(l.len() as int)) by {
                assert(left =~= right.take(left.len() as int));
                assert forall|j: int| 0 <= j < l.len() implies l[j] == r[j] by {
                    assert(left[j + 1] == right.take(left.len() as int)[j + 1]);
                }
            }
        }
        if right.is_prefix_of(left) && left != right {
            assert(r =~= l.take(r.len() as int)) by {
                assert forall|j: int| 0 <= j < r.len() implies r[j] == l[j] by {
                    assert(right[j + 1] == left.take(right.len() as int)[j + 1]);
                }
            }
            if l == r {
                assert(left =~= seq![left[0]] + l);
                assert(right =~= seq![right[0]] + r);
            }
        }
    } else {
        if left.len() > 0 && right.len() > 0 {
            assert forall|i: int| #[trigger] differ_at(left, right, i) implies i == 0 by {
                if i > 0 {
                    assert(left.take(i)[0] == right.take(i)[0]);
                }
            }
            if left.is_prefix_of(right) {
                assert(left[0] == right.take(left.len() as int)[0]);
            }
            if right.is_prefix_of(left) {
                assert(right[0] == left.take(right.len() as int)[0]);
            }
        } else if left.len() == 0 && right.is_prefix_of(left) {
            assert(left =~= right);
        }
    }
}

/// What stands behind a prefix is what makes up the text with it, and there is nothing
/// behind a prefix that the text does not start with.
pub proof fn prefixes_are_taken_off(value: Seq<char>, prefix: Seq<char>, rest: Seq<char>)
    ensures
        text::behind(prefix + rest, prefix) == Some(rest),
        text::behind(value, prefix) matches Some(found) ==> value == prefix + found,
        text::behind(value, prefix) is None ==> !prefix.is_prefix_of(value),
{
    assert((prefix + rest).subrange(0, prefix.len() as int) =~= prefix);
    assert((prefix + rest).skip(prefix.len() as int) =~= rest);
    if text::occurs(value, prefix, 0) {
        assert(value =~= prefix + value.skip(prefix.len() as int)) by {
            assert(value.subrange(0, prefix.len() as int) == prefix);
            assert forall|i: int| 0 <= i < prefix.len() implies value[i] == prefix[i] by {
                assert(value.subrange(0, prefix.len() as int)[i] == prefix[i]);
            }
        }
    } else if prefix.is_prefix_of(value) {
        assert(value.subrange(0, prefix.len() as int) =~= prefix);
    }
}

/// What a shell reads as it stands is letters, digits and five signs.
pub proof fn plain_characters_are_known(ch: char)
    ensures
        util::is_plain(ch) <==> {
            ||| 'a' <= ch <= 'z'
            ||| 'A' <= ch <= 'Z'
            ||| '0' <= ch <= '9'
            ||| ch == '_'
            ||| ch == '-'
            ||| ch == '.'
            ||| ch == '/'
            ||| ch == ':'
        },
{
}

/// A word of plain characters is not quoted; any other is in quotes.
pub proof fn words_are_quoted_where_they_need_it(word: Seq<char>)
    ensures
        (forall|i: int| 0 <= i < word.len() ==> util::is_plain(#[trigger] word[i]))
            ==> util::quoted(word) == word,
        (exists|i: int| 0 <= i < word.len() && !util::is_plain(#[trigger] word[i])) ==> {
            let line = util::quoted(word);
            &&& line.len() >= 2
            &&& line[0] == '\''
            &&& line[line.len() - 1] == '\''
        },
{
}

proof fn lemma_word_end_within(value: Seq<char>, from: int, at: int)
    requires
        0 <= from <= at < value.len(),
        text::is_white(value[at]),
    ensures
        text::word_end(value, from) == from + text::word_end(value.subrange(from, at), 0),
    decreases at - from,
{
    let part = value.subrange(from, at);
    lemma_word_end_is(value, from);
    lemma_word_end_is(part, 0);
    let end = text::word_end(value, from);
    let own = text::word_end(part, 0);
    if end > at {
        assert(!text::is_white(value[at]));
    }
    if end < from + own {
        assert(part[end - from] == value[end]);
    }
    if from + own < end {
        assert(part[own] == value[from + own]);
    }
}

proof fn lemma_word_end_is(value: Seq<char>, from: int)
    requires
        0 <= from <= value.len(),
    ensures
        from <= text::word_end(value, from) <= value.len(),
        forall|i: int|
            from <= i < text::word_end(value, from) ==> !text::is_white(#[trigger] value[i]),
        text::word_end(value, from) < value.len() ==> text::is_white(
            value[text::word_end(value, from)],
        ),
{
    text::lemma_word_end(value, from);
}

proof fn lemma_words_shift(value: Seq<char>, from: int, by: int)
    requires
        0 <= by <= from <= value.len(),
    ensures
        text::words_from(value, from) == text::words_from(value.skip(by), from - by),
    decreases value.len() - from,
{
    let rest = value.skip(by);
    if from < value.len() {
        assert(rest[from - by] == value[from]);
        if text::is_white(value[from]) {
            lemma_words_shift(value, from + 1, by);
        } else {
            lemma_word_end_is(value, from);
            lemma_word_end_is(rest, from - by);
            let end = text::word_end(value, from);
            let own = text::word_end(rest, from - by);
            if end < own + by {
                assert(rest[end - by] == value[end]);
            }
            if own + by < end {
                assert(rest[own] == value[own + by]);
            }
            lemma_words_shift(value, end, by);
            assert(value.subrange(from, end) =~= rest.subrange(from - by, own));
        }
    }
}

proof fn lemma_words_up_to(value: Seq<char>, from: int, at: int)
    requires
        0 <= from <= at < value.len(),
        text::is_white(value[at]),
    ensures
        text::words_from(value, from) == text::words(value.subrange(from, at)) + text::words_from(
            value,
            at + 1,
        ),
    decreases at - from,
{
    let part = value.subrange(from, at);
    if from == at {
        assert(text::words(part) =~= seq![]);
        assert(seq![] + text::words_from(value, at + 1) =~= text::words_from(value, at + 1));
    } else if text::is_white(value[from]) {
        assert(part[0] == value[from]);
        lemma_words_up_to(value, from + 1, at);
        lemma_words_shift(part, 1, 1);
        assert(part.skip(1) =~= value.subrange(from + 1, at));
    } else {
        assert(part[0] == value[from]);
        lemma_word_end_within(value, from, at);
        lemma_word_end_is(part, 0);
        let own = text::word_end(part, 0);
        let end = from + own;
        assert(own > 0) by {
            if own == 0 {
                assert(text::is_white(part[0]));
            }
        }
        lemma_words_up_to(value, end, at);
        lemma_words_shift(part, own, own);
        assert(part.skip(own) =~= value.subrange(end, at));
        assert(part.subrange(0, own) =~= value.subrange(from, end));
        let first = seq![value.subrange(from, end)];
        let inner = text::words(value.subrange(end, at));
        let outer = text::words_from(value, at + 1);
        assert(text::words(part) =~= first + inner);
        assert(first + (inner + outer) =~= first + inner + outer);
    }
}

/// The words of a text: white space holds none; a text without white space is one, if it
/// is anything; and those of a text with white space in it are those before it and then
/// those behind it.
pub proof fn words_stand_between_white_space(before: Seq<char>, ch: char, behind: Seq<char>)
    ensures
        all_white(before) ==> text::words(before) == Seq::<Seq<char>>::empty(),
        util::is_word(before) ==> text::words(before) == seq![before],
        text::is_white(ch) ==> text::words(before.push(ch) + behind) == text::words(before)
            + text::words(behind),
{
    if all_white(before) {
        lemma_no_words(before, 0);
    }
    if util::is_word(before) {
        lemma_word_end_is(before, 0);
        let end = text::word_end(before, 0);
        if end < before.len() {
            assert(text::is_white(before[end]));
        }
        assert(before.subrange(0, end) =~= before);
        assert(text::words_from(before, end) =~= seq![]);
        assert(text::words(before) =~= seq![before]);
    }
    if text::is_white(ch) {
        let all = before.push(ch) + behind;
        let at = before.len() as int;
        lemma_words_up_to(all, 0, at);
        lemma_words_shift(all, at + 1, at + 1);
        assert(all.subrange(0, at) =~= before);
        assert(all.skip(at + 1) =~= behind);
    }
}

proof fn lemma_no_words(value: Seq<char>, from: int)
    requires
        all_white(value),
        0 <= from,
    ensures
        text::words_from(value, from) == Seq::<Seq<char>>::empty(),
    decreases value.len() - from,
{
    if from < value.len() {
        assert(text::is_white(value[from]));
        lemma_no_words(value, from + 1);
    }
}

/// A text on one line has the words of the text, and only single spaces between them.
pub proof fn one_line_keeps_the_words(value: Seq<char>)
    ensures
        text::words(util::one_line(value)) == text::words(value),
        util::one_line(value).len() > 0 ==> {
            &&& util::one_line(value)[0] != ' '
            &&& util::one_line(value)[util::one_line(value).len() - 1] != ' '
        },
        forall|i: int|
            0 <= i < util::one_line(value).len() - 1 && #[trigger] util::one_line(value)[i] == ' '
                ==> util::one_line(value)[i + 1] != ' ',
{
    lemma_all_words(value, 0);
    lemma_joined_words(text::words(value));
}

/// Each of the texts is a word.
spec fn are_words(found: Seq<Seq<char>>) -> bool {
    forall|i: int| 0 <= i < found.len() ==> util::is_word(#[trigger] found[i])
}

proof fn lemma_all_words(value: Seq<char>, from: int)
    requires
        0 <= from <= value.len(),
    ensures
        are_words(text::words_from(value, from)),
    decreases value.len() - from,
{
    let found = text::words_from(value, from);
    if from < value.len() {
        if text::is_white(value[from]) {
            lemma_all_words(value, from + 1);
        } else {
            lemma_word_end_is(value, from);
            let end = text::word_end(value, from);
            assert(end > from) by {
                if end == from {
                    assert(text::is_white(value[from]));
                }
            }
            lemma_all_words(value, end);
            let rest = text::words_from(value, end);
            assert forall|i: int| 0 <= i < found.len() implies util::is_word(
                #[trigger] found[i],
            ) by {
                if i == 0 {
                    let word = value.subrange(from, end);
                    assert forall|j: int| 0 <= j < word.len() implies !text::is_white(
                        #[trigger] word[j],
                    ) by {
                        assert(word[j] == value[from + j]);
                    }
                } else {
                    assert(found[i] == rest[i - 1]);
                }
            }
        }
    }
}

/// A line without a space at its ends, or two of them next to each other.
spec fn single_spaces(line: Seq<char>) -> bool {
    &&& line.len() > 0 ==> line[0] != ' ' && line[line.len() - 1] != ' '
    &&& forall|i: int| 0 <= i < line.len() - 1 && #[trigger] line[i] == ' ' ==> line[i + 1] != ' '
}

proof fn lemma_joined_words(found: Seq<Seq<char>>)
    requires
        are_words(found),
    ensures
        text::words(text::joined(found, seq![' '])) == found,
        single_spaces(text::joined(found, seq![' '])),
        found.len() > 0 ==> text::joined(found, seq![' ']).len() > 0,
    decreases found.len(),
{
    let line = text::joined(found, seq![' ']);
    if found.len() == 0 {
        assert(text::words(line) =~= found);
    } else if found.len() == 1 {
        words_stand_between_white_space(found[0], ' ', seq![]);
        assert(util::is_word(found[0]));
        assert(found =~= seq![found[0]]);
        assert forall|i: int| 0 <= i < line.len() implies #[trigger] line[i] != ' ' by {
            assert(!text::is_white(line[i]));
        }
    } else {
        let before = found.drop_last();
        let last = found.last();
        assert(util::is_word(found[found.len() - 1]));
        assert forall|i: int| 0 <= i < before.len() implies util::is_word(
            #[trigger] before[i],
        ) by {
            assert(before[i] == found[i]);
        }
        lemma_joined_words(before);
        let first = text::joined(before, seq![' ']);
        words_stand_between_white_space(first, ' ', last);
        words_stand_between_white_space(last, ' ', seq![]);
        assert(line =~= first.push(' ') + last);
        assert(text::words(line) =~= found);
        assert forall|i: int| 0 <= i < last.len() implies #[trigger] last[i] != ' ' by {
            assert(!text::is_white(last[i]));
        }
        let n = first.len() as int;
        assert(line[0] == first[0]);
        assert(line[line.len() - 1] == last[last.len() - 1]);
        assert forall|i: int| 0 <= i < line.len() - 1 && #[trigger] line[i] == ' ' implies line[i
            + 1] != ' ' by {
            if i < n - 1 {
                assert(line[i] == first[i] && line[i + 1] == first[i + 1]);
            } else if i == n - 1 {
                assert(line[i] == first[n - 1]);
            } else {
                assert(line[i + 1] == last[i - n]);
            }
        }
    }
}

/// A text without line feeds is one line, if it is anything; with one at its end it is
/// one line, without the carriage return before it if there is one.
pub proof fn lines_end_in_line_feeds(line: Seq<char>)
    requires
        text::lacks(line, '\n'),
    ensures
        text::lines(seq![]) == Seq::<Seq<char>>::empty(),
        line.len() > 0 ==> text::lines(line) == seq![line],
        line.len() == 0 || line.last() != '\r' ==> text::lines(line.push('\n')) == seq![line],
        text::lines(line.push('\r').push('\n')) == seq![line],
{
    let n = line.len() as int;
    if n > 0 {
        lemma_line(line, n);
        assert(line.subrange(0, n) =~= line);
    }
    let ended = line.push('\n');
    lemma_line(ended, n);
    assert(ended.subrange(0, n) =~= line);
    assert(text::lines_from(ended, n + 1) =~= seq![]);
    let both = line.push('\r').push('\n');
    assert forall|i: int| 0 <= i < n + 1 implies #[trigger] both[i] != '\n' by {
        if i < n {
            assert(both[i] == line[i]);
        }
    }
    lemma_line(both, n + 1);
    assert(both.subrange(0, n + 1) =~= line.push('\r'));
    assert(line.push('\r').drop_last() =~= line);
    assert(text::lines_from(both, n + 2) =~= seq![]);
    assert(text::lines(both) =~= seq![line]);
    if line.len() == 0 || line.last() != '\r' {
        assert(text::lines(ended) =~= seq![line]);
    }
}

proof fn lemma_line(value: Seq<char>, end: int)
    requires
        0 <= end <= value.len(),
        forall|i: int| 0 <= i < end ==> #[trigger] value[i] != '\n',
        end < value.len() ==> value[end] == '\n',
    ensures
        text::line_end(value, 0) == end,
{
    text::lemma_line_end(value, 0);
    let found = text::line_end(value, 0);
    if found < end {
        assert(value[found] != '\n');
    }
}

/// What stands in a text is replaced from the left: what is before the first occurrence
/// stays, and the rest is done likewise. A text without an occurrence stays.
pub proof fn replacing_goes_from_the_left(
    value: Seq<char>,
    old_part: Seq<char>,
    new_part: Seq<char>,
    at: int,
)
    requires
        old_part.len() > 0,
    ensures
        !text::holds(value, old_part) ==> text::replaced(value, old_part, new_part) == value,
        text::occurs(value, old_part, at) && (forall|i: int|
            0 <= i < at ==> !#[trigger] text::occurs(value, old_part, i)) ==> text::replaced(
            value,
            old_part,
            new_part,
        ) == value.subrange(0, at) + new_part + text::replaced(
            value.skip(at + old_part.len()),
            old_part,
            new_part,
        ),
{
    text::lemma_first_from(value, old_part, 0);
    if !text::holds(value, old_part) {
        assert(value.skip(0) =~= value);
        assert(text::pieces(value, old_part) =~= seq![value]);
    }
    if text::occurs(value, old_part, at) && (forall|i: int|
        0 <= i < at ==> !#[trigger] text::occurs(value, old_part, i)) {
        let next = at + old_part.len();
        let rest = value.skip(next);
        lemma_pieces_shift(value, old_part, next, next);
        let parts = text::pieces(value, old_part);
        let others = text::pieces(rest, old_part);
        assert(text::first_from(value, old_part, 0) == Some(at));
        assert(parts == seq![value.subrange(0, at)] + others);
        lemma_some_piece(rest, old_part, 0);
        text::lemma_joined_first(parts, new_part);
        assert(parts.skip(1) =~= others);
    }
}

proof fn lemma_some_piece(value: Seq<char>, separator: Seq<char>, from: int)
    ensures
        text::pieces_from(value, separator, from).len() > 0,
{
}

proof fn lemma_first_shift(value: Seq<char>, part: Seq<char>, from: int, by: int)
    requires
        0 <= by <= from <= value.len(),
    ensures
        text::first_from(value, part, from) == match text::first_from(
            value.skip(by),
            part,
            from - by,
        ) {
            Some(at) => Some(at + by),
            None => None,
        },
    decreases value.len() + 1 - from,
{
    let rest = value.skip(by);
    if from + part.len() <= value.len() {
        assert(rest.subrange(from - by, from - by + part.len()) =~= value.subrange(
            from,
            from + part.len(),
        ));
        if !text::occurs(value, part, from) && from < value.len() {
            lemma_first_shift(value, part, from + 1, by);
        }
    }
}

proof fn lemma_pieces_shift(value: Seq<char>, separator: Seq<char>, from: int, by: int)
    requires
        separator.len() > 0,
        0 <= by <= from <= value.len(),
    ensures
        text::pieces_from(value, separator, from) == text::pieces_from(
            value.skip(by),
            separator,
            from - by,
        ),
    decreases value.len() - from,
{
    let rest = value.skip(by);
    lemma_first_shift(value, separator, from, by);
    text::lemma_first_from(value, separator, from);
    assert(value.skip(from) =~= rest.skip(from - by));
    if let Some(at) = text::first_from(value, separator, from) {
        lemma_pieces_shift(value, separator, at + separator.len(), by);
        assert(value.subrange(from, at) =~= rest.subrange(from - by, at - by));
    }
}

/// A line that is cut keeps as much as there is room for: every beginning of it that is
/// longer than what is kept goes over the room that the dots leave, but for white space
/// at its end. A limit that leaves no room for dots keeps so many characters.
pub proof fn cut_lines_keep_what_fits(value: Seq<char>, limit: nat, n: int)
    requires
        0 < limit < util::text_width(util::one_line(value)),
        0 <= n <= util::one_line(value).len(),
    ensures
        ({
            let line = util::one_line(value);
            let cut = util::compacted(value, limit);
            let kept = cut.len() - 3;
            &&& limit <= 3 ==> cut == if line.len() <= limit {
                line
            } else {
                line.subrange(0, limit as int)
            }
            &&& limit > 3 ==> kept >= 0 && cut == line.subrange(0, kept) + seq!['.', '.', '.']
            &&& limit > 3 && n > kept ==> util::total_columns(line.subrange(0, n)) > limit - 3
                || all_white(line.subrange(kept, n))
        }),
{
    let line = util::one_line(value);
    let cut = util::compacted(value, limit);
    if limit > 3 {
        let budget = (limit - 3) as nat;
        lemma_fitting(line, budget, 0);
        let fit = util::fitting_from(line, budget, 0);
        let part = util::fitting(line, budget);
        trimmed_ends_are_white(part);
        let kept = text::trimmed_end(part);
        assert(cut.len() - 3 == kept.len());
        assert(cut =~= line.subrange(0, kept.len() as int) + seq!['.', '.', '.']);
        if n > kept.len() {
            if n > fit {
                lemma_columns_grow(line, fit + 1, n);
                assert(line.take(fit + 1) =~= line.subrange(0, fit + 1));
            } else {
                let gone = part.skip(kept.len() as int);
                let white = line.subrange(kept.len() as int, n);
                assert forall|i: int| 0 <= i < white.len() implies text::is_white(
                    #[trigger] white[i],
                ) by {
                    assert(white[i] == gone[i]);
                }
            }
        }
    } else if limit < line.len() {
        assert(cut =~= line.subrange(0, limit as int));
    }
}

proof fn lemma_fitting(line: Seq<char>, budget: nat, from: int)
    requires
        0 <= from <= line.len(),
    ensures
        ({
            let fit = util::fitting_from(line, budget, from);
            &&& from <= fit <= line.len()
            &&& fit < line.len() ==> util::total_columns(line.take(fit + 1)) > budget
        }),
    decreases line.len() - from,
{
    if from < line.len() && util::total_columns(line.take(from + 1)) <= budget {
        lemma_fitting(line, budget, from + 1);
    }
}

proof fn lemma_columns_grow(line: Seq<char>, short: int, long: int)
    requires
        0 <= short <= long <= line.len(),
    ensures
        util::total_columns(line.subrange(0, short)) <= util::total_columns(
            line.subrange(0, long),
        ),
    decreases long - short,
{
    if short < long {
        lemma_columns_grow(line, short, long - 1);
        assert(line.subrange(0, long).drop_last() =~= line.subrange(0, long - 1));
    }
}

/// A part stands in a text where the text is made up of something, the part and
/// something more.
pub proof fn parts_stand_in_texts(before: Seq<char>, part: Seq<char>, behind: Seq<char>)
    ensures
        text::occurs(before + part + behind, part, before.len() as int),
        text::holds(before + part + behind, part),
{
    let value = before + part + behind;
    let at = before.len() as int;
    assert(value.subrange(at, at + part.len()) =~= part);
    assert(text::occurs(value, part, at));
}

/// Where a part stands in a text, the text is made up of what is before it, the part and
/// what is behind it.
pub proof fn standing_parts_make_up_texts(value: Seq<char>, part: Seq<char>, at: int)
    requires
        text::occurs(value, part, at),
    ensures
        0 <= at <= at + part.len() <= value.len(),
        value == value.subrange(0, at) + part + value.subrange(
            at + part.len(),
            value.len() as int,
        ),
{
    assert(value.subrange(at, at + part.len()) == part);
    assert(value =~= value.subrange(0, at) + value.subrange(at, at + part.len())
        + value.subrange(at + part.len(), value.len() as int));
}

/// A text is blank where every character is white.
pub proof fn blank_texts_are_white(value: Seq<char>)
    ensures
        text::is_blank(value) <==> all_white(value),
{
}

/// A text is cut at the first separator, and then what is behind it likewise. Without a
/// separator it is one piece.
pub proof fn texts_are_cut_from_the_left(value: Seq<char>, separator: Seq<char>, at: int)
    requires
        separator.len() > 0,
    ensures
        !text::holds(value, separator) ==> text::pieces(value, separator) == seq![value],
        text::occurs(value, separator, at) && (forall|i: int|
            0 <= i < at ==> !#[trigger] text::occurs(value, separator, i)) ==> text::pieces(
            value,
            separator,
        ) == seq![value.subrange(0, at)] + text::pieces(
            value.skip(at + separator.len()),
            separator,
        ),
{
    text::lemma_first_from(value, separator, 0);
    if !text::holds(value, separator) {
        assert(value.skip(0) =~= value);
        assert(text::pieces(value, separator) =~= seq![value]);
    }
    if text::occurs(value, separator, at) && (forall|i: int|
        0 <= i < at ==> !#[trigger] text::occurs(value, separator, i)) {
        let next = at + separator.len();
        lemma_pieces_shift(value, separator, next, next);
        assert(text::first_from(value, separator, 0) == Some(at));
    }
}

/// A word that needs quotes stands in single quotes, and each single quote in it is
/// written as one that ends them, one behind a backslash, and one that opens them again.
pub proof fn quotes_are_written_outside_quotes(word: Seq<char>, i: int)
    requires
        0 <= i < word.len(),
        !util::is_plain(word[i]),
    ensures
        util::quoted(word) == seq!['\''] + text::replaced(
            word,
            seq!['\''],
            seq!['\'', '\\', '\'', '\''],
        ) + seq!['\''],
{
}

/// A command line is written word by word, each quoted where it needs it, with one space
/// between neighbours.
pub proof fn command_lines_are_written_word_by_word(argv: Seq<Seq<char>>, word: Seq<char>)
    ensures
        util::command_line(seq![]) == Seq::<char>::empty(),
        util::command_line(seq![word]) == util::quoted(word),
        argv.len() > 0 ==> util::command_line(argv.push(word)) == util::command_line(argv).push(
            ' ',
        ) + util::quoted(word),
{
    let quote = |word: Seq<char>| util::quoted(word);
    let none = Seq::<Seq<char>>::empty();
    assert(none.map_values(quote) =~= seq![]);
    assert(seq![word].map_values(quote) =~= seq![util::quoted(word)]);
    let quoted = argv.map_values(quote);
    assert(argv.push(word).map_values(quote) =~= quoted.push(util::quoted(word)));
    parts_are_written_in_order(quoted, util::quoted(word), seq![' ']);
    parts_are_written_in_order(none, util::quoted(word), seq![' ']);
    let line = util::command_line(argv);
    assert(line + seq![' '] + util::quoted(word) =~= line.push(' ') + util::quoted(word));
}

}
