//! Text as sequences of characters: what the rest of the crate says about the
//! strings it reads and writes, and the executable functions that do it.
use vstd::prelude::*;

verus! {

/// `String::push`: the character is appended to the end of the string.
pub assume_specification[ String::push ](string: &mut String, ch: char)
    ensures
        final(string)@ == old(string)@.push(ch),
;

/// The text that `String::from_utf8_lossy` reads from bytes.
pub uninterp spec fn utf8_lossy(bytes: Seq<u8>) -> Seq<char>;

/// `String::from_utf8_lossy`, by its name `utf8_lossy`. Bytes that are valid
/// UTF-8 are decoded; which replacement characters stand for other bytes is left
/// to the name.
#[verifier::external_body]
pub(crate) fn lossy_text(bytes: &Vec<u8>) -> (text: String)
    ensures
        text@ == utf8_lossy(bytes@),
        vstd::utf8::valid_utf8(bytes@) ==> text@ == vstd::utf8::decode_utf8(bytes@),
{
    String::from_utf8_lossy(bytes).into_owned()
}

/// The characters with the Unicode property `White_Space`.
pub open spec fn is_white(ch: char) -> bool {
    let code = ch as u32;
    ||| 0x09 <= code <= 0x0d
    ||| code == 0x20
    ||| code == 0x85
    ||| code == 0xa0
    ||| code == 0x1680
    ||| 0x2000 <= code <= 0x200a
    ||| code == 0x2028
    ||| code == 0x2029
    ||| code == 0x202f
    ||| code == 0x205f
    ||| code == 0x3000
}

/// Whether the character is white space.
pub fn is_whitespace(ch: char) -> (white: bool)
    ensures
        white == is_white(ch),
{
    let code: u32 = ch as u32;
    (0x09 <= code && code <= 0x0d) || code == 0x20 || code == 0x85 || code == 0xa0 || code == 0x1680
        || (0x2000 <= code && code <= 0x200a) || code == 0x2028 || code == 0x2029 || code == 0x202f
        || code == 0x205f || code == 0x3000
}

/// The characters of a string, in order.
pub fn chars_of(text: &str) -> (chars: Vec<char>)
    ensures
        chars@ == text@,
{
    let mut chars: Vec<char> = Vec::new();
    for ch in iter: text.chars()
        invariant
            iter.seq() == text@,
            chars@ == text@.take(iter.index() as int),
    {
        chars.push(ch);
    }
    chars
}

/// The string made of the characters from `from` up to, not including, `to`.
pub fn slice_text(chars: &Vec<char>, from: usize, to: usize) -> (text: String)
    requires
        from <= to <= chars.len(),
    ensures
        text@ == chars@.subrange(from as int, to as int),
{
    let mut text = String::new();
    let mut i: usize = from;
    while i < to
        invariant
            from <= i <= to <= chars.len(),
            text@ == chars@.subrange(from as int, i as int),
        decreases to - i,
    {
        text.push(chars[i]);
        i = i + 1;
    }
    text
}

/// Whether two strings hold the same characters.
pub fn same_text(a: &str, b: &str) -> (same: bool)
    ensures
        same == (a@ == b@),
{
    let left = chars_of(a);
    let right = chars_of(b);
    same_chars(&left, &right)
}

/// Whether two character vectors are equal.
pub fn same_chars(left: &Vec<char>, right: &Vec<char>) -> (same: bool)
    ensures
        same == (left@ == right@),
{
    if left.len() != right.len() {
        return false;
    }
    let mut i: usize = 0;
    while i < left.len()
        invariant
            i <= left.len() == right.len(),
            forall|j: int| 0 <= j < i ==> left[j] == right[j],
        decreases left.len() - i,
    {
        if left[i] != right[i] {
            return false;
        }
        i = i + 1;
    }
    assert(left@ =~= right@);
    true
}

/// `parts` written one after the other with `separator` between neighbours.
pub open spec fn joined(parts: Seq<Seq<char>>, separator: Seq<char>) -> Seq<char>
    decreases parts.len(),
{
    if parts.len() == 0 {
        seq![]
    } else if parts.len() == 1 {
        parts[0]
    } else {
        joined(parts.drop_last(), separator) + separator + parts.last()
    }
}

/// The parts of a list written one after the other, with `separator` between.
pub fn join(parts: &Vec<String>, separator: &str) -> (text: String)
    ensures
        text@ == joined(parts.deep_view(), separator@),
{
    let mut text = String::new();
    let ghost views = parts.deep_view();
    let mut i: usize = 0;
    while i < parts.len()
        invariant
            i <= parts.len(),
            views == parts.deep_view(),
            text@ == joined(views.take(i as int), separator@),
        decreases parts.len() - i,
    {
        proof {
            assert(views.take(i + 1).drop_last() =~= views.take(i as int));
            assert(views.take(i + 1).last() == parts[i as int]@);
        }
        if i > 0 {
            text.append(separator);
        }
        text.append(parts[i].as_str());
        i = i + 1;
        proof {
            if i == 1 {
                assert(views.take(1)[0] == parts[0]@);
                assert(text@ =~= views.take(1)[0]);
            }
        }
    }
    assert(views.take(parts.len() as int) =~= views);
    text
}

/// Where the run of characters that are not white, starting at `from`, ends.
pub open spec fn word_end(text: Seq<char>, from: int) -> int
    decreases text.len() - from,
{
    if 0 <= from < text.len() && !is_white(text[from]) {
        word_end(text, from + 1)
    } else {
        from
    }
}

/// A word ends behind its start, at white space or at the end of the text.
pub proof fn lemma_word_end(text: Seq<char>, from: int)
    requires
        0 <= from <= text.len(),
    ensures
        from <= word_end(text, from) <= text.len(),
        forall|i: int| from <= i < word_end(text, from) ==> !is_white(#[trigger] text[i]),
        word_end(text, from) < text.len() ==> is_white(text[word_end(text, from)]),
    decreases text.len() - from,
{
    if from < text.len() && !is_white(text[from]) {
        lemma_word_end(text, from + 1);
    }
}

/// The words of `text` from position `from` on.
pub open spec fn words_from(text: Seq<char>, from: int) -> Seq<Seq<char>>
    decreases text.len() - from,
{
    if !(0 <= from < text.len()) {
        seq![]
    } else if is_white(text[from]) {
        words_from(text, from + 1)
    } else {
        proof {
            lemma_word_end(text, from);
        }
        seq![text.subrange(from, word_end(text, from))] + words_from(text, word_end(text, from))
    }
}

/// The words of `text`: its maximal runs of characters that are not white.
pub open spec fn words(text: Seq<char>) -> Seq<Seq<char>> {
    words_from(text, 0)
}

/// Splits at white space; no word is empty.
pub fn split_whitespace(text: &str) -> (found: Vec<String>)
    ensures
        found.deep_view() == words(text@),
{
    let chars = chars_of(text);
    let mut found: Vec<String> = Vec::new();
    let mut i: usize = 0;
    while i < chars.len()
        invariant
            i <= chars.len(),
            chars@ == text@,
            found.deep_view() + words_from(text@, i as int) == words(text@),
        decreases chars.len() - i,
    {
        if is_whitespace(chars[i]) {
            i = i + 1;
        } else {
            let start = i;
            while i < chars.len() && !is_whitespace(chars[i])
                invariant
                    start <= i <= chars.len(),
                    chars@ == text@,
                    word_end(text@, start as int) == word_end(text@, i as int),
                decreases chars.len() - i,
            {
                i = i + 1;
            }
            proof {
                lemma_word_end(text@, start as int);
            }
            let word = slice_text(&chars, start, i);
            let ghost before = found.deep_view();
            found.push(word);
            assert(found.deep_view() =~= before.push(word@));
            assert(found.deep_view() + words_from(text@, i as int) =~= before + words_from(
                text@,
                start as int,
            ));
        }
    }
    assert(found.deep_view() =~= words(text@));
    found
}

/// The first position from `from` on that holds a character that is not white,
/// or the length of the text.
pub open spec fn white_end(text: Seq<char>, from: int) -> int
    decreases text.len() - from,
{
    if 0 <= from < text.len() && is_white(text[from]) {
        white_end(text, from + 1)
    } else {
        from
    }
}

/// The text without the white space at its start.
pub open spec fn trimmed_start(text: Seq<char>) -> Seq<char> {
    text.skip(white_end(text, 0))
}

/// The text without the white space at its end.
pub open spec fn trimmed_end(text: Seq<char>) -> Seq<char>
    decreases text.len(),
{
    if text.len() > 0 && is_white(text.last()) {
        trimmed_end(text.drop_last())
    } else {
        text
    }
}

/// The text without the white space at its two ends.
pub open spec fn trimmed(text: Seq<char>) -> Seq<char> {
    trimmed_end(trimmed_start(text))
}

/// Whether the text holds nothing but white space.
pub open spec fn is_blank(text: Seq<char>) -> bool {
    forall|i: int| 0 <= i < text.len() ==> is_white(#[trigger] text[i])
}

proof fn lemma_white_end(text: Seq<char>, from: int)
    requires
        0 <= from <= text.len(),
    ensures
        from <= white_end(text, from) <= text.len(),
        forall|i: int| from <= i < white_end(text, from) ==> is_white(#[trigger] text[i]),
        white_end(text, from) < text.len() ==> !is_white(text[white_end(text, from)]),
    decreases text.len() - from,
{
    if from < text.len() && is_white(text[from]) {
        lemma_white_end(text, from + 1);
    }
}

/// Trimming a text at its end leaves a prefix of it, which does not end in
/// white space.
pub proof fn lemma_trimmed_end(text: Seq<char>)
    ensures
        trimmed_end(text).len() <= text.len(),
        trimmed_end(text) == text.take(trimmed_end(text).len() as int),
        trimmed_end(text).len() > 0 ==> !is_white(trimmed_end(text).last()),
    decreases text.len(),
{
    if text.len() > 0 && is_white(text.last()) {
        lemma_trimmed_end(text.drop_last());
        let kept = trimmed_end(text).len() as int;
        assert(text.drop_last().take(kept) =~= text.take(kept));
    } else {
        assert(text.take(text.len() as int) =~= text);
    }
}

/// Whether a text is blank can be told from what trimming leaves of it.
pub proof fn lemma_trimmed_blank(text: Seq<char>)
    ensures
        (trimmed(text).len() == 0) == is_blank(text),
{
    let start = white_end(text, 0);
    let rest = trimmed_start(text);
    lemma_white_end(text, 0);
    if start < text.len() {
        assert(rest[0] == text[start]);
        lemma_trimmed_end_keeps(rest, 0);
        assert(!is_white(text[start]));
    } else {
        assert(rest.len() == 0);
        assert(is_blank(text));
    }
}

proof fn lemma_trimmed_end_keeps(text: Seq<char>, at: int)
    requires
        0 <= at < text.len(),
        !is_white(text[at]),
    ensures
        trimmed_end(text).len() > at,
    decreases text.len(),
{
    if is_white(text.last()) {
        lemma_trimmed_end_keeps(text.drop_last(), at);
    }
}

/// Removes the white space at the end of a text.
pub fn trim_end(text: &str) -> (kept: String)
    ensures
        kept@ == trimmed_end(text@),
{
    let chars = chars_of(text);
    let mut end: usize = chars.len();
    assert(text@.take(end as int) =~= text@);
    while end > 0 && is_whitespace(chars[end - 1])
        invariant
            end <= chars.len(),
            chars@ == text@,
            trimmed_end(text@.take(end as int)) == trimmed_end(text@),
        decreases end,
    {
        proof {
            assert(text@.take(end as int).drop_last() =~= text@.take(end - 1));
        }
        end = end - 1;
    }
    let kept = slice_text(&chars, 0, end);
    assert(kept@ =~= text@.take(end as int));
    kept
}

/// Removes the white space at both ends of a text.
pub fn trim(text: &str) -> (kept: String)
    ensures
        kept@ == trimmed(text@),
{
    let chars = chars_of(text);
    let mut start: usize = 0;
    while start < chars.len() && is_whitespace(chars[start])
        invariant
            start <= chars.len(),
            chars@ == text@,
            white_end(text@, start as int) == white_end(text@, 0),
        decreases chars.len() - start,
    {
        start = start + 1;
    }
    let rest = slice_text(&chars, start, chars.len());
    assert(rest@ =~= trimmed_start(text@));
    trim_end(rest.as_str())
}

/// Whether a text holds nothing but white space.
pub fn blank(text: &str) -> (yes: bool)
    ensures
        yes == is_blank(text@),
        yes == (trimmed(text@).len() == 0),
{
    proof {
        lemma_trimmed_blank(text@);
    }
    let chars = chars_of(text);
    let mut i: usize = 0;
    while i < chars.len()
        invariant
            i <= chars.len(),
            chars@ == text@,
            (trimmed(text@).len() == 0) == is_blank(text@),
            forall|j: int| 0 <= j < i ==> is_white(#[trigger] text@[j]),
        decreases chars.len() - i,
    {
        if !is_whitespace(chars[i]) {
            assert(!is_white(text@[i as int]));
            return false;
        }
        i = i + 1;
    }
    true
}

/// The position of the first line feed from `from` on, or the length of the
/// text.
pub open spec fn line_end(text: Seq<char>, from: int) -> int
    decreases text.len() - from,
{
    if 0 <= from < text.len() && text[from] != '\n' {
        line_end(text, from + 1)
    } else {
        from
    }
}

/// A line ends at a line feed or at the end of the text.
pub proof fn lemma_line_end(text: Seq<char>, from: int)
    requires
        0 <= from <= text.len(),
    ensures
        from <= line_end(text, from) <= text.len(),
        forall|i: int| from <= i < line_end(text, from) ==> #[trigger] text[i] != '\n',
        line_end(text, from) < text.len() ==> text[line_end(text, from)] == '\n',
    decreases text.len() - from,
{
    if from < text.len() && text[from] != '\n' {
        lemma_line_end(text, from + 1);
    }
}

/// A line without the carriage return that ends it, if one does.
pub open spec fn without_return(line: Seq<char>) -> Seq<char> {
    if line.len() > 0 && line.last() == '\r' {
        line.drop_last()
    } else {
        line
    }
}

/// The lines of `text` from position `from` on.
pub open spec fn lines_from(text: Seq<char>, from: int) -> Seq<Seq<char>>
    decreases text.len() - from,
{
    if !(0 <= from < text.len()) {
        seq![]
    } else {
        proof {
            lemma_line_end(text, from);
        }
        let end = line_end(text, from);
        if end < text.len() {
            seq![without_return(text.subrange(from, end))] + lines_from(text, end + 1)
        } else {
            seq![text.subrange(from, end)]
        }
    }
}

/// The lines of `text`. A line ends in a line feed, or in a carriage return and
/// a line feed, neither of which belongs to it; the last line may lack its end.
pub open spec fn lines(text: Seq<char>) -> Seq<Seq<char>> {
    lines_from(text, 0)
}

/// Splits a text into its lines.
pub fn split_lines(text: &str) -> (found: Vec<String>)
    ensures
        found.deep_view() == lines(text@),
{
    let chars = chars_of(text);
    let mut found: Vec<String> = Vec::new();
    let mut i: usize = 0;
    while i < chars.len()
        invariant
            i <= chars.len(),
            chars@ == text@,
            found.deep_view() + lines_from(text@, i as int) == lines(text@),
        decreases chars.len() - i,
    {
        let start = i;
        while i < chars.len() && chars[i] != '\n'
            invariant
                start <= i <= chars.len(),
                chars@ == text@,
                line_end(text@, start as int) == line_end(text@, i as int),
            decreases chars.len() - i,
        {
            i = i + 1;
        }
        proof {
            lemma_line_end(text@, start as int);
        }
        let ghost before = found.deep_view();
        let end = if i < chars.len() && i > start && chars[i - 1] == '\r' {
            i - 1
        } else {
            i
        };
        let line = slice_text(&chars, start, end);
        found.push(line);
        assert(found.deep_view() =~= before.push(line@));
        if i < chars.len() {
            assert(line@ =~= without_return(text@.subrange(start as int, i as int)));
            i = i + 1;
        }
        assert(found.deep_view() + lines_from(text@, i as int) =~= before + lines_from(
            text@,
            start as int,
        ));
    }
    assert(found.deep_view() =~= lines(text@));
    found
}

/// Whether `part` stands in `text` at position `at`.
pub open spec fn occurs(text: Seq<char>, part: Seq<char>, at: int) -> bool {
    &&& 0 <= at
    &&& at + part.len() <= text.len()
    &&& text.subrange(at, at + part.len()) == part
}

/// The first position from `from` on at which `part` stands in `text`.
pub open spec fn first_from(text: Seq<char>, part: Seq<char>, from: int) -> Option<int>
    decreases text.len() + 1 - from,
{
    if !(0 <= from && from + part.len() <= text.len()) {
        None
    } else if occurs(text, part, from) {
        Some(from)
    } else {
        first_from(text, part, from + 1)
    }
}

/// `first_from` finds an occurrence where there is one, and the first.
pub proof fn lemma_first_from(text: Seq<char>, part: Seq<char>, from: int)
    requires
        0 <= from,
    ensures
        first_from(text, part, from) matches Some(at) ==> {
            &&& from <= at
            &&& occurs(text, part, at)
            &&& forall|i: int| from <= i < at ==> !#[trigger] occurs(text, part, i)
        },
        first_from(text, part, from) is None ==> forall|i: int|
            from <= i ==> !#[trigger] occurs(text, part, i),
    decreases text.len() + 1 - from,
{
    if from + part.len() <= text.len() && !occurs(text, part, from) {
        lemma_first_from(text, part, from + 1);
    }
}

fn occurs_at(text: &Vec<char>, part: &Vec<char>, at: usize) -> (yes: bool)
    requires
        at + part.len() <= text.len(),
    ensures
        yes == occurs(text@, part@, at as int),
{
    let mut i: usize = 0;
    while i < part.len()
        invariant
            i <= part.len(),
            at + part.len() <= text.len(),
            forall|j: int| 0 <= j < i ==> text[at + j] == part[j],
        decreases part.len() - i,
    {
        if text[at + i] != part[i] {
            assert(text@.subrange(at as int, at + part.len())[i as int] != part[i as int]);
            return false;
        }
        i = i + 1;
    }
    assert(text@.subrange(at as int, at + part.len()) =~= part@);
    true
}

fn find_from(text: &Vec<char>, part: &Vec<char>, from: usize) -> (found: Option<usize>)
    requires
        from <= text.len(),
    ensures
        match found {
            Some(at) => first_from(text@, part@, from as int) == Some(at as int),
            None => first_from(text@, part@, from as int) is None,
        },
{
    let mut at: usize = from;
    while part.len() <= text.len() - at
        invariant
            from <= at <= text.len(),
            first_from(text@, part@, at as int) == first_from(text@, part@, from as int),
        decreases text.len() - at,
    {
        if occurs_at(text, part, at) {
            return Some(at);
        }
        assert(at < text.len()) by {
            if at == text.len() {
                assert(text@.subrange(at as int, at as int) =~= part@);
            }
        }
        at = at + 1;
    }
    None
}

/// Whether `part` stands somewhere in `text`.
pub open spec fn holds(text: Seq<char>, part: Seq<char>) -> bool {
    exists|at: int| occurs(text, part, at)
}

/// Whether a text contains another.
pub fn contains(text: &str, part: &str) -> (yes: bool)
    ensures
        yes == holds(text@, part@),
{
    let chars = chars_of(text);
    let wanted = chars_of(part);
    proof {
        lemma_first_from(text@, part@, 0);
    }
    let found = find_from(&chars, &wanted, 0);
    proof {
        if found is None {
            assert forall|at: int| !occurs(text@, part@, at) by {
                if at < 0 {
                }
            }
        }
    }
    found.is_some()
}

/// The pieces of `text` from `from` on, cut at each `separator`.
pub open spec fn pieces_from(text: Seq<char>, separator: Seq<char>, from: int) -> Seq<Seq<char>>
    decreases text.len() - from,
{
    if separator.len() == 0 || !(0 <= from <= text.len()) {
        seq![text.skip(from)]
    } else {
        proof {
            lemma_first_from(text, separator, from);
        }
        match first_from(text, separator, from) {
            None => seq![text.skip(from)],
            Some(at) => seq![text.subrange(from, at)] + pieces_from(
                text,
                separator,
                at + separator.len(),
            ),
        }
    }
}

/// The pieces of `text` between the occurrences of `separator`, found from the
/// left and not overlapping.
pub open spec fn pieces(text: Seq<char>, separator: Seq<char>) -> Seq<Seq<char>> {
    pieces_from(text, separator, 0)
}

/// Cuts a text at each occurrence of a separator.
pub fn split(text: &str, separator: &str) -> (found: Vec<String>)
    requires
        separator@.len() > 0,
    ensures
        found.deep_view() == pieces(text@, separator@),
{
    let chars = chars_of(text);
    let cut = chars_of(separator);
    let mut found: Vec<String> = Vec::new();
    let mut from: usize = 0;
    loop
        invariant
            from <= chars.len(),
            chars@ == text@,
            cut@ == separator@,
            cut.len() > 0,
            found.deep_view() + pieces_from(text@, separator@, from as int) == pieces(
                text@,
                separator@,
            ),
        decreases chars.len() - from,
    {
        let ghost before = found.deep_view();
        proof {
            lemma_first_from(text@, separator@, from as int);
        }
        match find_from(&chars, &cut, from) {
            None => {
                let piece = slice_text(&chars, from, chars.len());
                found.push(piece);
                assert(found.deep_view() =~= before.push(piece@));
                assert(found.deep_view() =~= pieces(text@, separator@));
                return found;
            },
            Some(at) => {
                let piece = slice_text(&chars, from, at);
                found.push(piece);
                assert(found.deep_view() =~= before.push(piece@));
                let ghost next: int = at + cut.len();
                assert(found.deep_view() + pieces_from(text@, separator@, next) =~= before
                    + pieces_from(text@, separator@, from as int));
                from = at + cut.len();
            },
        }
    }
}

/// What stands before and behind the first `separator` in `text`.
pub open spec fn halves(text: Seq<char>, separator: Seq<char>) -> Option<(Seq<char>, Seq<char>)> {
    match first_from(text, separator, 0) {
        None => None,
        Some(at) => Some((text.take(at), text.skip(at + separator.len()))),
    }
}

/// Cuts a text once, at the first occurrence of a separator.
pub fn split_once(text: &str, separator: &str) -> (found: Option<(String, String)>)
    ensures
        found.deep_view() == halves(text@, separator@),
{
    let chars = chars_of(text);
    let cut = chars_of(separator);
    proof {
        lemma_first_from(text@, separator@, 0);
    }
    match find_from(&chars, &cut, 0) {
        None => None,
        Some(at) => {
            let left = slice_text(&chars, 0, at);
            let right = slice_text(&chars, at + cut.len(), chars.len());
            assert(left@ =~= text@.take(at as int));
            assert(right@ =~= text@.skip(at + separator@.len()));
            Some((left, right))
        },
    }
}

/// `text` with every occurrence of `old_part` written as `new_part`.
pub open spec fn replaced(text: Seq<char>, old_part: Seq<char>, new_part: Seq<char>) -> Seq<char> {
    joined(pieces(text, old_part), new_part)
}

/// Replaces every occurrence of one text in another.
pub fn replace(text: &str, old_part: &str, new_part: &str) -> (changed: String)
    requires
        old_part@.len() > 0,
    ensures
        changed@ == replaced(text@, old_part@, new_part@),
{
    let found = split(text, old_part);
    join(&found, new_part)
}

/// What stands in `text` behind `prefix`, where `text` begins with it.
pub open spec fn behind(text: Seq<char>, prefix: Seq<char>) -> Option<Seq<char>> {
    if occurs(text, prefix, 0) {
        Some(text.skip(prefix.len() as int))
    } else {
        None
    }
}

/// Takes a prefix off a text that begins with it.
pub fn strip_prefix(text: &str, prefix: &str) -> (rest: Option<String>)
    ensures
        rest.deep_view() == behind(text@, prefix@),
{
    let chars = chars_of(text);
    let start = chars_of(prefix);
    if start.len() <= chars.len() && occurs_at(&chars, &start, 0) {
        let rest = slice_text(&chars, start.len(), chars.len());
        assert(rest@ =~= text@.skip(prefix@.len() as int));
        Some(rest)
    } else {
        None
    }
}

/// The first `count` characters of a text, or the whole text if it is shorter.
pub fn take_chars(text: &str, count: usize) -> (kept: String)
    ensures
        kept@ == if count < text@.len() {
            text@.take(count as int)
        } else {
            text@
        },
{
    let chars = chars_of(text);
    let end = if count < chars.len() {
        count
    } else {
        chars.len()
    };
    let kept = slice_text(&chars, 0, end);
    assert(kept@ =~= text@.take(end as int));
    assert(text@.take(text@.len() as int) =~= text@);
    kept
}

/// The character with an ASCII capital turned into its small letter.
pub open spec fn small_letter(ch: char) -> char {
    if 'A' <= ch <= 'Z' {
        ((ch as u8) + 32) as char
    } else {
        ch
    }
}

/// The text with ASCII capitals turned into small letters.
pub open spec fn small_letters(text: Seq<char>) -> Seq<char> {
    text.map_values(|ch: char| small_letter(ch))
}

/// Turns the ASCII capitals of a text into small letters.
pub fn to_ascii_lowercase(text: &str) -> (lower: String)
    ensures
        lower@ == small_letters(text@),
{
    let chars = chars_of(text);
    let mut lower = String::new();
    let mut i: usize = 0;
    while i < chars.len()
        invariant
            i <= chars.len(),
            chars@ == text@,
            lower@ == small_letters(text@.take(i as int)),
        decreases chars.len() - i,
    {
        let ch = chars[i];
        if 'A' <= ch && ch <= 'Z' {
            lower.push(((ch as u8) + 32) as char);
        } else {
            lower.push(ch);
        }
        i = i + 1;
        assert(lower@ =~= small_letters(text@.take(i as int)));
    }
    assert(text@.take(chars.len() as int) =~= text@);
    lower
}

/// `text` filled up with spaces behind it to `width` characters.
pub open spec fn padded(text: Seq<char>, width: nat) -> Seq<char> {
    if text.len() < width {
        text + Seq::new((width - text.len()) as nat, |i: int| ' ')
    } else {
        text
    }
}

/// Fills a text up with spaces to a number of characters.
pub fn pad(text: &str, width: usize) -> (filled: String)
    ensures
        filled@ == padded(text@, width as nat),
{
    let mut length: usize = chars_of(text).len();
    let mut filled = text.to_owned();
    while length < width
        invariant
            filled@.len() == length,
            text@.len() <= length,
            length <= width || length == text@.len(),
            filled@ == text@ + Seq::new((length - text@.len()) as nat, |i: int| ' '),
        decreases width - length,
    {
        filled.push(' ');
        length = length + 1;
        assert(filled@ =~= text@ + Seq::new((length - text@.len()) as nat, |i: int| ' '));
    }
    assert(filled@ =~= padded(text@, width as nat));
    filled
}

/// Whether `left` comes before `right` or equals it, compared character by
/// character by code point.
pub open spec fn text_le(left: Seq<char>, right: Seq<char>) -> bool
    decreases left.len(),
{
    if left.len() == 0 {
        true
    } else if right.len() == 0 {
        false
    } else if left[0] != right[0] {
        left[0] < right[0]
    } else {
        text_le(left.skip(1), right.skip(1))
    }
}

/// Compares two texts character by character.
pub fn no_later(left: &str, right: &str) -> (yes: bool)
    ensures
        yes == text_le(left@, right@),
{
    let first = chars_of(left);
    let second = chars_of(right);
    let mut i: usize = 0;
    assert(left@.skip(0) =~= left@);
    assert(right@.skip(0) =~= right@);
    while i < first.len() && i < second.len()
        invariant
            i <= first.len(),
            i <= second.len(),
            first@ == left@,
            second@ == right@,
            text_le(left@.skip(i as int), right@.skip(i as int)) == text_le(left@, right@),
        decreases first.len() - i,
    {
        if first[i] != second[i] {
            return first[i] < second[i];
        }
        proof {
            assert(left@.skip(i as int).skip(1) =~= left@.skip(i + 1));
            assert(right@.skip(i as int).skip(1) =~= right@.skip(i + 1));
        }
        i = i + 1;
    }
    i == first.len()
}

/// Texts are ordered: every text comes before itself, of two texts one comes
/// before the other, only equal ones come before each other, and what comes
/// before a text comes before what that one comes before.
pub proof fn texts_are_ordered(first: Seq<char>, second: Seq<char>, third: Seq<char>)
    ensures
        text_le(first, first),
        text_le(first, second) || text_le(second, first),
        text_le(first, second) && text_le(second, first) ==> first == second,
        text_le(first, second) && text_le(second, third) ==> text_le(first, third),
    decreases first.len() + second.len() + third.len(),
{
    if first.len() > 0 {
        let one = first.skip(1);
        let two = if second.len() > 0 {
            second.skip(1)
        } else {
            second
        };
        let three = if third.len() > 0 {
            third.skip(1)
        } else {
            third
        };
        texts_are_ordered(one, two, three);
        if second.len() > 0 && first[0] == second[0] && one == two {
            assert(first =~= seq![first[0]] + one);
            assert(second =~= seq![second[0]] + two);
        }
    } else if second.len() == 0 {
        assert(first =~= second);
    }
}

/// The first part of a list is written first, and a separator behind it if more
/// follows.
pub proof fn lemma_joined_first(parts: Seq<Seq<char>>, separator: Seq<char>)
    requires
        parts.len() > 1,
    ensures
        joined(parts, separator) == parts[0] + separator + joined(parts.skip(1), separator),
    decreases parts.len(),
{
    if parts.len() == 2 {
        assert(parts.drop_last()[0] == parts[0]);
        assert(parts.skip(1)[0] == parts[1]);
        assert(joined(parts.drop_last(), separator) == parts[0]);
    } else {
        lemma_joined_first(parts.drop_last(), separator);
        assert(parts.drop_last().skip(1) =~= parts.skip(1).drop_last());
        assert(joined(parts, separator) =~= parts[0] + separator + joined(
            parts.skip(1),
            separator,
        ));
    }
}

proof fn lemma_pieces_from(text: Seq<char>, separator: Seq<char>, from: int)
    requires
        separator.len() > 0,
        0 <= from <= text.len(),
    ensures
        pieces_from(text, separator, from).len() > 0,
        joined(pieces_from(text, separator, from), separator) == text.skip(from),
        forall|i: int|
            0 <= i < pieces_from(text, separator, from).len() ==> !holds(
                #[trigger] pieces_from(text, separator, from)[i],
                separator,
            ),
    decreases text.len() - from,
{
    lemma_first_from(text, separator, from);
    let found = pieces_from(text, separator, from);
    match first_from(text, separator, from) {
        None => {
            let piece = text.skip(from);
            assert forall|at: int| !occurs(piece, separator, at) by {
                if occurs(piece, separator, at) {
                    assert(text.subrange(from + at, from + at + separator.len())
                        =~= piece.subrange(at, at + separator.len()));
                    assert(occurs(text, separator, from + at));
                }
            }
            assert(found[0] == piece);
        },
        Some(at) => {
            let next = at + separator.len();
            let piece = text.subrange(from, at);
            lemma_pieces_from(text, separator, next);
            let rest = pieces_from(text, separator, next);
            assert(found.skip(1) =~= rest);
            lemma_joined_first(found, separator);
            assert(text.subrange(at, next) == separator);
            assert(text.skip(from) =~= piece + separator + text.skip(next));
            assert forall|i: int| !occurs(piece, separator, i) by {
                if occurs(piece, separator, i) {
                    assert(text.subrange(from + i, from + i + separator.len())
                        =~= piece.subrange(i, i + separator.len()));
                    assert(occurs(text, separator, from + i));
                }
            }
            assert forall|i: int| 0 <= i < found.len() implies !holds(
                #[trigger] found[i],
                separator,
            ) by {
                if i > 0 {
                    assert(found[i] == rest[i - 1]);
                }
            }
        },
    }
}

/// A text that is cut at each separator can be put together again, and no piece
/// holds a separator any more.
pub proof fn pieces_make_up_the_text(text: Seq<char>, separator: Seq<char>)
    requires
        separator.len() > 0,
    ensures
        joined(pieces(text, separator), separator) == text,
        forall|i: int|
            0 <= i < pieces(text, separator).len() ==> !holds(
                #[trigger] pieces(text, separator)[i],
                separator,
            ),
{
    lemma_pieces_from(text, separator, 0);
    assert(text.skip(0) =~= text);
}

/// A text that is cut once can be put together again.
pub proof fn halves_make_up_the_text(text: Seq<char>, separator: Seq<char>)
    ensures
        halves(text, separator) matches Some((left, right)) ==> {
            &&& text == left + separator + right
            &&& separator.len() > 0 ==> !holds(left, separator)
        },
        halves(text, separator) is None ==> !holds(text, separator),
{
    lemma_first_from(text, separator, 0);
    match first_from(text, separator, 0) {
        None => {},
        Some(at) => {
            let left = text.take(at);
            assert(text.subrange(at, at + separator.len()) == separator);
            assert(text =~= left + separator + text.skip(at + separator.len()));
            if separator.len() > 0 {
                assert forall|i: int| !occurs(left, separator, i) by {
                    if occurs(left, separator, i) {
                        assert(text.subrange(i, i + separator.len()) =~= left.subrange(
                            i,
                            i + separator.len(),
                        ));
                        assert(occurs(text, separator, i));
                    }
                }
            }
        },
    }
}

/// Lines that are written one below the other.
pub open spec fn written(lines: Seq<Seq<char>>) -> Seq<char>
    decreases lines.len(),
{
    if lines.len() == 0 {
        seq![]
    } else {
        written(lines.drop_last()) + lines.last() + seq!['\n']
    }
}

/// Whether a line can be told apart again once it has been written: no line feed
/// is in it, and no carriage return ends it.
pub open spec fn is_line(line: Seq<char>) -> bool {
    &&& forall|i: int| 0 <= i < line.len() ==> #[trigger] line[i] != '\n'
    &&& line.len() > 0 ==> line.last() != '\r'
}

proof fn lemma_written_first(lines: Seq<Seq<char>>)
    requires
        lines.len() > 0,
    ensures
        written(lines) == lines[0] + seq!['\n'] + written(lines.skip(1)),
    decreases lines.len(),
{
    if lines.len() == 1 {
        assert(lines.drop_last() =~= seq![]);
        assert(lines.skip(1) =~= seq![]);
        assert(written(lines) =~= lines[0] + seq!['\n'] + written(lines.skip(1)));
    } else {
        lemma_written_first(lines.drop_last());
        assert(lines.drop_last().skip(1) =~= lines.skip(1).drop_last());
        assert(written(lines) =~= lines[0] + seq!['\n'] + written(lines.skip(1)));
    }
}

proof fn lemma_line_end_at(text: Seq<char>, from: int, end: int)
    requires
        0 <= from <= end < text.len(),
        forall|i: int| from <= i < end ==> #[trigger] text[i] != '\n',
        text[end] == '\n',
    ensures
        line_end(text, from) == end,
    decreases end - from,
{
    if from < end {
        lemma_line_end_at(text, from + 1, end);
    }
}

proof fn lemma_lines_of_written(text: Seq<char>, from: int, list: Seq<Seq<char>>)
    requires
        0 <= from <= text.len(),
        text.skip(from) == written(list),
        forall|i: int| 0 <= i < list.len() ==> is_line(#[trigger] list[i]),
    ensures
        lines_from(text, from) == list,
    decreases list.len(),
{
    if list.len() == 0 {
        assert(text.skip(from).len() == 0);
        assert(lines_from(text, from) =~= list);
    } else {
        lemma_written_first(list);
        let line = list[0];
        let end = from + line.len();
        let rest = list.skip(1);
        let tail = text.skip(from);
        assert(tail == line + seq!['\n'] + written(rest));
        assert(tail.len() > line.len());
        assert forall|i: int| from <= i < end implies #[trigger] text[i] != '\n' by {
            assert(tail[i - from] == text[i]);
            assert(tail[i - from] == line[i - from]);
        }
        assert(tail[line.len() as int] == '\n');
        assert(tail[line.len() as int] == text[end]);
        lemma_line_end_at(text, from, end);
        assert(text.subrange(from, end) =~= line);
        assert(text.skip(end + 1) =~= written(rest)) by {
            assert(text.skip(end + 1) =~= text.skip(from).skip(line.len() as int + 1));
        }
        lemma_lines_of_written(text, end + 1, rest);
        assert(list =~= seq![line] + rest);
    }
}

/// Lines that were written are read back as they were.
pub proof fn written_lines_are_read_back(list: Seq<Seq<char>>)
    requires
        forall|i: int| 0 <= i < list.len() ==> is_line(#[trigger] list[i]),
    ensures
        lines(written(list)) == list,
{
    let text = written(list);
    assert(text.skip(0) =~= text);
    lemma_lines_of_written(text, 0, list);
}

/// Whether a character stands nowhere in a text.
pub open spec fn lacks(text: Seq<char>, ch: char) -> bool {
    forall|i: int| 0 <= i < text.len() ==> #[trigger] text[i] != ch
}

proof fn lemma_first_behind(text: Seq<char>, part: Seq<char>, from: int, at: int)
    requires
        part.len() > 0,
        0 <= from <= at,
        occurs(text, part, at),
        forall|i: int| from <= i < at ==> #[trigger] text[i] != part[0],
    ensures
        first_from(text, part, from) == Some(at),
    decreases at - from,
{
    if from < at {
        if occurs(text, part, from) {
            assert(text.subrange(from, from + part.len())[0] == part[0]);
            assert(text[from] == part[0]);
        }
        lemma_first_behind(text, part, from + 1, at);
    }
}

/// What was put together with a separator between is cut there again, where the
/// first half holds no character that the separator starts with.
pub proof fn lemma_halves_of(left: Seq<char>, separator: Seq<char>, right: Seq<char>)
    requires
        separator.len() > 0,
        lacks(left, separator[0]),
    ensures
        halves(left + separator + right, separator) == Some((left, right)),
{
    let text = left + separator + right;
    let at = left.len() as int;
    assert(text.subrange(at, at + separator.len()) =~= separator);
    assert forall|i: int| 0 <= i < at implies #[trigger] text[i] != separator[0] by {
        assert(text[i] == left[i]);
    }
    lemma_first_behind(text, separator, 0, at);
    assert(text.take(at) =~= left);
    assert(text.skip(at + separator.len()) =~= right);
}

proof fn lemma_pieces_of_joined(
    text: Seq<char>,
    from: int,
    parts: Seq<Seq<char>>,
    separator: Seq<char>,
)
    requires
        separator.len() > 0,
        parts.len() > 0,
        forall|i: int| 0 <= i < parts.len() ==> lacks(#[trigger] parts[i], separator[0]),
        0 <= from <= text.len(),
        text.skip(from) == joined(parts, separator),
    ensures
        pieces_from(text, separator, from) == parts,
    decreases parts.len(),
{
    let first = parts[0];
    let tail = text.skip(from);
    if parts.len() == 1 {
        lemma_first_from(text, separator, from);
        if let Some(at) = first_from(text, separator, from) {
            assert(text.subrange(at, at + separator.len())[0] == separator[0]);
            assert(tail[at - from] == text[at]);
            assert(first[at - from] == separator[0]);
        }
        assert(parts =~= seq![tail]);
    } else {
        lemma_joined_first(parts, separator);
        let rest = parts.skip(1);
        let at = from + first.len();
        let next = at + separator.len();
        assert(tail == first + separator + joined(rest, separator));
        assert(tail.len() >= first.len() + separator.len());
        assert(text.subrange(at, next) =~= separator) by {
            assert forall|i: int| 0 <= i < separator.len() implies text.subrange(at, next)[i]
                == separator[i] by {
                assert(tail[first.len() + i] == text[at + i]);
            }
        }
        assert forall|i: int| from <= i < at implies #[trigger] text[i] != separator[0] by {
            assert(tail[i - from] == text[i]);
            assert(tail[i - from] == first[i - from]);
        }
        lemma_first_behind(text, separator, from, at);
        assert(text.subrange(from, at) =~= first) by {
            assert forall|i: int| 0 <= i < first.len() implies text.subrange(from, at)[i]
                == first[i] by {
                assert(tail[i] == text[from + i]);
            }
        }
        assert(text.skip(next) =~= joined(rest, separator)) by {
            let skipped = (first.len() + separator.len()) as int;
            assert(tail.skip(skipped) =~= joined(rest, separator));
            assert(tail.skip(skipped) =~= text.skip(next));
        }
        assert forall|i: int| 0 <= i < rest.len() implies lacks(
            #[trigger] rest[i],
            separator[0],
        ) by {
            assert(rest[i] == parts[i + 1]);
        }
        lemma_pieces_of_joined(text, next, rest, separator);
        assert(parts =~= seq![first] + rest);
    }
}

/// Parts that were written one after the other are told apart again, where none of
/// them holds a character that the separator starts with.
pub proof fn joined_parts_are_told_apart(parts: Seq<Seq<char>>, separator: Seq<char>)
    requires
        separator.len() > 0,
        parts.len() > 0,
        forall|i: int| 0 <= i < parts.len() ==> lacks(#[trigger] parts[i], separator[0]),
    ensures
        pieces(joined(parts, separator), separator) == parts,
{
    let text = joined(parts, separator);
    assert(text.skip(0) =~= text);
    lemma_pieces_of_joined(text, 0, parts, separator);
}

proof fn lemma_line_end_shifts(first: Seq<char>, second: Seq<char>, from: int)
    requires
        0 <= from <= second.len(),
    ensures
        line_end(first + second, first.len() + from) == first.len() + line_end(second, from),
    decreases second.len() - from,
{
    let both = first + second;
    if from < second.len() {
        assert(both[first.len() + from] == second[from]);
        if second[from] != '\n' {
            lemma_line_end_shifts(first, second, from + 1);
        }
    }
}

proof fn lemma_lines_shift(first: Seq<char>, second: Seq<char>, from: int)
    requires
        0 <= from <= second.len(),
    ensures
        lines_from(first + second, first.len() + from) == lines_from(second, from),
    decreases second.len() - from,
{
    let both = first + second;
    if from < second.len() {
        lemma_line_end_shifts(first, second, from);
        lemma_line_end(second, from);
        let end = line_end(second, from);
        assert(both.subrange(first.len() + from, first.len() + end) =~= second.subrange(
            from,
            end,
        ));
        if end < second.len() {
            lemma_lines_shift(first, second, end + 1);
        }
    }
}

proof fn lemma_lines_append(first: Seq<char>, second: Seq<char>, from: int)
    requires
        first.len() == 0 || first.last() == '\n',
        0 <= from <= first.len(),
    ensures
        lines_from(first + second, from) == lines_from(first, from) + lines(second),
    decreases first.len() - from,
{
    let both = first + second;
    if from == first.len() {
        lemma_lines_shift(first, second, 0);
        assert(lines_from(first, from) + lines(second) =~= lines(second));
    } else {
        lemma_line_end(first, from);
        let end = line_end(first, from);
        assert(first[first.len() - 1] == '\n');
        assert(end < first.len());
        assert forall|i: int| from <= i < end implies #[trigger] both[i] != '\n' by {
            assert(both[i] == first[i]);
        }
        assert(both[end] == first[end]);
        lemma_line_end_at(both, from, end);
        assert(both.subrange(from, end) =~= first.subrange(from, end));
        lemma_lines_append(first, second, end + 1);
        let line = seq![without_return(first.subrange(from, end))];
        assert(line + (lines_from(first, end + 1) + lines(second)) =~= line + lines_from(
            first,
            end + 1,
        ) + lines(second));
    }
}

/// The lines of a text that starts with whole lines are those lines and then the
/// lines of the rest.
pub proof fn lines_add_up(first: Seq<char>, second: Seq<char>)
    requires
        first.len() == 0 || first.last() == '\n',
    ensures
        lines(first + second) == lines(first) + lines(second),
{
    lemma_lines_append(first, second, 0);
}

}
