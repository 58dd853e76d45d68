//! The list of worktrees as git writes it, and that it is read back.
use vstd::prelude::*;

use crate::git;
use crate::git::EntryView;
use crate::letters;
use crate::text;

verus! {

/// The lines that git writes of a worktree: where it is, the commit that it is on,
/// its branch if it has one, and an empty line.
pub open spec fn entry_lines(entry: EntryView, commit: Seq<char>) -> Seq<Seq<char>> {
    seq![
        "worktree "@ + entry.path,
        "HEAD "@ + commit,
        if entry.branch.len() == 0 {
            "detached"@
        } else {
            "branch "@ + ("refs/heads/"@ + entry.branch)
        },
        seq![],
    ]
}

/// The lines that git writes of worktrees, from worktree `from` on.
pub open spec fn list_lines(
    entries: Seq<EntryView>,
    commits: Seq<Seq<char>>,
    from: int,
) -> Seq<Seq<char>>
    decreases entries.len() - from,
{
    if 0 <= from < entries.len() {
        entry_lines(entries[from], commits[from]) + list_lines(entries, commits, from + 1)
    } else {
        seq![]
    }
}

/// A text that starts with a prefix has the rest behind it.
proof fn lemma_behind_prefix(prefix: Seq<char>, rest: Seq<char>)
    ensures
        text::behind(prefix + rest, prefix) == Some(rest),
{
    let whole = prefix + rest;
    assert(whole.subrange(0, prefix.len() as int) =~= prefix);
    assert(whole.skip(prefix.len() as int) =~= rest);
}

/// A text that starts with another character than the prefix does not start with
/// the prefix.
proof fn lemma_not_behind(whole: Seq<char>, prefix: Seq<char>)
    requires
        prefix.len() > 0,
        whole.len() == 0 || whole[0] != prefix[0],
    ensures
        text::behind(whole, prefix) is None,
{
    if text::occurs(whole, prefix, 0) {
        assert(whole.subrange(0, prefix.len() as int)[0] == prefix[0]);
    }
}

proof fn lemma_filled(line: Seq<char>, first: char)
    requires
        line.len() > 0,
        line[0] == first,
        !text::is_white(first),
    ensures
        !text::is_blank(line),
{
    assert(!text::is_white(line[0]));
}

proof fn lemma_entry_is_read(list: Seq<Seq<char>>, at: int, entry: EntryView, commit: Seq<char>)
    requires
        0 <= at,
        at + 4 <= list.len(),
        list.subrange(at, at + 4) == entry_lines(entry, commit),
    ensures
        git::entries_from(list, at) == seq![entry] + git::entries_from(list, at + 4),
{
    let lines = entry_lines(entry, commit);
    reveal_strlit("worktree ");
    reveal_strlit("HEAD ");
    reveal_strlit("detached");
    reveal_strlit("branch ");
    reveal_strlit("refs/heads/");
    assert(list[at] == list.subrange(at, at + 4)[0]);
    assert(list[at + 1] == list.subrange(at, at + 4)[1]);
    assert(list[at + 2] == list.subrange(at, at + 4)[2]);
    assert(list[at + 3] == list.subrange(at, at + 4)[3]);
    lemma_behind_prefix("worktree "@, entry.path);
    let head = lines[1];
    assert(head[0] == 'H');
    lemma_not_behind(head, "worktree "@);
    lemma_not_behind(head, "branch "@);
    lemma_filled(head, 'H');
    let named = lines[2];
    if entry.branch.len() == 0 {
        assert(named[0] == 'd');
        lemma_not_behind(named, "branch "@);
        lemma_filled(named, 'd');
        assert(entry.branch =~= seq![]);
    } else {
        assert(named[0] == 'b');
        lemma_behind_prefix("branch "@, "refs/heads/"@ + entry.branch);
        lemma_behind_prefix("refs/heads/"@, entry.branch);
        lemma_filled(named, 'b');
    }
    lemma_not_behind(named, "worktree "@);
    let end = lines[3];
    assert(end.len() == 0);
    lemma_not_behind(end, "worktree "@);
    assert(text::is_blank(end));
    let known = git::entry_branch(list, at + 3, entry.branch);
    assert(known == entry.branch);
    assert(git::entry_branch(list, at + 2, seq![]) == entry.branch) by {
        if entry.branch.len() == 0 {
            assert(git::entry_branch(list, at + 3, seq![]) == Seq::<char>::empty());
        }
    }
    assert(git::entry_branch(list, at + 1, seq![]) == entry.branch);
    assert(git::entries_from(list, at + 3) == git::entries_from(list, at + 4));
    assert(git::entries_from(list, at + 2) == git::entries_from(list, at + 4));
    assert(git::entries_from(list, at + 1) == git::entries_from(list, at + 4));
}

proof fn lemma_list_is_read(
    list: Seq<Seq<char>>,
    at: int,
    entries: Seq<EntryView>,
    commits: Seq<Seq<char>>,
    from: int,
)
    requires
        0 <= at <= list.len(),
        0 <= from <= entries.len(),
        list.skip(at) == list_lines(entries, commits, from),
    ensures
        git::entries_from(list, at) == entries.skip(from),
    decreases entries.len() - from,
{
    if from < entries.len() {
        let here = entry_lines(entries[from], commits[from]);
        let rest = list_lines(entries, commits, from + 1);
        let tail = list.skip(at);
        assert(tail.len() >= 4);
        assert(list.subrange(at, at + 4) =~= here) by {
            assert forall|i: int| 0 <= i < 4 implies list.subrange(at, at + 4)[i] == here[i] by {
                assert(tail[i] == list[at + i]);
            }
        }
        lemma_entry_is_read(list, at, entries[from], commits[from]);
        assert(list.skip(at + 4) =~= rest) by {
            assert(tail.skip(4) =~= rest);
            assert(tail.skip(4) =~= list.skip(at + 4));
        }
        lemma_list_is_read(list, at + 4, entries, commits, from + 1);
        assert(entries.skip(from) =~= seq![entries[from]] + entries.skip(from + 1));
    } else {
        assert(list.skip(at).len() == 0);
        assert(entries.skip(from) =~= seq![]);
    }
}

proof fn lemma_lines_are_lines(entries: Seq<EntryView>, commits: Seq<Seq<char>>, from: int)
    requires
        0 <= from,
        entries.len() == commits.len(),
        forall|i: int|
            0 <= i < entries.len() ==> text::is_line((#[trigger] entries[i]).path)
                && text::is_line(entries[i].branch) && text::is_line(commits[i]),
    ensures
        forall|i: int|
            0 <= i < list_lines(entries, commits, from).len() ==> text::is_line(
                #[trigger] list_lines(entries, commits, from)[i],
            ),
    decreases entries.len() - from,
{
    if from < entries.len() {
        lemma_lines_are_lines(entries, commits, from + 1);
        let entry = entries[from];
        let here = entry_lines(entry, commits[from]);
        let rest = list_lines(entries, commits, from + 1);
        let all = list_lines(entries, commits, from);
        reveal_strlit("worktree ");
        reveal_strlit("HEAD ");
        reveal_strlit("detached");
        reveal_strlit("branch ");
        reveal_strlit("refs/heads/");
        lemma_line_behind("worktree "@, entry.path);
        lemma_line_behind("HEAD "@, commits[from]);
        lemma_line_behind("refs/heads/"@, entry.branch);
        lemma_line_behind("branch "@, "refs/heads/"@ + entry.branch);
        assert(text::is_line("detached"@));
        assert forall|i: int| 0 <= i < all.len() implies text::is_line(#[trigger] all[i]) by {
            if i < 4 {
                assert(all[i] == here[i]);
            } else {
                assert(all[i] == rest[i - 4]);
            }
        }
    }
}

proof fn lemma_line_behind(prefix: Seq<char>, line: Seq<char>)
    requires
        text::is_line(prefix),
        text::is_line(line),
    ensures
        text::is_line(prefix + line),
{
    let both = prefix + line;
    if line.len() > 0 {
        assert(both.last() == line.last());
    } else {
        assert(both =~= prefix);
    }
}

/// What git lists is what is read: the worktrees, with their paths and branches,
/// in order.
pub proof fn listed_worktrees_are_read_back(entries: Seq<EntryView>, commits: Seq<Seq<char>>)
    requires
        entries.len() == commits.len(),
        forall|i: int|
            0 <= i < entries.len() ==> text::is_line((#[trigger] entries[i]).path)
                && text::is_line(entries[i].branch) && text::is_line(commits[i]),
    ensures
        git::listed_entries(text::written(list_lines(entries, commits, 0))) == entries,
{
    let list = list_lines(entries, commits, 0);
    lemma_lines_are_lines(entries, commits, 0);
    text::written_lines_are_read_back(list);
    assert(list.skip(0) =~= list);
    lemma_list_is_read(list, 0, entries, commits, 0);
    assert(entries.skip(0) =~= entries);
}

/// A list that goes on behind a blank line gives an entry the same branch as the
/// list that ends there.
proof fn lemma_branch_ends_at_blank(
    first: Seq<Seq<char>>,
    blank: Seq<char>,
    second: Seq<Seq<char>>,
    from: int,
    known: Seq<char>,
)
    requires
        text::is_blank(blank),
        0 <= from <= first.len(),
    ensures
        git::entry_branch(first + seq![blank] + second, from, known) == git::entry_branch(
            first,
            from,
            known,
        ),
    decreases first.len() - from,
{
    let all = first + seq![blank] + second;
    if from < first.len() {
        assert(all[from] == first[from]);
        match git::named_branch(first[from]) {
            Some(branch) => lemma_branch_ends_at_blank(first, blank, second, from + 1, branch),
            None => lemma_branch_ends_at_blank(first, blank, second, from + 1, known),
        }
    } else {
        assert(all[from] == blank);
    }
}

proof fn lemma_branch_shifts(
    first: Seq<Seq<char>>,
    second: Seq<Seq<char>>,
    from: int,
    known: Seq<char>,
)
    requires
        0 <= from <= second.len(),
    ensures
        git::entry_branch(first + second, first.len() + from, known) == git::entry_branch(
            second,
            from,
            known,
        ),
    decreases second.len() - from,
{
    if from < second.len() {
        assert((first + second)[first.len() + from] == second[from]);
        match git::named_branch(second[from]) {
            Some(branch) => lemma_branch_shifts(first, second, from + 1, branch),
            None => lemma_branch_shifts(first, second, from + 1, known),
        }
    }
}

proof fn lemma_entries_shift(first: Seq<Seq<char>>, second: Seq<Seq<char>>, from: int)
    requires
        0 <= from <= second.len(),
    ensures
        git::entries_from(first + second, first.len() + from) == git::entries_from(second, from),
    decreases second.len() - from,
{
    if from < second.len() {
        assert((first + second)[first.len() + from] == second[from]);
        lemma_entries_shift(first, second, from + 1);
        lemma_branch_shifts(first, second, from + 1, seq![]);
    }
}

proof fn lemma_entries_append(
    first: Seq<Seq<char>>,
    blank: Seq<char>,
    second: Seq<Seq<char>>,
    from: int,
)
    requires
        blank.len() == 0,
        0 <= from <= first.len(),
    ensures
        git::entries_from(first + seq![blank] + second, from) == git::entries_from(first, from)
            + git::entries_from(second, 0),
    decreases first.len() - from,
{
    let all = first + seq![blank] + second;
    let rest = git::entries_from(second, 0);
    if from < first.len() {
        assert(all[from] == first[from]);
        lemma_entries_append(first, blank, second, from + 1);
        lemma_branch_ends_at_blank(first, blank, second, from + 1, seq![]);
        assert(git::entries_from(all, from) =~= git::entries_from(first, from) + rest);
    } else {
        assert(all[from] == blank);
        reveal_strlit("worktree ");
        lemma_not_behind(blank, "worktree "@);
        lemma_entries_shift(first + seq![blank], second, 0);
        assert(git::entries_from(first, from) + rest =~= rest);
    }
}

/// A list is read part by part: where a blank line stands between two parts, the
/// worktrees are those of the one and then those of the other.
pub proof fn lists_are_read_part_by_part(first: Seq<char>, second: Seq<char>)
    requires
        first.len() == 0 || first.last() == '\n',
    ensures
        git::listed_entries(first + seq!['\n'] + second) == git::listed_entries(first)
            + git::listed_entries(second),
{
    let feed = seq!['\n'];
    let blank = Seq::<char>::empty();
    let list = seq![blank];
    assert(text::written(list) =~= feed) by {
        assert(list.drop_last() =~= seq![]);
        assert(text::written(list.drop_last()) =~= seq![]);
        assert(list.last() == blank);
    }
    assert(text::is_line(list[0]));
    text::written_lines_are_read_back(list);
    text::lines_add_up(first, feed);
    assert((first + feed).last() == '\n');
    text::lines_add_up(first + feed, second);
    assert(text::lines(first + feed + second) =~= text::lines(first) + seq![blank] + text::lines(
        second,
    ));
    lemma_entries_append(text::lines(first), blank, text::lines(second), 0);
}

/// A line ends the entry before it: it is blank, or it opens the next one.
pub open spec fn ends_entry(line: Seq<char>) -> bool {
    text::is_blank(line) || "worktree "@.is_prefix_of(line)
}

/// Line `i` belongs to the entry that line `from` opens.
pub open spec fn belongs(list: Seq<Seq<char>>, from: int, i: int) -> bool {
    &&& from < i < list.len()
    &&& forall|j: int| from < j <= i ==> !ends_entry(#[trigger] list[j])
}

/// Line `i` names the branch of the entry that line `from` opens: it is the last of its
/// lines that name one.
pub open spec fn names_branch(list: Seq<Seq<char>>, from: int, i: int) -> bool {
    &&& belongs(list, from, i)
    &&& "branch "@.is_prefix_of(list[i])
    &&& forall|j: int| i < j && #[trigger] belongs(list, from, j) ==> !"branch "@.is_prefix_of(
        list[j],
    )
}

/// Whether a line names a branch: a short one, or the full name of one.
pub open spec fn is_name_of(line: Seq<char>, branch: Seq<char>) -> bool {
    if "branch refs/heads/"@.is_prefix_of(line) {
        line == "branch refs/heads/"@ + branch
    } else {
        line == "branch "@ + branch
    }
}

/// An entry is what its lines say: the line that opens it has its path, the last of its
/// lines that names a branch has its branch, and where none does it has none.
pub open spec fn says(list: Seq<Seq<char>>, from: int, entry: EntryView) -> bool {
    &&& 0 <= from < list.len()
    &&& list[from] == "worktree "@ + entry.path
    &&& forall|i: int| #[trigger] names_branch(list, from, i) ==> is_name_of(list[i], entry.branch)
    &&& (forall|i: int| #[trigger] belongs(list, from, i) ==> !"branch "@.is_prefix_of(list[i]))
        ==> entry.branch.len() == 0
}

/// The lines that open an entry, by their numbers from `from` on.
pub open spec fn opening_lines(list: Seq<Seq<char>>, from: int) -> Seq<int>
    decreases list.len() - from,
{
    if !(0 <= from < list.len()) {
        seq![]
    } else if "worktree "@.is_prefix_of(list[from]) {
        seq![from] + opening_lines(list, from + 1)
    } else {
        opening_lines(list, from + 1)
    }
}

proof fn lemma_behind(line: Seq<char>, prefix: Seq<char>)
    ensures
        text::behind(line, prefix) is Some <==> prefix.is_prefix_of(line),
        text::behind(line, prefix) matches Some(rest) ==> line == prefix + rest,
{
    letters::prefixes_are_taken_off(line, prefix, seq![]);
    if text::occurs(line, prefix, 0) {
        assert(prefix =~= line.take(prefix.len() as int));
    }
}

proof fn lemma_name(line: Seq<char>)
    ensures
        git::named_branch(line) is Some <==> "branch "@.is_prefix_of(line),
        git::named_branch(line) matches Some(branch) ==> is_name_of(line, branch),
{
    lemma_behind(line, "branch "@);
    reveal_strlit("branch ");
    reveal_strlit("refs/heads/");
    reveal_strlit("branch refs/heads/");
    assert("branch refs/heads/"@ =~= "branch "@ + "refs/heads/"@);
    if let Some(name) = text::behind(line, "branch "@) {
        lemma_behind(name, "refs/heads/"@);
        if let Some(short) = text::behind(name, "refs/heads/"@) {
            assert(line =~= "branch refs/heads/"@ + short);
            assert("branch refs/heads/"@ =~= line.take(18));
        } else if "branch refs/heads/"@.is_prefix_of(line) {
            assert("branch refs/heads/"@ =~= line.take(18));
            assert("refs/heads/"@ =~= name.take(11)) by {
                assert forall|i: int| 0 <= i < 11 implies "refs/heads/"@[i] == name[i] by {
                    assert("branch refs/heads/"@[i + 7] == line[i + 7]);
                }
            }
        }
    }
}

/// What is known of the branch of an entry before line `at` of its lines.
spec fn known_so_far(
    list: Seq<Seq<char>>,
    from: int,
    at: int,
    known: Seq<char>,
    named: Option<int>,
) -> bool {
    &&& 0 <= from < at <= list.len()
    &&& forall|j: int| from < j < at ==> !ends_entry(#[trigger] list[j])
    &&& match named {
        None => {
            &&& known.len() == 0
            &&& forall|j: int| from < j < at ==> !"branch "@.is_prefix_of(#[trigger] list[j])
        },
        Some(i) => {
            &&& from < i < at
            &&& "branch "@.is_prefix_of(list[i])
            &&& is_name_of(list[i], known)
            &&& forall|j: int| i < j < at ==> !"branch "@.is_prefix_of(#[trigger] list[j])
        },
    }
}

proof fn lemma_entry_branch(
    list: Seq<Seq<char>>,
    from: int,
    at: int,
    known: Seq<char>,
    named: Option<int>,
    path: Seq<char>,
)
    requires
        known_so_far(list, from, at, known, named),
        list[from] == "worktree "@ + path,
    ensures
        says(list, from, EntryView { path, branch: git::entry_branch(list, at, known) }),
    decreases list.len() - at,
{
    if at < list.len() {
        lemma_behind(list[at], "worktree "@);
    }
    if at >= list.len() || ends_entry(list[at]) {
        assert forall|j: int| belongs(list, from, j) implies j < at by {
            if j >= at {
                assert(!ends_entry(list[at]));
            }
        }
        if let Some(i) = named {
            assert(belongs(list, from, i));
            assert forall|j: int| #[trigger] names_branch(list, from, j) implies j == i by {
                assert(belongs(list, from, j));
                if j < i {
                    assert(!"branch "@.is_prefix_of(list[i]));
                }
            }
        } else {
            assert forall|j: int| #[trigger] names_branch(list, from, j) implies false by {
                assert(!"branch "@.is_prefix_of(list[j]));
            }
        }
    } else {
        lemma_name(list[at]);
        match git::named_branch(list[at]) {
            Some(branch) => {
                assert(known_so_far(list, from, at + 1, branch, Some(at)));
                lemma_entry_branch(list, from, at + 1, branch, Some(at), path);
            },
            None => {
                assert(known_so_far(list, from, at + 1, known, named));
                lemma_entry_branch(list, from, at + 1, known, named, path);
            },
        }
    }
}

proof fn lemma_entries_say(list: Seq<Seq<char>>, from: int)
    requires
        0 <= from <= list.len(),
    ensures
        all_say(list, opening_lines(list, from), git::entries_from(list, from)),
    decreases list.len() - from,
{
    if from < list.len() {
        lemma_entries_say(list, from + 1);
        lemma_behind(list[from], "worktree "@);
        if let Some(path) = text::behind(list[from], "worktree "@) {
            assert(known_so_far(list, from, from + 1, seq![], None));
            lemma_entry_branch(list, from, from + 1, seq![], None, path);
            let opened = opening_lines(list, from);
            let found = git::entries_from(list, from);
            let rest = opening_lines(list, from + 1);
            let others = git::entries_from(list, from + 1);
            assert forall|k: int| 0 <= k < opened.len() implies says(
                list,
                #[trigger] opened[k],
                found[k],
            ) by {
                if k > 0 {
                    assert(opened[k] == rest[k - 1]);
                    assert(found[k] == others[k - 1]);
                }
            }
        }
    }
}

/// Each entry is what its lines say.
pub open spec fn all_say(
    list: Seq<Seq<char>>,
    opened: Seq<int>,
    entries: Seq<EntryView>,
) -> bool {
    &&& entries.len() == opened.len()
    &&& forall|k: int|
        0 <= k < opened.len() ==> says(list, #[trigger] opened[k], entries[k])
}

/// The worktrees of a list are those that its lines open, one for each and in order, and
/// each is what its lines say, whatever other lines there are.
pub proof fn lists_are_read_line_by_line(output: Seq<char>)
    ensures
        all_say(
            text::lines(output),
            opening_lines(text::lines(output), 0),
            git::listed_entries(output),
        ),
{
    lemma_entries_say(text::lines(output), 0);
}

}
