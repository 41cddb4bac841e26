//! A document as a sequence of lines: how a text is split into lines and how
//! lines are joined into a text again.

use vstd::prelude::*;
use crate::text::{chars_of, string_of_range};

verus! {

/// The views of the strings of `lines`, in order.
pub open spec fn views(lines: Seq<String>) -> Seq<Seq<char>> {
    Seq::new(lines.len(), |i: int| lines[i]@)
}

/// The number of characters before the first line feed of `text`, or the
/// length of `text` where it holds none.
pub open spec fn line_end(text: Seq<char>) -> nat
    decreases text.len(),
{
    if text.len() == 0 || text[0] == '\n' {
        0
    } else {
        1 + line_end(text.drop_first())
    }
}

/// `line` without the carriage return at its end, if it has one.
pub open spec fn without_carriage_return(line: Seq<char>) -> Seq<char> {
    if line.len() > 0 && line.last() == '\r' {
        line.drop_last()
    } else {
        line
    }
}

/// The lines of `text`. A line ends at a line feed, or at a carriage return
/// directly followed by one; neither belongs to the line. What follows the
/// last line feed is a line too, unless it is empty.
pub open spec fn lines_of(text: Seq<char>) -> Seq<Seq<char>>
    decreases text.len(),
{
    if text.len() == 0 {
        Seq::empty()
    } else {
        let n = line_end(text);
        if n >= text.len() {
            seq![text]
        } else {
            seq![without_carriage_return(text.take(n as int))] + lines_of(text.skip(n as int + 1))
        }
    }
}

/// The text made of `lines` with one line feed between each two neighbours,
/// and none after the last.
pub open spec fn joined(lines: Seq<Seq<char>>) -> Seq<char>
    decreases lines.len(),
{
    if lines.len() == 0 {
        Seq::empty()
    } else if lines.len() == 1 {
        lines[0]
    } else {
        joined(lines.drop_last()) + seq!['\n'] + lines.last()
    }
}

/// Joining and splitting again gives `text` back: it does not end in a line
/// feed, and no carriage return stands directly before a line feed.
pub open spec fn survives_splitting(text: Seq<char>) -> bool {
    &&& text.len() > 0 ==> text.last() != '\n'
    &&& forall|i: int| 0 < i < text.len() && text[i] == '\n' ==> #[trigger] text[i - 1] != '\r'
}

/// `line_end` stops at the first line feed.
pub proof fn lemma_line_end(text: Seq<char>)
    ensures
        line_end(text) <= text.len(),
        line_end(text) < text.len() ==> text[line_end(text) as int] == '\n',
        forall|j: int| 0 <= j < line_end(text) ==> #[trigger] text[j] != '\n',
    decreases text.len(),
{
    if !(text.len() == 0 || text[0] == '\n') {
        let rest = text.drop_first();
        lemma_line_end(rest);
        assert forall|j: int| 0 <= j < line_end(text) implies #[trigger] text[j] != '\n' by {
            if j > 0 {
                assert(text[j] == rest[j - 1]);
            }
        }
    }
}

/// A position `n` that no line feed precedes, and that holds one or is the
/// end of `text`, is where the first line of `text` ends.
pub proof fn lemma_line_end_is(text: Seq<char>, n: int)
    requires
        0 <= n <= text.len(),
        forall|j: int| 0 <= j < n ==> #[trigger] text[j] != '\n',
        n == text.len() || text[n] == '\n',
    ensures
        line_end(text) == n,
    decreases n,
{
    if n > 0 {
        let rest = text.drop_first();
        assert forall|j: int| 0 <= j < n - 1 implies #[trigger] rest[j] != '\n' by {}
        lemma_line_end_is(rest, n - 1);
    }
}

/// A text that is not empty has at least one line.
pub proof fn lemma_lines_of_nonempty(text: Seq<char>)
    requires
        text.len() > 0,
    ensures
        lines_of(text).len() > 0,
{
    lemma_line_end(text);
}

/// Joining a first line with further lines puts a line feed between them.
pub proof fn lemma_joined_prepend(first: Seq<char>, rest: Seq<Seq<char>>)
    requires
        rest.len() > 0,
    ensures
        joined(seq![first] + rest) == first + seq!['\n'] + joined(rest),
    decreases rest.len(),
{
    let all = seq![first] + rest;
    assert(all.drop_last() == seq![first] + rest.drop_last());
    if rest.len() == 1 {
        assert(joined(all.drop_last()) == first);
    } else {
        lemma_joined_prepend(first, rest.drop_last());
    }
}

/// Splitting a text into lines and joining them gives the text back, where
/// no line ending is lost on the way.
pub proof fn lemma_join_split(text: Seq<char>)
    requires
        survives_splitting(text),
    ensures
        joined(lines_of(text)) == text,
    decreases text.len(),
{
    if text.len() > 0 {
        lemma_line_end(text);
        let n = line_end(text) as int;
        if n < text.len() {
            let first = text.take(n);
            let rest = text.skip(n + 1);
            assert forall|i: int| 0 < i < rest.len() && rest[i] == '\n' implies #[trigger] rest[i
                - 1] != '\r' by {
                assert(rest[i - 1] == text[(i + n + 1) - 1]);
            }
            lemma_join_split(rest);
            lemma_lines_of_nonempty(rest);
            lemma_joined_prepend(first, lines_of(rest));
        }
    }
}

/// Joining the lines of a text never gives more than the text, and gives
/// less where a line ending is lost.
pub proof fn lemma_join_split_length(text: Seq<char>)
    ensures
        joined(lines_of(text)).len() <= text.len(),
        !survives_splitting(text) ==> joined(lines_of(text)).len() < text.len(),
    decreases text.len(),
{
    if text.len() > 0 {
        lemma_line_end(text);
        let n = line_end(text) as int;
        if n < text.len() {
            let first = without_carriage_return(text.take(n));
            let rest = text.skip(n + 1);
            lemma_join_split_length(rest);
            if rest.len() > 0 {
                lemma_lines_of_nonempty(rest);
                lemma_joined_prepend(first, lines_of(rest));
                if survives_splitting(rest) && first.len() == n {
                    assert forall|i: int|
                        0 < i < text.len() && text[i] == '\n' implies #[trigger] text[i - 1]
                        != '\r' by {
                        if i > n + 1 {
                            assert(rest[(i - n - 1) - 1] == text[i - 1]);
                        }
                    }
                }
            }
        } else {
            assert forall|i: int| 0 < i < text.len() implies text[i] != '\n' by {}
        }
    }
}

/// Splitting and joining gives a text back if and only if no line ending is
/// lost on the way.
pub proof fn lemma_join_split_iff(text: Seq<char>)
    ensures
        joined(lines_of(text)) == text <==> survives_splitting(text),
{
    lemma_join_split_length(text);
    if survives_splitting(text) {
        lemma_join_split(text);
    }
}

/// Splitting the joined text gives `lines` back: no line holds a line feed,
/// none but the last ends in a carriage return, and the last is not empty.
pub open spec fn survives_joining(lines: Seq<Seq<char>>) -> bool {
    &&& forall|i: int, j: int|
        0 <= i < lines.len() && 0 <= j < lines[i].len() ==> #[trigger] lines[i][j] != '\n'
    &&& forall|i: int|
        0 <= i < lines.len() - 1 ==> #[trigger] without_carriage_return(lines[i]) == lines[i]
    &&& lines.len() > 0 ==> lines.last().len() > 0
}

/// Joining lines into a text and splitting it gives the lines back, where
/// no line can be taken for more or less than one line.
pub proof fn lemma_split_join(lines: Seq<Seq<char>>)
    requires
        survives_joining(lines),
    ensures
        lines_of(joined(lines)) == lines,
    decreases lines.len(),
{
    if lines.len() == 1 {
        let only = lines[0];
        assert forall|j: int| 0 <= j < only.len() implies #[trigger] only[j] != '\n' by {}
        lemma_line_end_is(only, only.len() as int);
    } else if lines.len() > 1 {
        let first = lines[0];
        let rest = lines.drop_first();
        assert(lines =~= seq![first] + rest);
        assert forall|i: int, j: int|
            0 <= i < rest.len() && 0 <= j < rest[i].len() implies #[trigger] rest[i][j]
            != '\n' by {}
        assert forall|i: int| 0 <= i < rest.len() - 1 implies #[trigger] without_carriage_return(
            rest[i],
        ) == rest[i] by {}
        lemma_split_join(rest);
        lemma_joined_prepend(first, rest);
        let text = joined(lines);
        assert forall|j: int| 0 <= j < first.len() implies #[trigger] text[j] != '\n' by {}
        lemma_line_end_is(text, first.len() as int);
        assert(text.take(first.len() as int) =~= first);
        assert(text.skip(first.len() as int + 1) =~= joined(rest));
    }
}

/// Splits `text` into its lines.
pub fn split_lines(text: &str) -> (lines: Vec<String>)
    ensures
        views(lines@) == lines_of(text@),
{
    let v = chars_of(text);
    let mut lines: Vec<String> = Vec::new();
    let mut pos: usize = 0;
    assert(v@.skip(0) == v@);
    while pos < v.len()
        invariant
            pos <= v.len(),
            lines_of(v@) == views(lines@) + lines_of(v@.skip(pos as int)),
        decreases v.len() - pos,
    {
        let mut end: usize = pos;
        while end < v.len() && v[end] != '\n'
            invariant
                pos <= end <= v.len(),
                forall|j: int| pos <= j < end ==> #[trigger] v@[j] != '\n',
            decreases v.len() - end,
        {
            end += 1;
        }
        let ghost rest = v@.skip(pos as int);
        proof {
            assert forall|j: int| 0 <= j < end - pos implies #[trigger] rest[j] != '\n' by {}
            lemma_line_end_is(rest, end - pos);
        }
        if end == v.len() {
            let line = string_of_range(&v, pos, end);
            lines.push(line);
            pos = end;
        } else {
            let stop: usize = if end > pos && v[end - 1] == '\r' {
                end - 1
            } else {
                end
            };
            let line = string_of_range(&v, pos, stop);
            lines.push(line);
            proof {
                let first = rest.take(end - pos);
                assert(without_carriage_return(first) == v@.subrange(pos as int, stop as int));
                assert(rest.skip(end - pos + 1) == v@.skip(end + 1));
            }
            pos = end + 1;
        }
    }
    lines
}

/// Joins `lines` into one text, with a line feed between each two
/// neighbours and none after the last.
pub fn join_lines(lines: &Vec<String>) -> (text: String)
    ensures
        text@ == joined(views(lines@)),
{
    let mut text = String::new();
    let mut i: usize = 0;
    while i < lines.len()
        invariant
            i <= lines.len(),
            text@ == joined(views(lines@).take(i as int)),
        decreases lines.len() - i,
    {
        proof {
            reveal_strlit("\n");
            let upto = views(lines@).take(i + 1);
            assert(upto.drop_last() == views(lines@).take(i as int));
        }
        if i > 0 {
            text.append("\n");
        }
        text.append(lines[i].as_str());
        i += 1;
    }
    assert(views(lines@).take(i as int) == views(lines@));
    text
}

} // verus!
