//! Text handling: appending to strings, splitting a text into lines and
//! taking the prefixes of a line that the typing effect shows.

use vstd::prelude::*;
use vstd::string::*;

verus! {

/// `String::push` appends exactly the given character to the string.
pub assume_specification[ String::push ](s: &mut String, ch: char)
    ensures
        final(s)@ == old(s)@.push(ch),
;

/// A line without the carriage return that may precede its line feed.
pub open spec fn strip_cr(line: Seq<char>) -> Seq<char> {
    if line.len() > 0 && line.last() == '\r' {
        line.drop_last()
    } else {
        line
    }
}

/// The lines of `piece + rest`, where `piece` is the beginning of a line.
pub open spec fn lines_from(rest: Seq<char>, piece: Seq<char>) -> Seq<Seq<char>>
    decreases rest.len(),
{
    if rest.len() == 0 {
        if piece.len() == 0 {
            Seq::empty()
        } else {
            seq![piece]
        }
    } else if rest[0] == '\n' {
        seq![strip_cr(piece)] + lines_from(rest.skip(1), Seq::empty())
    } else {
        lines_from(rest.skip(1), piece.push(rest[0]))
    }
}

/// The lines of a text. A line ends at a line feed, or at the end of the
/// text; a last line that would be empty does not count. The line feed is not
/// part of the line, nor is a carriage return directly before it.
pub open spec fn lines_of(text: Seq<char>) -> Seq<Seq<char>> {
    lines_from(text, Seq::empty())
}

/// A text that runs on one line: it holds no line feed.
pub open spec fn single_line(text: Seq<char>) -> bool {
    forall|i: int| 0 <= i < text.len() ==> text[i] != '\n'
}

/// The character sequences that a vector of strings holds.
pub open spec fn views(lines: Seq<String>) -> Seq<Seq<char>> {
    Seq::new(lines.len(), |i: int| lines[i]@)
}

/// Splits a text into its lines.
pub fn split_lines(text: &str) -> (lines: Vec<String>)
    ensures
        views(lines@) == lines_of(text@),
        forall|j: int| 0 <= j < lines.len() ==> single_line(#[trigger] lines[j]@),
{
    let mut lines: Vec<String> = Vec::new();
    let mut current = String::new();
    proof {
        assert(text@.skip(0) == text@);
    }
    for c in it: text.chars()
        invariant
            it.seq() == text@,
            lines_of(text@) == views(lines@) + lines_from(text@.skip(it.index() as int), current@),
    {
        assert(text@.skip(it.index() as int).skip(1) == text@.skip(it.index() + 1));
        if c == '\n' {
            let line = without_cr(current);
            lines.push(line);
            current = String::new();
        } else {
            current.push(c);
        }
    }
    if !current.as_str().is_empty() {
        lines.push(current);
    }
    proof {
        lemma_lines_are_single(text@);
        assert forall|j: int| 0 <= j < lines.len() implies single_line(#[trigger] lines[j]@) by {
            assert(single_line(lines_of(text@)[j]));
        }
    }
    lines
}

/// Takes the first `k` characters of a line.
pub fn prefix(line: &str, k: usize) -> (chunk: String)
    requires
        k <= line@.len(),
    ensures
        chunk@ == line@.take(k as int),
{
    line.substring_char(0, k).to_owned()
}

/// A text without a line feed is its own single line, unless it is empty:
/// then it has no line.
pub proof fn lemma_lines_of_single_line(text: Seq<char>)
    requires
        single_line(text),
    ensures
        lines_of(text) == if text.len() == 0 {
            Seq::<Seq<char>>::empty()
        } else {
            seq![text]
        },
{
    lemma_lines_from_start(text, Seq::empty(), Seq::empty());
}

/// A text gives its first line, up to its first line feed and without the
/// carriage return before it, and then the lines of what follows that line
/// feed.
pub proof fn lemma_lines_of_first_line(head: Seq<char>, tail: Seq<char>)
    requires
        single_line(head),
    ensures
        lines_of(head + seq!['\n'] + tail) == seq![strip_cr(head)] + lines_of(tail),
{
    let rest = seq!['\n'] + tail;
    lemma_lines_from_start(head, rest, Seq::empty());
    assert(head + rest == head + seq!['\n'] + tail);
    assert(rest.skip(1) == tail);
}

/// Characters before the first line feed go to the line that is being read.
proof fn lemma_lines_from_start(head: Seq<char>, rest: Seq<char>, piece: Seq<char>)
    requires
        single_line(head),
    ensures
        lines_from(head + rest, piece) == lines_from(rest, piece + head),
    decreases head.len(),
{
    if head.len() > 0 {
        let whole = head + rest;
        assert(whole.skip(1) == head.skip(1) + rest);
        assert(piece.push(head[0]) + head.skip(1) == piece + head);
        lemma_lines_from_start(head.skip(1), rest, piece.push(head[0]));
    }
}

/// Every line of a text runs on one line.
pub proof fn lemma_lines_are_single(text: Seq<char>)
    ensures
        forall|j: int| 0 <= j < lines_of(text).len() ==> single_line(#[trigger] lines_of(text)[j]),
{
    lemma_lines_from_are_single(text, Seq::empty());
}

proof fn lemma_lines_from_are_single(rest: Seq<char>, piece: Seq<char>)
    requires
        single_line(piece),
    ensures
        forall|j: int|
            0 <= j < lines_from(rest, piece).len() ==> single_line(
                #[trigger] lines_from(rest, piece)[j],
            ),
    decreases rest.len(),
{
    let lines = lines_from(rest, piece);
    if rest.len() == 0 {
        assert forall|j: int| 0 <= j < lines.len() implies single_line(#[trigger] lines[j]) by {
            assert(lines[j] == piece);
        }
    } else if rest[0] == '\n' {
        let tail = lines_from(rest.skip(1), Seq::empty());
        lemma_lines_from_are_single(rest.skip(1), Seq::empty());
        assert forall|j: int| 0 <= j < lines.len() implies single_line(#[trigger] lines[j]) by {
            if j > 0 {
                assert(lines[j] == tail[j - 1]);
            }
        }
    } else {
        lemma_lines_from_are_single(rest.skip(1), piece.push(rest[0]));
        assert(lines == lines_from(rest.skip(1), piece.push(rest[0])));
    }
}

/// Drops the carriage return at the end of a line, if there is one.
fn without_cr(line: String) -> (stripped: String)
    ensures
        stripped@ == strip_cr(line@),
{
    let n = line.as_str().unicode_len();
    if n > 0 && line.as_str().get_char(n - 1) == '\r' {
        line.as_str().substring_char(0, n - 1).to_owned()
    } else {
        line
    }
}

} // verus!
