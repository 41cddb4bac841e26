//! The line scanner: a state machine that is fed the lines of a document one
//! by one, hands out each complete armored message, and takes the plaintext
//! that is to stand in its place.

use vstd::prelude::*;
use crate::lines::{join_lines, joined, lines_of, split_lines, views};
use crate::marker::{
    is_begin_marker_line,
    is_end_marker_line,
    range_spells,
    BEGIN_MARKER,
    END_MARKER,
};
use crate::text::{chars_of, indent_of, string_of_range, trim, trim_bounds, trimmed};

verus! {

/// What the scanner knows at a point between two lines.
pub struct ScanState {
    /// The lines of the output so far.
    pub output: Seq<Seq<char>>,
    /// The lines of the message that is being collected, if one is open.
    pub block: Option<Seq<Seq<char>>>,
    /// The indentation of the begin marker of the message last opened, until
    /// a plaintext has been put in its place.
    pub indent: Seq<char>,
}

/// The state before the first line: no output, no open message.
pub open spec fn initial() -> ScanState {
    ScanState { output: Seq::empty(), block: None, indent: Seq::empty() }
}

/// The message that `line` completes in state `s`: the collected lines and
/// the end marker, joined. Only an end marker completes one, and only while
/// a message is open.
pub open spec fn completed_block(s: ScanState, line: Seq<char>) -> Option<Seq<char>> {
    match s.block {
        Some(collected) => if is_end_marker_line(line) {
            Some(joined(collected.push(trimmed(line))))
        } else {
            None
        },
        None => None,
    }
}

/// The state that follows `s` once `line` has been fed.
///
/// With no message open, a begin marker opens one and gives it its
/// indentation; any other line, an end marker too, goes to the output as it
/// is. With a message open, an end marker closes it; any other line, a begin
/// marker too, is collected without the whitespace around it.
pub open spec fn after_line(s: ScanState, line: Seq<char>) -> ScanState {
    match s.block {
        None => if is_begin_marker_line(line) {
            ScanState {
                output: s.output,
                block: Some(seq![trimmed(line)]),
                indent: indent_of(line),
            }
        } else {
            ScanState { output: s.output.push(line), block: None, indent: s.indent }
        },
        Some(collected) => if is_end_marker_line(line) {
            ScanState { output: s.output, block: None, indent: s.indent }
        } else {
            ScanState {
                output: s.output,
                block: Some(collected.push(trimmed(line))),
                indent: s.indent,
            }
        },
    }
}

/// The lines that stand for a decrypted message: the lines of `plaintext`
/// without the whitespace around the whole of it, each behind `indent`.
pub open spec fn indented(indent: Seq<char>, plaintext: Seq<char>) -> Seq<Seq<char>> {
    let lines = lines_of(trimmed(plaintext));
    Seq::new(lines.len(), |i: int| indent + lines[i])
}

/// The state that follows `s` once `plaintext` has been put in the place of
/// the message last completed: its indented lines go to the output, and the
/// indentation is forgotten.
pub open spec fn after_plaintext(s: ScanState, plaintext: Seq<char>) -> ScanState {
    ScanState {
        output: s.output + indented(s.indent, plaintext),
        block: s.block,
        indent: Seq::empty(),
    }
}

/// The scanner. It holds the output so far, the message that is being
/// collected, and the indentation of its begin marker.
pub struct Scanner {
    output: Vec<String>,
    block: Option<Vec<String>>,
    indent: String,
}

impl View for Scanner {
    type V = ScanState;

    closed spec fn view(&self) -> ScanState {
        ScanState {
            output: views(self.output@),
            block: match self.block {
                Some(collected) => Some(views(collected@)),
                None => None,
            },
            indent: self.indent@,
        }
    }
}

impl Scanner {
    /// A scanner that has seen no line yet.
    pub fn new() -> (scanner: Scanner)
        ensures
            scanner@ == initial(),
    {
        let scanner = Scanner { output: Vec::new(), block: None, indent: String::new() };
        assert(views(scanner.output@) == Seq::<Seq<char>>::empty());
        scanner
    }

    /// Tells whether a message is open.
    pub fn is_collecting(&self) -> (r: bool)
        ensures
            r == self@.block is Some,
    {
        self.block.is_some()
    }

    /// The indentation of the begin marker of the message last opened; empty
    /// once its plaintext has been put in place.
    pub fn indent(&self) -> (r: String)
        ensures
            r@ == self@.indent,
    {
        self.indent.clone()
    }

    /// The number of lines that the output holds so far.
    pub fn line_count(&self) -> (n: usize)
        ensures
            n == self@.output.len(),
    {
        self.output.len()
    }

    /// Feeds the next line of the document. Where the line completes a
    /// message, the message's text is handed back; it is to be decrypted and
    /// the plaintext given to `substitute` before the next line is fed.
    pub fn feed_line(&mut self, line: &str) -> (request: Option<String>)
        ensures
            final(self)@ == after_line(old(self)@, line@),
            match request {
                Some(text) => completed_block(old(self)@, line@) == Some(text@),
                None => completed_block(old(self)@, line@) is None,
            },
    {
        let v = chars_of(line);
        let (start, end) = trim_bounds(&v);
        let ghost before = self@;
        match self.block.take() {
            None => {
                if range_spells(&v, start, end, BEGIN_MARKER) {
                    let mut collected: Vec<String> = Vec::new();
                    collected.push(string_of_range(&v, start, end));
                    self.block = Some(collected);
                    self.indent = string_of_range(&v, 0, start);
                    assert(views(collected@) == seq![trimmed(line@)]);
                } else {
                    self.output.push(string_of_range(&v, 0, v.len()));
                    assert(v@.subrange(0, v.len() as int) == line@);
                    assert(views(self.output@) == before.output.push(line@));
                }
                None
            },
            Some(mut collected) => {
                let ghost lines = views(collected@);
                collected.push(string_of_range(&v, start, end));
                assert(views(collected@) == lines.push(trimmed(line@)));
                if range_spells(&v, start, end, END_MARKER) {
                    Some(join_lines(&collected))
                } else {
                    self.block = Some(collected);
                    None
                }
            },
        }
    }

    /// Puts `plaintext` in the place of the message last completed: each of
    /// its lines goes to the output behind the indentation of the message's
    /// begin marker.
    pub fn substitute(&mut self, plaintext: &str)
        ensures
            final(self)@ == after_plaintext(old(self)@, plaintext@),
    {
        let stripped = trim(plaintext);
        let lines = split_lines(stripped.as_str());
        let ghost before = self@;
        let mut i: usize = 0;
        while i < lines.len()
            invariant
                i <= lines.len(),
                views(lines@) == lines_of(trimmed(plaintext@)),
                self.indent@ == before.indent,
                self.block == old(self).block,
                views(self.output@) == before.output + indented(before.indent, plaintext@).take(
                    i as int,
                ),
            decreases lines.len() - i,
        {
            let mut entry = self.indent.clone();
            entry.append(lines[i].as_str());
            self.output.push(entry);
            proof {
                let all = indented(before.indent, plaintext@);
                assert(before.output + all.take(i + 1) == (before.output + all.take(i as int)).push(
                    all[i as int],
                ));
            }
            i += 1;
        }
        proof {
            let all = indented(before.indent, plaintext@);
            assert(all.take(i as int) == all);
        }
        self.indent = String::new();
    }

    /// The document as it stands: the output lines, joined. A message that
    /// is still open is left out.
    pub fn finish(self) -> (text: String)
        ensures
            text@ == joined(self@.output),
    {
        join_lines(&self.output)
    }
}

} // verus!
