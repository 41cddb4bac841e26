//! The two marker lines that enclose an armored PGP message.

use vstd::prelude::*;
use crate::text::{chars_of, indent_of, is_whitespace_char, lemma_padded, trim_bounds, trimmed};

verus! {

/// The line that opens an armored message.
pub const BEGIN_MARKER: &'static str = "-----BEGIN PGP MESSAGE-----";

/// The line that closes an armored message.
pub const END_MARKER: &'static str = "-----END PGP MESSAGE-----";

/// `line` opens a message: without the whitespace around it, it is the begin
/// marker.
pub open spec fn is_begin_marker_line(line: Seq<char>) -> bool {
    trimmed(line) == BEGIN_MARKER@
}

/// `line` closes a message: without the whitespace around it, it is the end
/// marker.
pub open spec fn is_end_marker_line(line: Seq<char>) -> bool {
    trimmed(line) == END_MARKER@
}

/// No line is both a begin marker and an end marker.
pub proof fn lemma_markers_differ(line: Seq<char>)
    ensures
        !(is_begin_marker_line(line) && is_end_marker_line(line)),
{
    reveal_strlit("-----BEGIN PGP MESSAGE-----");
    reveal_strlit("-----END PGP MESSAGE-----");
    assert(BEGIN_MARKER@.len() != END_MARKER@.len());
}

/// A marker is recognised whatever whitespace stands before and after it,
/// and what stands before it is the line's indentation.
pub proof fn lemma_padded_markers(lead: Seq<char>, trail: Seq<char>)
    requires
        forall|j: int| 0 <= j < lead.len() ==> is_whitespace_char(#[trigger] lead[j]),
        forall|j: int| 0 <= j < trail.len() ==> is_whitespace_char(#[trigger] trail[j]),
    ensures
        is_begin_marker_line(lead + BEGIN_MARKER@ + trail),
        indent_of(lead + BEGIN_MARKER@ + trail) == lead,
        is_end_marker_line(lead + END_MARKER@ + trail),
        indent_of(lead + END_MARKER@ + trail) == lead,
{
    reveal_strlit("-----BEGIN PGP MESSAGE-----");
    reveal_strlit("-----END PGP MESSAGE-----");
    lemma_padded(lead, BEGIN_MARKER@, trail);
    lemma_padded(lead, END_MARKER@, trail);
}

/// Tells whether the characters of `v` from `from` up to `to` spell `word`.
pub(crate) fn range_spells(v: &Vec<char>, from: usize, to: usize, word: &str) -> (r: bool)
    requires
        from <= to <= v.len(),
    ensures
        r == (v@.subrange(from as int, to as int) == word@),
{
    let w = chars_of(word);
    if w.len() != to - from {
        return false;
    }
    let mut i: usize = 0;
    while i < w.len()
        invariant
            from <= to <= v.len(),
            w@ == word@,
            w.len() == to - from,
            i <= w.len(),
            forall|j: int| 0 <= j < i ==> v@[from + j] == #[trigger] w@[j],
        decreases w.len() - i,
    {
        if v[from + i] != w[i] {
            return false;
        }
        i += 1;
    }
    assert(v@.subrange(from as int, to as int) =~= w@);
    true
}

/// Tells whether `line` opens a message.
pub fn is_begin_marker(line: &str) -> (r: bool)
    ensures
        r == is_begin_marker_line(line@),
{
    let v = chars_of(line);
    let (start, end) = trim_bounds(&v);
    range_spells(&v, start, end, BEGIN_MARKER)
}

/// Tells whether `line` closes a message.
pub fn is_end_marker(line: &str) -> (r: bool)
    ensures
        r == is_end_marker_line(line@),
{
    let v = chars_of(line);
    let (start, end) = trim_bounds(&v);
    range_spells(&v, start, end, END_MARKER)
}

} // verus!
