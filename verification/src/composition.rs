//! What holds of every run: how the run over a document is made of the runs
//! over its parts, and what that means for documents without messages, with
//! one message, and with a message that never ends.

use vstd::prelude::*;
use crate::document::{
    blocks_of,
    engine_gave,
    may_answer,
    run_outcome,
    lemma_trace_blocks,
    lemma_trace_plaintexts,
    rendered,
    trace,
    Trace,
};
use crate::lines::{
    joined,
    lemma_join_split_iff,
    lemma_split_join,
    lines_of,
    survives_joining,
    survives_splitting,
    views,
};
use crate::engine::Failure;
use crate::marker::{
    is_begin_marker_line,
    is_end_marker_line,
    lemma_markers_differ,
    lemma_padded_markers,
    BEGIN_MARKER,
    END_MARKER,
};
use crate::scanner::{after_line, completed_block, indented, initial, ScanState};
use crate::text::{indent_of, is_whitespace_char, lemma_trimmed_between_whitespace, trimmed};

verus! {

/// The state `s` with the lines `lead` before its output.
pub open spec fn behind(lead: Seq<Seq<char>>, s: ScanState) -> ScanState {
    ScanState { output: lead + s.output, block: s.block, indent: s.indent }
}

/// Each line of `lines` without the whitespace around it.
pub open spec fn trimmed_all(lines: Seq<Seq<char>>) -> Seq<Seq<char>> {
    Seq::new(lines.len(), |i: int| trimmed(lines[i]))
}

/// No line of `lines` opens a message.
pub open spec fn holds_no_begin_marker(lines: Seq<Seq<char>>) -> bool {
    forall|i: int| 0 <= i < lines.len() ==> !is_begin_marker_line(#[trigger] lines[i])
}

/// No line of `lines` closes a message.
pub open spec fn holds_no_end_marker(lines: Seq<Seq<char>>) -> bool {
    forall|i: int| 0 <= i < lines.len() ==> !is_end_marker_line(#[trigger] lines[i])
}

/// An end marker that meets no open message goes to the output like any
/// other line: nothing is completed, and the line is kept as it came.
pub proof fn lemma_orphan_end_marker(s: ScanState, line: Seq<char>)
    requires
        s.block is None,
        is_end_marker_line(line),
    ensures
        completed_block(s, line) is None,
        after_line(s, line) == (ScanState {
            output: s.output.push(line),
            block: None,
            indent: s.indent,
        }),
{
    lemma_markers_differ(line);
}

/// A begin marker that meets an open message is collected like any other
/// line of the message.
pub proof fn lemma_nested_begin_marker(s: ScanState, line: Seq<char>)
    requires
        s.block is Some,
        is_begin_marker_line(line),
    ensures
        completed_block(s, line) is None,
        after_line(s, line) == (ScanState {
            output: s.output,
            block: Some(s.block->0.push(trimmed(line))),
            indent: s.indent,
        }),
{
    lemma_markers_differ(line);
}

/// Every line that stands for a decrypted message starts with the
/// indentation, and goes on with the plaintext's line as it is.
pub proof fn lemma_indented_lines(indent: Seq<char>, plaintext: Seq<char>, i: int)
    requires
        0 <= i < indented(indent, plaintext).len(),
    ensures
        indented(indent, plaintext).len() == lines_of(trimmed(plaintext)).len(),
        indented(indent, plaintext)[i].take(indent.len() as int) == indent,
        indented(indent, plaintext)[i].skip(indent.len() as int) == lines_of(
            trimmed(plaintext),
        )[i],
{
}

/// With no message open and every completed message answered, no
/// indentation is kept.
pub proof fn lemma_idle_keeps_no_indent(lines: Seq<Seq<char>>, plaintexts: Seq<Seq<char>>)
    requires
        blocks_of(lines).len() <= plaintexts.len(),
        trace(lines, plaintexts).state.block is None,
    ensures
        trace(lines, plaintexts).state.indent == Seq::<char>::empty(),
    decreases lines.len(),
{
    if lines.len() > 0 {
        let shorter = lines.drop_last();
        lemma_trace_blocks(shorter, Seq::empty(), plaintexts);
        lemma_trace_blocks(lines, Seq::empty(), plaintexts);
        if trace(shorter, plaintexts).state.block is None {
            lemma_idle_keeps_no_indent(shorter, plaintexts);
        }
    }
}

/// The run over `first` followed by `second` is the run over `first`, then
/// the run over `second` on its own, where `first` leaves no message open and
/// `answers_first` holds one plaintext for each message of `first`.
pub proof fn lemma_trace_concat(
    first: Seq<Seq<char>>,
    second: Seq<Seq<char>>,
    answers_first: Seq<Seq<char>>,
    answers_second: Seq<Seq<char>>,
)
    requires
        trace(first, answers_first).state.block is None,
        answers_first.len() == blocks_of(first).len(),
    ensures
        trace(first + second, answers_first + answers_second) == (Trace {
            state: behind(
                trace(first, answers_first).state.output,
                trace(second, answers_second).state,
            ),
            blocks: blocks_of(first) + blocks_of(second),
        }),
    decreases second.len(),
{
    let answers = answers_first + answers_second;
    let n = blocks_of(first).len() as int;
    lemma_trace_blocks(first, Seq::empty(), answers_first);
    lemma_trace_blocks(second, Seq::empty(), answers_second);
    if second.len() == 0 {
        assert(answers.take(n) == answers_first.take(n));
        lemma_trace_plaintexts(first, answers, answers_first);
        lemma_idle_keeps_no_indent(first, answers_first);
    } else {
        let shorter = second.drop_last();
        assert((first + second).drop_last() == first + shorter);
        lemma_trace_concat(first, shorter, answers_first, answers_second);
        lemma_trace_blocks(shorter, Seq::empty(), answers_second);
        let lead = trace(first, answers_first).state.output;
        let alone = trace(shorter, answers_second);
        let k = alone.blocks.len() as int;
        if k < answers_second.len() {
            assert(lead + (alone.state.output + indented(alone.state.indent, answers_second[k]))
                == (lead + alone.state.output) + indented(alone.state.indent, answers_second[k]));
        }
    }
}

/// Lines of which none opens a message all go to the output as they are,
/// and nothing is handed to the engine.
pub proof fn lemma_trace_plain(lines: Seq<Seq<char>>, plaintexts: Seq<Seq<char>>)
    requires
        holds_no_begin_marker(lines),
    ensures
        trace(lines, plaintexts) == (Trace {
            state: ScanState { output: lines, block: None, indent: Seq::empty() },
            blocks: Seq::empty(),
        }),
    decreases lines.len(),
{
    if lines.len() > 0 {
        let shorter = lines.drop_last();
        assert forall|i: int| 0 <= i < shorter.len() implies !is_begin_marker_line(
            #[trigger] shorter[i],
        ) by {}
        lemma_trace_plain(shorter, plaintexts);
        assert(shorter.push(lines.last()) == lines);
    } else {
        assert(lines == Seq::<Seq<char>>::empty());
    }
}

/// A document that holds no begin marker asks nothing of the engine, and
/// comes out as it went in but for the line endings that splitting it into
/// lines loses: a line feed at the very end, and the carriage return before
/// a line feed.
pub proof fn lemma_plain_document_unchanged(text: Seq<char>, plaintexts: Seq<Seq<char>>)
    requires
        holds_no_begin_marker(lines_of(text)),
    ensures
        blocks_of(lines_of(text)).len() == 0,
        rendered(lines_of(text), plaintexts) == joined(lines_of(text)),
        survives_splitting(text) <==> rendered(lines_of(text), plaintexts) == text,
{
    lemma_trace_plain(lines_of(text), plaintexts);
    lemma_trace_plain(lines_of(text), Seq::empty());
    lemma_join_split_iff(text);
}

/// From a begin marker on, as long as no end marker comes, every line is
/// collected and none goes to the output.
pub proof fn lemma_trace_open(
    begin: Seq<char>,
    body: Seq<Seq<char>>,
    plaintexts: Seq<Seq<char>>,
)
    requires
        is_begin_marker_line(begin),
        holds_no_end_marker(body),
    ensures
        trace(seq![begin] + body, plaintexts) == (Trace {
            state: ScanState {
                output: Seq::empty(),
                block: Some(seq![trimmed(begin)] + trimmed_all(body)),
                indent: indent_of(begin),
            },
            blocks: Seq::empty(),
        }),
    decreases body.len(),
{
    let lines = seq![begin] + body;
    if body.len() == 0 {
        assert(trace(lines.drop_last(), plaintexts).state == initial());
    } else {
        let shorter = body.drop_last();
        assert forall|i: int| 0 <= i < shorter.len() implies !is_end_marker_line(
            #[trigger] shorter[i],
        ) by {}
        lemma_trace_open(begin, shorter, plaintexts);
        assert(lines.drop_last() == seq![begin] + shorter);
        assert((seq![trimmed(begin)] + trimmed_all(shorter)).push(trimmed(body.last())) == seq![
            trimmed(begin),
        ] + trimmed_all(body));
    }
}

/// A message that is opened and never closed leaves the document: what
/// follows its begin marker neither reaches the output nor the engine.
pub proof fn lemma_unterminated_block_dropped(
    head: Seq<Seq<char>>,
    begin: Seq<char>,
    rest: Seq<Seq<char>>,
    plaintexts: Seq<Seq<char>>,
)
    requires
        trace(head, plaintexts).state.block is None,
        plaintexts.len() == blocks_of(head).len(),
        is_begin_marker_line(begin),
        holds_no_end_marker(rest),
    ensures
        blocks_of(head + (seq![begin] + rest)) == blocks_of(head),
        rendered(head + (seq![begin] + rest), plaintexts) == rendered(head, plaintexts),
{
    let tail = seq![begin] + rest;
    lemma_trace_open(begin, rest, Seq::empty());
    lemma_trace_concat(head, tail, plaintexts, Seq::empty());
    lemma_trace_blocks(head + tail, Seq::empty(), plaintexts);
}

/// A message from its begin marker to its end marker: the engine is asked
/// for the trimmed lines, joined, and the lines of the plaintext take the
/// place of the whole, each behind the indentation of the begin marker.
pub proof fn lemma_trace_block(
    begin: Seq<char>,
    body: Seq<Seq<char>>,
    end: Seq<char>,
    plaintext: Seq<char>,
)
    requires
        is_begin_marker_line(begin),
        holds_no_end_marker(body),
        is_end_marker_line(end),
    ensures
        trace(seq![begin] + body + seq![end], seq![plaintext]) == (Trace {
            state: ScanState {
                output: indented(indent_of(begin), plaintext),
                block: None,
                indent: Seq::empty(),
            },
            blocks: seq![joined(seq![trimmed(begin)] + trimmed_all(body) + seq![trimmed(end)])],
        }),
{
    let lines = seq![begin] + body + seq![end];
    lemma_trace_open(begin, body, seq![plaintext]);
    assert(lines.drop_last() == seq![begin] + body);
    assert((seq![trimmed(begin)] + trimmed_all(body)).push(trimmed(end)) == seq![trimmed(begin)]
        + trimmed_all(body) + seq![trimmed(end)]);
}

/// A document with one message between lines that hold no begin marker: the
/// lines around the message stay as they are, and the indented plaintext
/// stands where the message stood.
pub proof fn lemma_single_block_document(
    before: Seq<Seq<char>>,
    begin: Seq<char>,
    body: Seq<Seq<char>>,
    end: Seq<char>,
    after: Seq<Seq<char>>,
    plaintext: Seq<char>,
)
    requires
        holds_no_begin_marker(before),
        is_begin_marker_line(begin),
        holds_no_end_marker(body),
        is_end_marker_line(end),
        holds_no_begin_marker(after),
    ensures
        blocks_of(before + (seq![begin] + body + seq![end]) + after) == seq![
            joined(seq![trimmed(begin)] + trimmed_all(body) + seq![trimmed(end)]),
        ],
        rendered(before + (seq![begin] + body + seq![end]) + after, seq![plaintext]) == joined(
            before + indented(indent_of(begin), plaintext) + after,
        ),
{
    let block = seq![begin] + body + seq![end];
    let none = Seq::<Seq<char>>::empty();
    let one = seq![plaintext];
    lemma_trace_plain(before, none);
    lemma_trace_block(begin, body, end, plaintext);
    lemma_trace_plain(after, none);
    lemma_trace_blocks(block, none, one);
    lemma_trace_concat(block, after, one, none);
    lemma_trace_blocks(block + after, none, one + none);
    lemma_trace_concat(before, block + after, none, one);
    assert(before + (block + after) == before + block + after);
    lemma_trace_blocks(before + block + after, none, one);
    assert(before + (indented(indent_of(begin), plaintext) + after) == before + indented(
        indent_of(begin),
        plaintext,
    ) + after);
}

/// Each line of `lines` behind `indent`.
pub open spec fn indented_all(indent: Seq<char>, lines: Seq<Seq<char>>) -> Seq<Seq<char>> {
    Seq::new(lines.len(), |i: int| indent + lines[i])
}

/// The round trip through the engine. An armored message stands in a
/// document, each of its lines behind the same indentation, between lines
/// that hold no begin marker. The engine unlocks it to the plaintext `p` and
/// a final line feed. Then the run gives the document with the lines of `p`,
/// each behind that indentation, where the message stood, and the lines
/// around it as they were.
pub proof fn lemma_round_trip<E: Fn(&str, &str) -> Result<String, Failure>>(
    engine: E,
    passphrase: &str,
    before: Seq<Seq<char>>,
    indent: Seq<char>,
    armor: Seq<Seq<char>>,
    after: Seq<Seq<char>>,
    p: Seq<char>,
    input_text: Seq<char>,
    result: Result<String, Failure>,
)
    requires
        holds_no_begin_marker(before),
        holds_no_begin_marker(after),
        forall|j: int| 0 <= j < indent.len() ==> is_whitespace_char(#[trigger] indent[j]),
        armor.len() >= 2,
        armor[0] == BEGIN_MARKER@,
        armor.last() == END_MARKER@,
        forall|i: int| 0 <= i < armor.len() ==> trimmed(#[trigger] armor[i]) == armor[i],
        forall|i: int| 0 < i < armor.len() - 1 ==> #[trigger] armor[i] != END_MARKER@,
        trimmed(p) == p,
        forall|text: &str, outcome: Result<String, Failure>|
            text@ == joined(armor) && #[trigger] engine.ensures((text, passphrase), outcome)
                ==> (match outcome {
                Ok(plaintext) => plaintext@ == p + seq!['\n'],
                Err(_) => false,
            }),
        input_text == joined(before + indented_all(indent, armor) + after),
        survives_joining(before + indented_all(indent, armor) + after),
        run_outcome(engine, passphrase, lines_of(input_text), result),
    ensures
        match result {
            Ok(document) => document@ == joined(
                before + indented_all(indent, lines_of(p)) + after,
            ),
            Err(_) => false,
        },
{
    let none = Seq::<char>::empty();
    let feed = seq!['\n'];
    let lines = before + indented_all(indent, armor) + after;
    let begin = indent + armor[0];
    let inner = armor.subrange(1, armor.len() - 1);
    let body = indented_all(indent, inner);
    let end = indent + armor.last();
    lemma_split_join(lines);
    assert(indented_all(indent, armor) =~= seq![begin] + body + seq![end]);
    lemma_padded_markers(indent, none);
    assert forall|i: int| 0 <= i < body.len() implies trimmed(#[trigger] body[i]) == inner[i] by {
        lemma_trimmed_between_whitespace(indent, inner[i], none);
    }
    assert forall|i: int| 0 <= i < body.len() implies !is_end_marker_line(#[trigger] body[i]) by {}
    assert(seq![trimmed(begin)] + trimmed_all(body) + seq![trimmed(end)] =~= armor);
    lemma_trimmed_between_whitespace(none, p, feed);
    lemma_single_block_document(before, begin, body, end, after, p + feed);
    match result {
        Ok(document) => {
            let plaintexts = choose|plaintexts: Seq<String>|
                {
                    &&& #[trigger] engine_gave(engine, passphrase, blocks_of(lines), plaintexts)
                    &&& plaintexts.len() == blocks_of(lines).len()
                    &&& document@ == rendered(lines, views(plaintexts))
                };
            assert(may_answer(engine, blocks_of(lines)[0], passphrase, Ok(plaintexts[0])));
            assert(views(plaintexts) =~= seq![p + feed]);
        },
        Err(failure) => {},
    }
}

} // verus!
