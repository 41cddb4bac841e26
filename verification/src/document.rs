//! A whole document: the run of the scanner over its lines, with the
//! decryption engine called for each message on the way.

use vstd::prelude::*;
use crate::engine::Failure;
use crate::lines::{joined, lines_of, split_lines, views};
use crate::scanner::{after_line, after_plaintext, completed_block, initial, ScanState, Scanner};

verus! {

/// Where a run over some lines has come to: the scanner's state, and the
/// messages completed on the way, in order.
pub struct Trace {
    pub state: ScanState,
    pub blocks: Seq<Seq<char>>,
}

/// The run of the scanner over `lines` from the initial state, where the
/// plaintext put in the place of the message completed as number `k` is
/// `plaintexts[k]`. A message for which `plaintexts` holds nothing is left
/// without a substitute.
pub open spec fn trace(lines: Seq<Seq<char>>, plaintexts: Seq<Seq<char>>) -> Trace
    decreases lines.len(),
{
    if lines.len() == 0 {
        Trace { state: initial(), blocks: Seq::empty() }
    } else {
        let before = trace(lines.drop_last(), plaintexts);
        let line = lines.last();
        let fed = after_line(before.state, line);
        match completed_block(before.state, line) {
            Some(text) => Trace {
                state: if before.blocks.len() < plaintexts.len() {
                    after_plaintext(fed, plaintexts[before.blocks.len() as int])
                } else {
                    fed
                },
                blocks: before.blocks.push(text),
            },
            None => Trace { state: fed, blocks: before.blocks },
        }
    }
}

/// The messages of a document with the lines `lines`, in order: each is what
/// the engine is asked to decrypt.
pub open spec fn blocks_of(lines: Seq<Seq<char>>) -> Seq<Seq<char>> {
    trace(lines, Seq::empty()).blocks
}

/// The document that comes of `lines` with `plaintexts` in the place of its
/// messages.
pub open spec fn rendered(lines: Seq<Seq<char>>, plaintexts: Seq<Seq<char>>) -> Seq<char> {
    joined(trace(lines, plaintexts).state.output)
}

/// `engine` can end a call on the message `block_text` with `outcome`.
pub open spec fn may_answer<E: Fn(&str, &str) -> Result<String, Failure>>(
    engine: E,
    block_text: Seq<char>,
    passphrase: &str,
    outcome: Result<String, Failure>,
) -> bool {
    exists|text: &str| text@ == block_text && engine.ensures((text, passphrase), outcome)
}

/// `plaintexts` are answers of `engine` to the first messages of `blocks`,
/// one for each in order.
pub open spec fn engine_gave<E: Fn(&str, &str) -> Result<String, Failure>>(
    engine: E,
    passphrase: &str,
    blocks: Seq<Seq<char>>,
    plaintexts: Seq<String>,
) -> bool {
    &&& plaintexts.len() <= blocks.len()
    &&& forall|k: int|
        0 <= k < plaintexts.len() ==> may_answer(
            engine,
            #[trigger] blocks[k],
            passphrase,
            Ok(plaintexts[k]),
        )
}

/// Where every plaintext that `engine` can give for a message is `answer`
/// of that message, the plaintexts it gave are the answers to the messages.
pub proof fn lemma_engine_gave_answers<E: Fn(&str, &str) -> Result<String, Failure>>(
    engine: E,
    passphrase: &str,
    blocks: Seq<Seq<char>>,
    plaintexts: Seq<String>,
    answer: spec_fn(Seq<char>) -> Seq<char>,
)
    requires
        engine_gave(engine, passphrase, blocks, plaintexts),
        forall|text: &str, plaintext: String| #[trigger]
            engine.ensures((text, passphrase), Ok(plaintext)) ==> plaintext@ == answer(text@),
    ensures
        views(plaintexts) == Seq::new(plaintexts.len(), |k: int| answer(blocks[k])),
{
    assert forall|k: int| 0 <= k < plaintexts.len() implies plaintexts[k]@ == answer(
        blocks[k],
    ) by {}
}

/// Which messages are completed, and which one is open, does not depend on
/// the plaintexts.
pub proof fn lemma_trace_blocks(lines: Seq<Seq<char>>, p: Seq<Seq<char>>, q: Seq<Seq<char>>)
    ensures
        trace(lines, p).blocks == trace(lines, q).blocks,
        trace(lines, p).state.block == trace(lines, q).state.block,
    decreases lines.len(),
{
    if lines.len() > 0 {
        lemma_trace_blocks(lines.drop_last(), p, q);
    }
}

/// A run depends on the plaintexts of the messages it completes, and on no
/// others.
pub proof fn lemma_trace_plaintexts(lines: Seq<Seq<char>>, p: Seq<Seq<char>>, q: Seq<Seq<char>>)
    requires
        blocks_of(lines).len() <= p.len(),
        blocks_of(lines).len() <= q.len(),
        p.take(blocks_of(lines).len() as int) == q.take(blocks_of(lines).len() as int),
    ensures
        trace(lines, p) == trace(lines, q),
    decreases lines.len(),
{
    if lines.len() > 0 {
        let n = blocks_of(lines).len() as int;
        let shorter = lines.drop_last();
        let m = blocks_of(shorter).len() as int;
        lemma_trace_blocks(shorter, Seq::empty(), p);
        lemma_trace_blocks(shorter, Seq::empty(), q);
        assert(p.take(m) == p.take(n).take(m));
        assert(q.take(m) == q.take(n).take(m));
        lemma_trace_plaintexts(shorter, p, q);
        if m < n {
            assert(q[m] == q.take(n)[m]);
        }
    }
}

/// The messages of the first `i` lines are the first messages of the whole.
pub proof fn lemma_blocks_prefix(lines: Seq<Seq<char>>, i: int)
    requires
        0 <= i <= lines.len(),
    ensures
        blocks_of(lines.take(i)).len() <= blocks_of(lines).len(),
        blocks_of(lines.take(i)) == blocks_of(lines).take(blocks_of(lines.take(i)).len() as int),
    decreases lines.len(),
{
    if i == lines.len() {
        assert(lines.take(i) == lines);
    } else {
        let shorter = lines.drop_last();
        assert(shorter.take(i) == lines.take(i));
        lemma_blocks_prefix(shorter, i);
    }
}

/// `result` is an outcome of the run over `lines` with `engine`: either the
/// engine answered every message and `result` is the document rendered with
/// its answers, or it answered some first messages, failed on the next, and
/// `result` is that failure.
pub open spec fn run_outcome<E: Fn(&str, &str) -> Result<String, Failure>>(
    engine: E,
    passphrase: &str,
    lines: Seq<Seq<char>>,
    result: Result<String, Failure>,
) -> bool {
    match result {
        Ok(document) => exists|plaintexts: Seq<String>|
            {
                &&& #[trigger] engine_gave(engine, passphrase, blocks_of(lines), plaintexts)
                &&& plaintexts.len() == blocks_of(lines).len()
                &&& document@ == rendered(lines, views(plaintexts))
            },
        Err(failure) => exists|plaintexts: Seq<String>|
            {
                &&& #[trigger] engine_gave(engine, passphrase, blocks_of(lines), plaintexts)
                &&& plaintexts.len() < blocks_of(lines).len()
                &&& may_answer(
                    engine,
                    blocks_of(lines)[plaintexts.len() as int],
                    passphrase,
                    Err(failure),
                )
            },
    }
}

/// With an engine that never fails and gives for every message the
/// plaintext `answer` of it, a run ends with the document rendered with
/// these answers.
pub proof fn lemma_run_with_answers<E: Fn(&str, &str) -> Result<String, Failure>>(
    engine: E,
    passphrase: &str,
    lines: Seq<Seq<char>>,
    result: Result<String, Failure>,
    answer: spec_fn(Seq<char>) -> Seq<char>,
)
    requires
        run_outcome(engine, passphrase, lines, result),
        forall|text: &str, outcome: Result<String, Failure>| #[trigger]
            engine.ensures((text, passphrase), outcome) ==> (match outcome {
                Ok(plaintext) => plaintext@ == answer(text@),
                Err(_) => false,
            }),
    ensures
        match result {
            Ok(document) => document@ == rendered(
                lines,
                Seq::new(blocks_of(lines).len(), |k: int| answer(blocks_of(lines)[k])),
            ),
            Err(_) => false,
        },
{
    match result {
        Ok(document) => {
            let plaintexts = choose|plaintexts: Seq<String>|
                {
                    &&& #[trigger] engine_gave(engine, passphrase, blocks_of(lines), plaintexts)
                    &&& plaintexts.len() == blocks_of(lines).len()
                    &&& document@ == rendered(lines, views(plaintexts))
                };
            lemma_engine_gave_answers(engine, passphrase, blocks_of(lines), plaintexts, answer);
        },
        Err(failure) => {},
    }
}

/// With an engine that fails on every message, a run over a document that
/// holds a message ends with a failure of the engine on the first message.
pub proof fn lemma_run_with_failures<E: Fn(&str, &str) -> Result<String, Failure>>(
    engine: E,
    passphrase: &str,
    lines: Seq<Seq<char>>,
    result: Result<String, Failure>,
)
    requires
        run_outcome(engine, passphrase, lines, result),
        blocks_of(lines).len() > 0,
        forall|text: &str, outcome: Result<String, Failure>| #[trigger]
            engine.ensures((text, passphrase), outcome) ==> outcome is Err,
    ensures
        result is Err,
        may_answer(engine, blocks_of(lines)[0], passphrase, result),
{
    match result {
        Ok(document) => {
            let plaintexts = choose|plaintexts: Seq<String>|
                {
                    &&& #[trigger] engine_gave(engine, passphrase, blocks_of(lines), plaintexts)
                    &&& plaintexts.len() == blocks_of(lines).len()
                    &&& document@ == rendered(lines, views(plaintexts))
                };
            assert(may_answer(engine, blocks_of(lines)[0], passphrase, Ok(plaintexts[0])));
        },
        Err(failure) => {},
    }
}

/// Decrypts the messages embedded in `input_text` and gives the document
/// with each plaintext in the place of its message.
///
/// The text is split into lines, and the lines are scanned in order.
/// `engine` is called with each message and `passphrase` as the message is
/// completed. The first failure of the engine ends the run and is handed
/// back as it came, and no document is given. Where the engine answers every
/// message, the document is the one rendered with its answers; a document
/// without a message is rendered whatever the engine would do.
pub fn decrypt<E: Fn(&str, &str) -> Result<String, Failure>>(
    input_text: &str,
    passphrase: &str,
    engine: E,
) -> (result: Result<String, Failure>)
    requires
        forall|text: &str| engine.requires((text, passphrase)),
    ensures
        run_outcome(engine, passphrase, lines_of(input_text@), result),
        blocks_of(lines_of(input_text@)).len() == 0 ==> (match result {
            Ok(document) => document@ == rendered(lines_of(input_text@), Seq::empty()),
            Err(_) => false,
        }),
{
    let lines = split_lines(input_text);
    let ghost all = lines_of(input_text@);
    let mut scanner = Scanner::new();
    let ghost mut given: Seq<String> = Seq::empty();
    let mut i: usize = 0;
    while i < lines.len()
        invariant
            i <= lines.len(),
            all == lines_of(input_text@),
            views(lines@) == all,
            forall|text: &str| engine.requires((text, passphrase)),
            scanner@ == trace(all.take(i as int), views(given)).state,
            given.len() == blocks_of(all.take(i as int)).len(),
            engine_gave(engine, passphrase, blocks_of(all), given),
        decreases lines.len() - i,
    {
        let ghost upto = all.take(i + 1);
        proof {
            assert(upto.drop_last() == all.take(i as int));
            lemma_trace_blocks(all.take(i as int), Seq::empty(), views(given));
            lemma_trace_blocks(upto, Seq::empty(), views(given));
            lemma_blocks_prefix(all, i + 1);
        }
        match scanner.feed_line(lines[i].as_str()) {
            None => {},
            Some(text) => {
                let ghost k = given.len() as int;
                assert(blocks_of(upto)[k] == text@);
                match engine(text.as_str(), passphrase) {
                    Ok(plaintext) => {
                        scanner.substitute(plaintext.as_str());
                        proof {
                            let longer = given.push(plaintext);
                            assert(views(longer).take(k) == views(given).take(k));
                            lemma_trace_plaintexts(all.take(i as int), views(given), views(longer));
                            lemma_trace_blocks(upto, Seq::empty(), views(longer));
                            given = longer;
                        }
                    },
                    Err(failure) => {
                        return Err(failure);
                    },
                }
            },
        }
        i += 1;
    }
    assert(all.take(i as int) == all);
    assert(given.len() == 0 ==> views(given) == Seq::<Seq<char>>::empty());
    Ok(scanner.finish())
}

} // verus!
