use vstd::prelude::*;

use crate::input_reader::{
    lemma_consume_measure, lemma_peek_measure, pending_measure, spec_consume, spec_peek, str_chars,
    InputReader, InputReaderError, ReadOutcome, ReaderState,
};

verus! {

/// Consumes characters one by one while the next one is `a` or `b`; the flag
/// tells whether an input error stopped it.
pub open spec fn skip_chars(s: ReaderState, a: char, b: char) -> (ReaderState, bool)
    decreases pending_measure(s),
{
    let (s1, r) = spec_peek(s, 1);
    match r {
        ReadOutcome::Failed => (s1, true),
        ReadOutcome::Nothing => (s1, false),
        ReadOutcome::Text(v) => {
            if v == seq![a] || v == seq![b] {
                let (s2, r2) = spec_consume(s1, 1);
                proof {
                    lemma_peek_measure(s, 1);
                    lemma_consume_measure(s1, 1);
                }
                match r2 {
                    ReadOutcome::Failed => (s2, true),
                    ReadOutcome::Nothing => (s2, false),
                    ReadOutcome::Text(_) => skip_chars(s2, a, b),
                }
            } else {
                (s1, false)
            }
        },
    }
}

/// Consumes the characters while the next one is `a` or `b`.
pub(crate) fn skip_chars_exec(reader: &mut InputReader, a: char, b: char) -> (res: Result<
    (),
    InputReaderError,
>)
    requires
        old(reader).wf(),
    ensures
        res matches Err(e) ==> e is Utf8,
        final(reader).wf(),
        final(reader)@ == skip_chars(old(reader)@, a, b).0,
        res is Err == skip_chars(old(reader)@, a, b).1,
{
    let ghost s0 = reader@;
    loop
        invariant
            reader.wf(),
            s0 == old(reader)@,
            skip_chars(reader@, a, b) == skip_chars(s0, a, b),
        decreases pending_measure(reader@),
    {
        let ghost s = reader@;
        proof {
            lemma_peek_measure(s, 1);
            lemma_consume_measure(spec_peek(s, 1).0, 1);
        }
        let peeked = match reader.peek(1) {
            Err(e) => {
                return Err(e);
            },
            Ok(None) => {
                return Ok(());
            },
            Ok(Some(v)) => str_chars(v.as_str()),
        };
        if peeked.len() == 1 && (peeked[0] == a || peeked[0] == b) {
            assert(peeked@ == seq![a] || peeked@ == seq![b]);
            match reader.consume(1) {
                Err(e) => {
                    return Err(e);
                },
                Ok(None) => {
                    return Ok(());
                },
                Ok(Some(_)) => {},
            }
        } else {
            assert(!(peeked@ == seq![a] || peeked@ == seq![b]));
            return Ok(());
        }
    }
}

/// Spaces and tabs between tokens.
pub struct Space;

impl Space {
    /// Consumes all spaces and tabs at the front of the input.
    pub fn skip_space(reader: &mut InputReader) -> (res: Result<(), InputReaderError>)
        requires
            old(reader).wf(),
        ensures
            res matches Err(e) ==> e is Utf8,
            final(reader).wf(),
            final(reader)@ == skip_chars(old(reader)@, ' ', '\t').0,
            res is Err == skip_chars(old(reader)@, ' ', '\t').1,
    {
        skip_chars_exec(reader, ' ', '\t')
    }
}

} // verus!
