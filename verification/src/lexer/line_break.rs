use vstd::prelude::*;

use crate::input_reader::{
    lemma_consume_measure, lemma_peek_measure, pending_measure, spec_consume, spec_peek, str_chars,
    InputReader, InputReaderError, ReadOutcome, ReaderState,
};
use crate::lexer::token::{Lexed, LineBreak, Token, TokenView};
use crate::position::CodePosition;

verus! {

/// The line feeds and carriage returns right behind the start of a line break
/// belong to it, except a carriage return right behind a line feed, which
/// starts the next line break; `last` is the character consumed before.
pub open spec fn skip_line_breaks(s: ReaderState, last: char) -> (ReaderState, bool)
    decreases pending_measure(s),
{
    let (s1, r) = spec_peek(s, 1);
    match r {
        ReadOutcome::Failed => (s1, true),
        ReadOutcome::Nothing => (s1, false),
        ReadOutcome::Text(v) => {
            if v == seq!['\n'] || (v == seq!['\r'] && last != '\n') {
                let (s2, r2) = spec_consume(s1, 1);
                proof {
                    lemma_peek_measure(s, 1);
                    lemma_consume_measure(s1, 1);
                }
                match r2 {
                    ReadOutcome::Failed => (s2, true),
                    ReadOutcome::Nothing => (s2, false),
                    ReadOutcome::Text(_) => skip_line_breaks(s2, v[0]),
                }
            } else {
                (s1, false)
            }
        },
    }
}

/// Consumes the rest of a line break; see [`skip_line_breaks`].
fn skip_line_breaks_exec(reader: &mut InputReader, first: char) -> (res: Result<(), InputReaderError>)
    requires
        old(reader).wf(),
    ensures
        res matches Err(e) ==> e is Utf8,
        final(reader).wf(),
        final(reader)@ == skip_line_breaks(old(reader)@, first).0,
        res is Err == skip_line_breaks(old(reader)@, first).1,
{
    let ghost s0 = reader@;
    let mut last = first;
    loop
        invariant
            reader.wf(),
            s0 == old(reader)@,
            skip_line_breaks(reader@, last) == skip_line_breaks(s0, first),
        decreases pending_measure(reader@),
    {
        let ghost s = reader@;
        proof {
            lemma_peek_measure(s, 1);
            lemma_consume_measure(spec_peek(s, 1).0, 1);
        }
        let peeked = match reader.peek(1) {
            Err(e) => {
                return Err(e);
            },
            Ok(None) => {
                return Ok(());
            },
            Ok(Some(v)) => str_chars(v.as_str()),
        };
        if peeked.len() == 1 && (peeked[0] == '\n' || (peeked[0] == '\r' && last != '\n')) {
            assert(peeked@ == seq!['\n'] || (peeked@ == seq!['\r'] && last != '\n'));
            match reader.consume(1) {
                Err(e) => {
                    return Err(e);
                },
                Ok(None) => {
                    return Ok(());
                },
                Ok(Some(_)) => {},
            }
            last = peeked[0];
        } else {
            assert(!(peeked@ == seq!['\n'] || (peeked@ == seq!['\r'] && last != '\n')));
            return Ok(());
        }
    }
}

/// `lex_line_break`: a line feed or carriage return, together with the line
/// feeds and carriage returns right behind it, up to a carriage return that
/// directly follows a line feed (which starts the next line break).
pub open spec fn spec_lex_line_break(s: ReaderState) -> (ReaderState, Lexed) {
    let (s1, r) = spec_peek(s, 1);
    match r {
        ReadOutcome::Failed => (s1, Lexed::Failed),
        ReadOutcome::Nothing => (s1, Lexed::Absent),
        ReadOutcome::Text(p) => {
            if p == seq!['\n'] || p == seq!['\r'] {
                let (s2, r2) = spec_consume(s1, 1);
                if r2 is Failed {
                    (s2, Lexed::Failed)
                } else if r2 is Nothing {
                    (s2, Lexed::Absent)
                } else {
                    let (s3, failed) = skip_line_breaks(s2, p[0]);
                    if failed {
                        (s3, Lexed::Failed)
                    } else {
                        (
                            s3,
                            Lexed::Found(
                                TokenView::LineBreak { start: s1.position, end: s3.position },
                            ),
                        )
                    }
                }
            } else {
                (s1, Lexed::Absent)
            }
        },
    }
}

impl LineBreak {
    /// Lexes one or more line breaks.
    pub fn lex_line_break(reader: &mut InputReader) -> (res: Result<Option<LineBreak>, InputReaderError>)
        requires
            old(reader).wf(),
        ensures
            res matches Err(e) ==> e is Utf8,
            final(reader).wf(),
            final(reader)@ == spec_lex_line_break(old(reader)@).0,
            match spec_lex_line_break(old(reader)@).1 {
                Lexed::Failed => res is Err,
                Lexed::Absent => res matches Ok(None),
                Lexed::Found(t) => res matches Ok(Some(k)) && Token::LineBreak(k)@ == t,
            },
    {
        let peek = match reader.peek(1) {
            Err(e) => {
                return Err(e);
            },
            Ok(None) => {
                return Ok(None);
            },
            Ok(Some(p)) => str_chars(p.as_str()),
        };
        if peek.len() == 1 && (peek[0] == '\n' || peek[0] == '\r') {
            assert(peek@ == seq!['\n'] || peek@ == seq!['\r']);
            let start: CodePosition = reader.get_current_position();
            match reader.consume(1) {
                Err(e) => {
                    return Err(e);
                },
                Ok(None) => {
                    return Ok(None);
                },
                Ok(Some(_)) => {},
            }
            match skip_line_breaks_exec(reader, peek[0]) {
                Err(e) => {
                    return Err(e);
                },
                Ok(()) => {},
            }
            let end = reader.get_current_position();
            Ok(Some(LineBreak { start, end }))
        } else {
            assert(!(peek@ == seq!['\n'] || peek@ == seq!['\r']));
            Ok(None)
        }
    }
}

} // verus!
