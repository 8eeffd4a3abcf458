use vstd::prelude::*;

use crate::input_reader::{spec_consume, InputReader, InputReaderError, ReadOutcome, ReaderState};
use crate::lexer::token::{InvalidCharacters, Lexed, Token, TokenView};
use crate::position::CodePosition;

verus! {

/// `lex_next_as_invalid_character`: the next character, whatever it is.
pub open spec fn spec_lex_invalid_character(s: ReaderState) -> (ReaderState, Lexed) {
    let (s1, r) = spec_consume(s, 1);
    match r {
        ReadOutcome::Failed => (s1, Lexed::Failed),
        ReadOutcome::Nothing => (s1, Lexed::Absent),
        ReadOutcome::Text(c) => (
            s1,
            Lexed::Found(TokenView::InvalidCharacters { content: c, start: s.position, end: s1.position }),
        ),
    }
}

impl InvalidCharacters {
    /// Lexes the next character as an invalid one; the fallback for syntax that
    /// no other token fits.
    pub fn lex_next_as_invalid_character(reader: &mut InputReader) -> (res: Result<
        Option<InvalidCharacters>,
        InputReaderError,
    >)
        requires
            old(reader).wf(),
        ensures
            res matches Err(e) ==> e is Utf8,
            final(reader).wf(),
            final(reader)@ == spec_lex_invalid_character(old(reader)@).0,
            match spec_lex_invalid_character(old(reader)@).1 {
                Lexed::Failed => res is Err,
                Lexed::Absent => res matches Ok(None),
                Lexed::Found(t) => res matches Ok(Some(k)) && Token::InvalidCharacters(k)@ == t,
            },
    {
        let start: CodePosition = reader.get_current_position();
        let content = match reader.consume(1) {
            Err(e) => {
                return Err(e);
            },
            Ok(None) => {
                return Ok(None);
            },
            Ok(Some(c)) => c,
        };
        let end = reader.get_current_position();
        Ok(Some(InvalidCharacters { start, content, end }))
    }
}

} // verus!
