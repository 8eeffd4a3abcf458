use vstd::prelude::*;

use crate::input_reader::{
    agrees_with, lemma_peek_until_prefix, spec_consume, spec_peek_until, InputReader,
    InputReaderError, ReadOutcome, ReaderState,
};
use crate::lexer::token::{Identifier, Lexed, Token, TokenView};
use crate::pattern::{pattern_compiles, pattern_matches, CharPattern};
use crate::position::CodePosition;
use crate::input_reader::str_chars;

verus! {

/// The pattern that every character of an identifier matches.
pub open spec fn identifier_pattern() -> Seq<char> {
    "^[A-Za-z0-9_]$"@
}

/// Whether `c` may appear in an identifier.
pub open spec fn is_identifier_char(c: char) -> bool {
    pattern_matches(identifier_pattern(), seq![c])
}

/// The approval used while peeking an identifier.
pub open spec fn identifier_approval() -> spec_fn(char, Seq<char>) -> bool {
    |c: char, t: Seq<char>| is_identifier_char(c)
}

/// `lex_identifier`: the longest run of identifier characters that `peek_until`
/// finds is consumed.
pub open spec fn spec_lex_identifier(s: ReaderState) -> (ReaderState, Lexed) {
    if !pattern_compiles(identifier_pattern()) {
        (s, Lexed::Failed)
    } else {
        let (s1, r) = spec_peek_until(s, identifier_approval());
        match r {
            ReadOutcome::Failed => (s1, Lexed::Failed),
            ReadOutcome::Nothing => (s1, Lexed::Absent),
            ReadOutcome::Text(p) => {
                if p.len() == 0 {
                    (s1, Lexed::Absent)
                } else {
                    let (s2, r2) = spec_consume(s1, p.len());
                    match r2 {
                        ReadOutcome::Failed => (s2, Lexed::Failed),
                        ReadOutcome::Nothing => (s2, Lexed::Absent),
                        ReadOutcome::Text(c) => (
                            s2,
                            Lexed::Found(
                                TokenView::Identifier {
                                    content: c,
                                    start: s1.position,
                                    end: s2.position,
                                },
                            ),
                        ),
                    }
                }
            },
        }
    }
}

/// Compiles the pattern of identifier characters.
pub(crate) fn identifier_char_pattern() -> (res: Option<CharPattern>)
    ensures
        res is Some <==> pattern_compiles(identifier_pattern()),
        res is Some,
        res matches Some(p) ==> p.source() == identifier_pattern(),
{
    CharPattern::compile("^[A-Za-z0-9_]$")
}

impl Identifier {
    /// Lexes an identifier: characters that match `^[A-Za-z0-9_]$`.
    pub fn lex_identifier(reader: &mut InputReader) -> (res: Result<Option<Identifier>, InputReaderError>)
        requires
            old(reader).wf(),
        ensures
            res matches Err(e) ==> e is Utf8,
            pattern_compiles(identifier_pattern()),
            final(reader).wf(),
            final(reader)@ == spec_lex_identifier(old(reader)@).0,
            match spec_lex_identifier(old(reader)@).1 {
                Lexed::Failed => res is Err,
                Lexed::Absent => res matches Ok(None),
                Lexed::Found(t) => res matches Ok(Some(k)) && Token::Identifier(k)@ == t,
            },
    {
        let pattern = match identifier_char_pattern() {
            None => {
                return Err(InputReaderError::Pattern);
            },
            Some(p) => p,
        };
        let approve = |c: char, _t: &String| -> (b: bool)
            ensures
                b == is_identifier_char(c),
            { pattern.matches_char(c) };
        assert(agrees_with(approve, identifier_approval()));
        let ghost s0 = reader@;
        let peeked = match reader.peek_until(approve) {
            Err(e) => {
                return Err(e);
            },
            Ok(None) => {
                return Ok(None);
            },
            Ok(Some(p)) => p,
        };
        proof {
            lemma_peek_until_prefix(s0, identifier_approval());
            reader.lemma_wf();
        }
        let amount = str_chars(peeked.as_str()).len();
        if amount == 0 {
            return Ok(None);
        }
        let start: CodePosition = reader.get_current_position();
        let content = match reader.consume(amount) {
            Err(e) => {
                return Err(e);
            },
            Ok(None) => {
                return Ok(None);
            },
            Ok(Some(c)) => c,
        };
        let end = reader.get_current_position();
        Ok(Some(Identifier { content, start, end }))
    }
}

} // verus!
