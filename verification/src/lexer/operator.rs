use vstd::prelude::*;

use crate::input_reader::{InputReader, InputReaderError, ReaderState};
use crate::lexer::token::{Lexed, Operator, OperatorType, Token, TokenView};
use crate::lexer::words::{match_words, match_words_from, word_views, WordMatch};

verus! {

/// The operators in the order in which they are tried.
pub open spec fn operator_words() -> Seq<Seq<char>> {
    seq!["|"@, "{"@, "}"@, "("@, ")"@, "["@, "]"@, ","@, "?"@, "&"@]
}

/// The operator at index `i` of [`operator_words`].
pub open spec fn operator_at(i: int) -> OperatorType {
    if i == 0 {
        OperatorType::Pipe
    } else if i == 1 {
        OperatorType::CurlyOpenBracket
    } else if i == 2 {
        OperatorType::CurlyCloseBracket
    } else if i == 3 {
        OperatorType::OpenBracket
    } else if i == 4 {
        OperatorType::CloseBracket
    } else if i == 5 {
        OperatorType::SquareOpenBracket
    } else if i == 6 {
        OperatorType::SquareCloseBracket
    } else if i == 7 {
        OperatorType::Comma
    } else if i == 8 {
        OperatorType::QuestionMark
    } else {
        OperatorType::Ampersand
    }
}

/// `lex_operator`: the first operator that the input starts with is consumed.
pub open spec fn spec_lex_operator(s: ReaderState) -> (ReaderState, Lexed) {
    let (s1, m) = match_words_from(s, operator_words(), 0);
    (
        s1,
        match m {
            WordMatch::Failed => Lexed::Failed,
            WordMatch::NoMatch => Lexed::Absent,
            WordMatch::Matched(i, start, end) => Lexed::Found(
                TokenView::Operator { operator_type: operator_at(i), start, end },
            ),
        },
    )
}

fn operator_at_exec(i: usize) -> (res: OperatorType)
    ensures
        res == operator_at(i as int),
{
    if i == 0 {
        OperatorType::Pipe
    } else if i == 1 {
        OperatorType::CurlyOpenBracket
    } else if i == 2 {
        OperatorType::CurlyCloseBracket
    } else if i == 3 {
        OperatorType::OpenBracket
    } else if i == 4 {
        OperatorType::CloseBracket
    } else if i == 5 {
        OperatorType::SquareOpenBracket
    } else if i == 6 {
        OperatorType::SquareCloseBracket
    } else if i == 7 {
        OperatorType::Comma
    } else if i == 8 {
        OperatorType::QuestionMark
    } else {
        OperatorType::Ampersand
    }
}

impl Operator {
    /// Lexes an operator at the front of the input.
    pub fn lex_operator(reader: &mut InputReader) -> (res: Result<Option<Operator>, InputReaderError>)
        requires
            old(reader).wf(),
        ensures
            res matches Err(e) ==> e is Utf8,
            final(reader).wf(),
            final(reader)@ == spec_lex_operator(old(reader)@).0,
            match spec_lex_operator(old(reader)@).1 {
                Lexed::Failed => res is Err,
                Lexed::Absent => res matches Ok(None),
                Lexed::Found(t) => res matches Ok(Some(k)) && Token::Operator(k)@ == t,
            },
    {
        let words = vec!["|", "{", "}", "(", ")", "[", "]", ",", "?", "&"];
        assert(word_views(words@) =~= operator_words());
        match match_words(reader, &words) {
            Err(e) => Err(e),
            Ok(None) => Ok(None),
            Ok(Some((i, start, end))) => Ok(
                Some(Operator { operator_type: operator_at_exec(i), start, end }),
            ),
        }
    }
}

} // verus!
