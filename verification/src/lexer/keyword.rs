use vstd::prelude::*;

use crate::input_reader::{InputReader, InputReaderError, ReaderState};
use crate::lexer::token::{Keyword, KeywordType, Lexed, Token, TokenView};
use crate::lexer::words::{match_words, match_words_from, word_views, WordMatch};

verus! {

/// The keywords in the order in which they are tried; each is written in lower case.
pub open spec fn keyword_words() -> Seq<Seq<char>> {
    seq![
        "type"@,
        "boolean"@,
        "int8"@,
        "int16"@,
        "int32"@,
        "int64"@,
        "float32"@,
        "float64"@,
        "string"@,
        "int"@,
        "float"@,
    ]
}

/// The keyword at index `i` of [`keyword_words`].
pub open spec fn keyword_at(i: int) -> KeywordType {
    if i == 0 {
        KeywordType::Type
    } else if i == 1 {
        KeywordType::Boolean
    } else if i == 2 {
        KeywordType::Int8
    } else if i == 3 {
        KeywordType::Int16
    } else if i == 4 {
        KeywordType::Int32
    } else if i == 5 {
        KeywordType::Int64
    } else if i == 6 {
        KeywordType::Float32
    } else if i == 7 {
        KeywordType::Float64
    } else if i == 8 {
        KeywordType::String
    } else if i == 9 {
        KeywordType::Int
    } else {
        KeywordType::Float
    }
}

/// `lex_keyword`: the first keyword that the input starts with is consumed.
pub open spec fn spec_lex_keyword(s: ReaderState) -> (ReaderState, Lexed) {
    let (s1, m) = match_words_from(s, keyword_words(), 0);
    (
        s1,
        match m {
            WordMatch::Failed => Lexed::Failed,
            WordMatch::NoMatch => Lexed::Absent,
            WordMatch::Matched(i, start, end) => Lexed::Found(
                TokenView::Keyword { keyword_type: keyword_at(i), start, end },
            ),
        },
    )
}

fn keyword_at_exec(i: usize) -> (res: KeywordType)
    ensures
        res == keyword_at(i as int),
{
    if i == 0 {
        KeywordType::Type
    } else if i == 1 {
        KeywordType::Boolean
    } else if i == 2 {
        KeywordType::Int8
    } else if i == 3 {
        KeywordType::Int16
    } else if i == 4 {
        KeywordType::Int32
    } else if i == 5 {
        KeywordType::Int64
    } else if i == 6 {
        KeywordType::Float32
    } else if i == 7 {
        KeywordType::Float64
    } else if i == 8 {
        KeywordType::String
    } else if i == 9 {
        KeywordType::Int
    } else {
        KeywordType::Float
    }
}

impl Keyword {
    /// Lexes a keyword at the front of the input.
    pub fn lex_keyword(reader: &mut InputReader) -> (res: Result<Option<Keyword>, InputReaderError>)
        requires
            old(reader).wf(),
        ensures
            res matches Err(e) ==> e is Utf8,
            final(reader).wf(),
            final(reader)@ == spec_lex_keyword(old(reader)@).0,
            match spec_lex_keyword(old(reader)@).1 {
                Lexed::Failed => res is Err,
                Lexed::Absent => res matches Ok(None),
                Lexed::Found(t) => res matches Ok(Some(k)) && Token::Keyword(k)@ == t,
            },
    {
        let words = vec![
            "type",
            "boolean",
            "int8",
            "int16",
            "int32",
            "int64",
            "float32",
            "float64",
            "string",
            "int",
            "float",
        ];
        assert(word_views(words@) =~= keyword_words());
        match match_words(reader, &words) {
            Err(e) => Err(e),
            Ok(None) => Ok(None),
            Ok(Some((i, start, end))) => Ok(
                Some(Keyword { keyword_type: keyword_at_exec(i), start, end }),
            ),
        }
    }
}

} // verus!
