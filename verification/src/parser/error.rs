use vstd::prelude::*;

use crate::lexer::reader::TokenReaderView;
use crate::lexer::token::TokenView;
use crate::position::CodePosition;

verus! {

/// An error in the syntax of a source, with the stretch of code it concerns.
#[derive(Debug)]
pub struct ParseError {
    pub start: CodePosition,
    pub end: CodePosition,
    pub message: String,
}

/// A parse error with its message as a character sequence.
pub struct ParseErrorView {
    pub start: CodePosition,
    pub end: CodePosition,
    pub message: Seq<char>,
}

impl View for ParseError {
    type V = ParseErrorView;

    open spec fn view(&self) -> ParseErrorView {
        ParseErrorView { start: self.start, end: self.end, message: self.message@ }
    }
}

/// An error at the last consumed token.
pub open spec fn error_at_last(v: TokenReaderView, message: Seq<char>) -> ParseErrorView {
    ParseErrorView { start: v.last_start, end: v.last_end, message }
}

/// An error at the token `t`.
pub open spec fn error_at_token(t: TokenView, message: Seq<char>) -> ParseErrorView {
    ParseErrorView { start: t.start(), end: t.end(), message }
}

/// The view of a parse result.
pub open spec fn result_view<T: View>(r: Result<T, ParseError>) -> Result<T::V, ParseErrorView> {
    match r {
        Ok(v) => Ok(v@),
        Err(e) => Err(e@),
    }
}

} // verus!
