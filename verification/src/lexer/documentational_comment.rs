use vstd::prelude::*;

use crate::input_reader::{spec_peek, str_chars, InputReader, InputReaderError, ReadOutcome, ReaderState};
use crate::lexer::disposeable_comment::{comment_rest, spec_comment_rest};
use crate::lexer::token::{DocumentationalComment, Lexed, Token, TokenView};
use crate::position::CodePosition;

verus! {

/// `lex_documentational_comment`: a comment opened by `/**` and closed by the
/// next `*/`, or by the end of the input; the content is what lies between them
/// (empty when the input ends right behind the opening).
pub open spec fn spec_lex_documentational_comment(s: ReaderState) -> (ReaderState, Lexed) {
    let (s1, r) = spec_peek(s, 3);
    match r {
        ReadOutcome::Failed => (s1, Lexed::Failed),
        ReadOutcome::Nothing => (s1, Lexed::Absent),
        ReadOutcome::Text(p) => {
            if p.len() >= 3 && p[0] == '/' && p[1] == '*' && p[2] == '*' {
                let (s2, c) = spec_comment_rest(s1, 3, "*/"@, true);
                (
                    s2,
                    match c {
                        ReadOutcome::Failed => Lexed::Failed,
                        ReadOutcome::Nothing => Lexed::Found(
                            TokenView::DocumentationalComment {
                                content: Seq::empty(),
                                start: s1.position,
                                end: s2.position,
                            },
                        ),
                        ReadOutcome::Text(t) => Lexed::Found(
                            TokenView::DocumentationalComment {
                                content: t,
                                start: s1.position,
                                end: s2.position,
                            },
                        ),
                    },
                )
            } else {
                (s1, Lexed::Absent)
            }
        },
    }
}

impl DocumentationalComment {
    /// Lexes a documentational comment `/** ... */`.
    pub fn lex_documentational_comment(reader: &mut InputReader) -> (res: Result<
        Option<DocumentationalComment>,
        InputReaderError,
    >)
        requires
            old(reader).wf(),
        ensures
            res matches Err(e) ==> e is Utf8,
            final(reader).wf(),
            final(reader)@ == spec_lex_documentational_comment(old(reader)@).0,
            match spec_lex_documentational_comment(old(reader)@).1 {
                Lexed::Failed => res is Err,
                Lexed::Absent => res matches Ok(None),
                Lexed::Found(t) => res matches Ok(Some(k)) && Token::DocumentationalComment(k)@ == t,
            },
    {
        let peek = match reader.peek(3) {
            Err(e) => {
                return Err(e);
            },
            Ok(None) => {
                return Ok(None);
            },
            Ok(Some(p)) => str_chars(p.as_str()),
        };
        let start: CodePosition = reader.get_current_position();
        if peek.len() >= 3 && peek[0] == '/' && peek[1] == '*' && peek[2] == '*' {
            match comment_rest(reader, 3, "*/", true) {
                Err(e) => Err(e),
                Ok(None) => {
                    let end = reader.get_current_position();
                    Ok(Some(DocumentationalComment { content: String::new(), start, end }))
                },
                Ok(Some(content)) => {
                    let end = reader.get_current_position();
                    Ok(Some(DocumentationalComment { content, start, end }))
                },
            }
        } else {
            Ok(None)
        }
    }
}

} // verus!
