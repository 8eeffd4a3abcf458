use vstd::prelude::*;

use crate::input_reader::{
    spec_consume, spec_consume_to_delimeter, spec_peek, str_chars, InputReader, InputReaderError,
    ReadOutcome, ReaderState,
};
use crate::lexer::token::{DisposeableComment, Lexed, Token, TokenView};
use crate::position::CodePosition;

verus! {

/// `t` without a closing `*/` at its end.
pub open spec fn strip_comment_close(t: Seq<char>) -> Seq<char> {
    if t.len() >= 2 && t[t.len() - 2] == '*' && t[t.len() - 1] == '/' {
        t.take(t.len() - 2)
    } else {
        t
    }
}

/// The rest of a comment: `skip` characters of the opening are consumed, then
/// everything up to and including `delimeter` (or to the end); the closing `*/`
/// is dropped from the text when `strip` is set.
pub open spec fn spec_comment_rest(s: ReaderState, skip: nat, delimeter: Seq<char>, strip: bool) -> (
    ReaderState,
    ReadOutcome,
) {
    let (s1, r) = spec_consume(s, skip);
    if r is Failed {
        (s1, ReadOutcome::Failed)
    } else {
        let (s2, c) = spec_consume_to_delimeter(s1, delimeter);
        match c {
            ReadOutcome::Failed => (s2, ReadOutcome::Failed),
            ReadOutcome::Nothing => (s2, ReadOutcome::Nothing),
            ReadOutcome::Text(t) => (
                s2,
                ReadOutcome::Text(
                    if strip {
                        strip_comment_close(t)
                    } else {
                        t
                    },
                ),
            ),
        }
    }
}

pub(crate) fn strip_close_exec(t: Vec<char>) -> (res: Vec<char>)
    ensures
        res@ == strip_comment_close(t@),
{
    let mut t = t;
    let n = t.len();
    if n >= 2 && t[n - 2] == '*' && t[n - 1] == '/' {
        t.truncate(n - 2);
    }
    t
}

/// Consumes the rest of a comment; see [`spec_comment_rest`].
pub(crate) fn comment_rest(reader: &mut InputReader, skip: usize, delimeter: &str, strip: bool) -> (res: Result<
    Option<String>,
    InputReaderError,
>)
    requires
        old(reader).wf(),
    ensures
        res matches Err(e) ==> e is Utf8,
        final(reader).wf(),
        final(reader)@ == spec_comment_rest(old(reader)@, skip as nat, delimeter@, strip).0,
        match spec_comment_rest(old(reader)@, skip as nat, delimeter@, strip).1 {
            ReadOutcome::Failed => res is Err,
            ReadOutcome::Nothing => res matches Ok(None),
            ReadOutcome::Text(t) => res matches Ok(Some(c)) && c@ == t,
        },
{
    match reader.consume(skip) {
        Err(e) => {
            return Err(e);
        },
        Ok(_) => {},
    }
    let content = match reader.consume_to_delimeter_or_end(delimeter) {
        Err(e) => {
            return Err(e);
        },
        Ok(None) => {
            return Ok(None);
        },
        Ok(Some(c)) => c,
    };
    if strip {
        let chars = strip_close_exec(str_chars(content.as_str()));
        Ok(Some(crate::input_reader::collect_string(chars.as_slice())))
    } else {
        Ok(Some(content))
    }
}

/// `lex_disposeable_comment`: three characters are peeked; a comment starts with
/// `#` or `//` (and runs to the end of the line, line feed included) or with `/*`
/// but not `/**` (and runs to the next `*/`, which is not part of the content).
pub open spec fn spec_lex_disposeable_comment(s: ReaderState) -> (ReaderState, Lexed) {
    let (s1, r) = spec_peek(s, 3);
    match r {
        ReadOutcome::Failed => (s1, Lexed::Failed),
        ReadOutcome::Nothing => (s1, Lexed::Absent),
        ReadOutcome::Text(p) => {
            let start = s1.position;
            let rest = if p.len() >= 1 && p[0] == '#' {
                Some(spec_comment_rest(s1, 1, "\n"@, false))
            } else if p.len() >= 2 && p[0] == '/' && p[1] == '/' {
                Some(spec_comment_rest(s1, 2, "\n"@, false))
            } else if p.len() >= 2 && p[0] == '/' && p[1] == '*' && !(p.len() >= 3 && p[2] == '*') {
                Some(spec_comment_rest(s1, 2, "*/"@, true))
            } else {
                None
            };
            match rest {
                None => (s1, Lexed::Absent),
                Some((s2, c)) => (
                    s2,
                    match c {
                        ReadOutcome::Failed => Lexed::Failed,
                        ReadOutcome::Nothing => Lexed::Absent,
                        ReadOutcome::Text(t) => Lexed::Found(
                            TokenView::DisposeableComment { content: t, start, end: s2.position },
                        ),
                    },
                ),
            }
        },
    }
}

impl DisposeableComment {
    /// Lexes a comment which can be ignored: `# ...` or `// ...` up to the end of
    /// the line, or `/* ... */`.
    pub fn lex_disposeable_comment(reader: &mut InputReader) -> (res: Result<
        Option<DisposeableComment>,
        InputReaderError,
    >)
        requires
            old(reader).wf(),
        ensures
            res matches Err(e) ==> e is Utf8,
            final(reader).wf(),
            final(reader)@ == spec_lex_disposeable_comment(old(reader)@).0,
            match spec_lex_disposeable_comment(old(reader)@).1 {
                Lexed::Failed => res is Err,
                Lexed::Absent => res matches Ok(None),
                Lexed::Found(t) => res matches Ok(Some(k)) && Token::DisposeableComment(k)@ == t,
            },
    {
        let peek = match reader.peek(3) {
            Err(e) => {
                return Err(e);
            },
            Ok(None) => {
                return Ok(None);
            },
            Ok(Some(p)) => str_chars(p.as_str()),
        };
        let start: CodePosition = reader.get_current_position();
        let rest = if peek.len() >= 1 && peek[0] == '#' {
            comment_rest(reader, 1, "\n", false)
        } else if peek.len() >= 2 && peek[0] == '/' && peek[1] == '/' {
            comment_rest(reader, 2, "\n", false)
        } else if peek.len() >= 2 && peek[0] == '/' && peek[1] == '*' && !(peek.len() >= 3 && peek[2]
            == '*') {
            comment_rest(reader, 2, "*/", true)
        } else {
            return Ok(None);
        };
        match rest {
            Err(e) => Err(e),
            Ok(None) => Ok(None),
            Ok(Some(content)) => {
                let end = reader.get_current_position();
                Ok(Some(DisposeableComment { content, start, end }))
            },
        }
    }
}

} // verus!
