use vstd::prelude::*;

use crate::input_reader::{
    agrees_with, collect_string, lemma_peek_measure, lemma_peek_until_prefix, spec_consume,
    spec_peek, spec_peek_until, str_chars, InputReader, InputReaderError, ReadOutcome,
    ReaderState,
};
use crate::lexer::identifier::{identifier_char_pattern, identifier_pattern, is_identifier_char};
use crate::lexer::token::{Lexed, Literal, LiteralType, LiteralView, Token, TokenView};
use crate::number::{check_decimal_float, is_decimal_float_text, parse_i32, spec_parse_i32};
use crate::pattern::{pattern_compiles, pattern_matches, CharPattern};
use crate::position::CodePosition;
use crate::text::{contains_char, lemma_utf8_len_ge_len};

verus! {

/// The pattern for the first character of a number.
pub open spec fn number_start_pattern() -> Seq<char> {
    "[0-9-]"@
}

/// The pattern for the characters of a number.
pub open spec fn number_pattern() -> Seq<char> {
    "[\\d\\.-]"@
}

/// All patterns that literal lexing uses compile.
pub open spec fn literal_patterns_compile() -> bool {
    &&& pattern_compiles(identifier_pattern())
    &&& pattern_compiles(number_start_pattern())
    &&& pattern_compiles(number_pattern())
}

/// A word ends at index `at` of a peek result when there is no character there
/// or it cannot continue an identifier. So `true(` is a boolean followed by `(`
/// (a parameter list may not start with a literal), where ending a word only at
/// whitespace would lex `true` as an identifier and accept ` Server true()` as
/// an endpoint.
pub open spec fn word_ends(r: ReadOutcome, at: int) -> bool {
    match r {
        ReadOutcome::Text(q) => q.len() <= at || !is_identifier_char(q[at]),
        _ => true,
    }
}

/// `word` (of `len` characters) at the front of `p`.
pub open spec fn starts_with(p: Seq<char>, word: Seq<char>) -> bool {
    p.len() >= word.len() && p.take(word.len() as int) == word
}

/// Lexes the boolean `value` written as `word`: the word is peeked, then one more
/// character; when the word ends there it is consumed. `None` means: not here.
pub open spec fn boolean_word(s: ReaderState, word: Seq<char>, value: bool) -> (ReaderState, Option<
    Lexed,
>) {
    let (s1, r) = spec_peek(s, word.len());
    match r {
        ReadOutcome::Failed => (s1, Some(Lexed::Failed)),
        ReadOutcome::Nothing => (s1, Some(Lexed::Absent)),
        ReadOutcome::Text(p) => {
            if starts_with(p, word) {
                let (s2, r2) = spec_peek(s1, word.len() + 1);
                if r2 is Failed {
                    (s2, Some(Lexed::Failed))
                } else if word_ends(r2, word.len() as int) {
                    let (s3, r3) = spec_consume(s2, word.len());
                    if r3 is Failed {
                        (s3, Some(Lexed::Failed))
                    } else if r3 is Nothing {
                        (s3, Some(Lexed::Absent))
                    } else {
                        (
                            s3,
                            Some(
                                Lexed::Found(
                                    TokenView::Literal {
                                        literal_type: LiteralView::Boolean(value),
                                        start: s2.position,
                                        end: s3.position,
                                    },
                                ),
                            ),
                        )
                    }
                } else {
                    (s2, None)
                }
            } else {
                (s1, None)
            }
        },
    }
}

/// `true` or `false`, not followed by a character that could continue an identifier.
pub open spec fn spec_process_boolean(s: ReaderState) -> (ReaderState, Lexed) {
    let (s1, t) = boolean_word(s, seq!['t', 'r', 'u', 'e'], true);
    match t {
        Some(l) => (s1, l),
        None => {
            let (s2, f) = boolean_word(s1, seq!['f', 'a', 'l', 's', 'e'], false);
            match f {
                Some(l) => (s2, l),
                None => (s2, Lexed::Absent),
            }
        },
    }
}

/// While peeking a string literal: the opening quote is accepted, then every
/// character but a quote that is not escaped by a backslash.
pub open spec fn string_approval() -> spec_fn(char, Seq<char>) -> bool {
    |c: char, t: Seq<char>| t.len() <= 1 || c != '"' || (t.len() >= 2 && t[t.len() - 2] == '\\')
}

/// A string literal: a quote, text in which quotes are escaped by a backslash,
/// and a closing quote. The escapes are kept in the value. Every length here
/// counts characters, also for text that is not ASCII; measuring the peeked
/// text in bytes while the reader counts characters would look past the
/// closing quote.
pub open spec fn spec_process_string(s: ReaderState) -> (ReaderState, Lexed) {
    let (s1, r) = spec_peek(s, 1);
    match r {
        ReadOutcome::Failed => (s1, Lexed::Failed),
        ReadOutcome::Nothing => (s1, Lexed::Absent),
        ReadOutcome::Text(p) => {
            if p != seq!['"'] {
                (s1, Lexed::Absent)
            } else {
                let (s2, r2) = spec_peek_until(s1, string_approval());
                match r2 {
                    ReadOutcome::Failed => (s2, Lexed::Failed),
                    ReadOutcome::Nothing => (s2, Lexed::Absent),
                    ReadOutcome::Text(ret) => {
                        let l = ret.len();
                        let (s3, r3) = spec_peek(s2, l + 1);
                        match r3 {
                            ReadOutcome::Failed => (s3, Lexed::Failed),
                            ReadOutcome::Nothing => (s3, Lexed::Absent),
                            ReadOutcome::Text(_) => {
                                if l == 0 {
                                    (s3, Lexed::Absent)
                                } else {
                                    let (s4, r4) = spec_consume(s3, 1);
                                    if r4 is Failed {
                                        (s4, Lexed::Failed)
                                    } else if r4 is Nothing {
                                        (s4, Lexed::Absent)
                                    } else {
                                        let (s5, r5) = spec_consume(s4, (l - 1) as nat);
                                        match r5 {
                                            ReadOutcome::Failed => (s5, Lexed::Failed),
                                            ReadOutcome::Nothing => (s5, Lexed::Absent),
                                            ReadOutcome::Text(content) => {
                                                let (s6, r6) = spec_consume(s5, 1);
                                                if r6 is Failed {
                                                    (s6, Lexed::Failed)
                                                } else {
                                                    (
                                                        s6,
                                                        Lexed::Found(
                                                            TokenView::Literal {
                                                                literal_type: LiteralView::String(
                                                                    content,
                                                                ),
                                                                start: s3.position,
                                                                end: s6.position,
                                                            },
                                                        ),
                                                    )
                                                }
                                            },
                                        }
                                    }
                                }
                            },
                        }
                    },
                }
            }
        },
    }
}

/// While peeking a number: characters that match the number pattern.
pub open spec fn number_approval() -> spec_fn(char, Seq<char>) -> bool {
    |c: char, t: Seq<char>| pattern_matches(number_pattern(), seq![c])
}

/// Consumes the text of a number literal of the given value.
pub open spec fn number_found(s: ReaderState, num: Seq<char>, value: LiteralView) -> (
    ReaderState,
    Lexed,
) {
    let (s1, r) = spec_consume(s, num.len());
    if r is Failed {
        (s1, Lexed::Failed)
    } else if r is Nothing {
        (s1, Lexed::Absent)
    } else {
        (s1, Lexed::Found(TokenView::Literal { literal_type: value, start: s.position, end: s1.position }))
    }
}

/// A number: it starts with a character of the start pattern and runs while the
/// characters match the number pattern; with a `.` it must be a decimal float
/// text, without one a decimal `i32`.
pub open spec fn spec_process_number(s: ReaderState) -> (ReaderState, Lexed) {
    let (s1, r) = spec_peek(s, 1);
    match r {
        ReadOutcome::Failed => (s1, Lexed::Failed),
        ReadOutcome::Nothing => (s1, Lexed::Absent),
        ReadOutcome::Text(p) => {
            if !pattern_matches(number_start_pattern(), p) {
                (s1, Lexed::Absent)
            } else {
                let (s2, r2) = spec_peek_until(s1, number_approval());
                match r2 {
                    ReadOutcome::Failed => (s2, Lexed::Failed),
                    ReadOutcome::Nothing => (s2, Lexed::Absent),
                    ReadOutcome::Text(num) => {
                        if num.contains('.') {
                            if is_decimal_float_text(num) {
                                number_found(s2, num, LiteralView::Float(num))
                            } else {
                                (s2, Lexed::Absent)
                            }
                        } else {
                            match spec_parse_i32(num) {
                                Some(v) => number_found(s2, num, LiteralView::Integer(v)),
                                None => (s2, Lexed::Absent),
                            }
                        }
                    },
                }
            }
        },
    }
}

/// `lex_literal`: a boolean, else a string, else a number.
pub open spec fn spec_lex_literal(s: ReaderState) -> (ReaderState, Lexed) {
    if !literal_patterns_compile() {
        (s, Lexed::Failed)
    } else {
        let (s1, b) = spec_process_boolean(s);
        match b {
            Lexed::Absent => {
                let (s2, t) = spec_process_string(s1);
                match t {
                    Lexed::Absent => spec_process_number(s2),
                    _ => (s2, t),
                }
            },
            _ => (s1, b),
        }
    }
}

/// Whether the characters start with `word`.
fn starts_with_exec(p: &Vec<char>, word: &Vec<char>) -> (res: bool)
    ensures
        res == starts_with(p@, word@),
{
    if p.len() < word.len() {
        return false;
    }
    let mut i: usize = 0;
    while i < word.len()
        invariant
            word.len() <= p.len(),
            i <= word.len(),
            forall|j: int| 0 <= j < i ==> p@[j] == word@[j],
        decreases word.len() - i,
    {
        if p[i] != word[i] {
            assert(p@.take(word.len() as int)[i as int] != word@[i as int]);
            return false;
        }
        i = i + 1;
    }
    assert(p@.take(word.len() as int) =~= word@);
    true
}

fn boolean_word_exec(
    reader: &mut InputReader,
    ident: &CharPattern,
    word: &Vec<char>,
    value: bool,
) -> (res: Result<Option<Option<Literal>>, InputReaderError>)
    requires
        old(reader).wf(),
        ident.source() == identifier_pattern(),
        word.len() < 8,
    ensures
        res matches Err(e) ==> e is Utf8,
        final(reader).wf(),
        final(reader)@ == boolean_word(old(reader)@, word@, value).0,
        match boolean_word(old(reader)@, word@, value).1 {
            Some(Lexed::Failed) => res is Err,
            Some(Lexed::Absent) => res matches Ok(Some(None)),
            Some(Lexed::Found(t)) => res matches Ok(Some(Some(k))) && Token::Literal(k)@ == t,
            None => res matches Ok(None),
        },
{
    let p = match reader.peek(word.len()) {
        Err(e) => {
            return Err(e);
        },
        Ok(None) => {
            return Ok(Some(None));
        },
        Ok(Some(p)) => str_chars(p.as_str()),
    };
    if !starts_with_exec(&p, word) {
        return Ok(None);
    }
    let next = match reader.peek(word.len() + 1) {
        Err(e) => {
            return Err(e);
        },
        Ok(None) => None,
        Ok(Some(q)) => {
            let q = str_chars(q.as_str());
            if q.len() > word.len() {
                Some(q[word.len()])
            } else {
                None
            }
        },
    };
    let ends = match next {
        None => true,
        Some(c) => !ident.matches_char(c),
    };
    if !ends {
        return Ok(None);
    }
    let start: CodePosition = reader.get_current_position();
    match reader.consume(word.len()) {
        Err(e) => {
            return Err(e);
        },
        Ok(None) => {
            return Ok(Some(None));
        },
        Ok(Some(_)) => {},
    }
    let end = reader.get_current_position();
    Ok(Some(Some(Literal { literal_type: LiteralType::Boolean(value), start, end })))
}

fn process_boolean(reader: &mut InputReader, ident: &CharPattern) -> (res: Result<
    Option<Literal>,
    InputReaderError,
>)
    requires
        old(reader).wf(),
        ident.source() == identifier_pattern(),
    ensures
        res matches Err(e) ==> e is Utf8,
        final(reader).wf(),
        final(reader)@ == spec_process_boolean(old(reader)@).0,
        match spec_process_boolean(old(reader)@).1 {
            Lexed::Failed => res is Err,
            Lexed::Absent => res matches Ok(None),
            Lexed::Found(t) => res matches Ok(Some(k)) && Token::Literal(k)@ == t,
        },
{
    let true_word = vec!['t', 'r', 'u', 'e'];
    assert(true_word@ =~= seq!['t', 'r', 'u', 'e']);
    match boolean_word_exec(reader, ident, &true_word, true) {
        Err(e) => {
            return Err(e);
        },
        Ok(Some(l)) => {
            return Ok(l);
        },
        Ok(None) => {},
    }
    let false_word = vec!['f', 'a', 'l', 's', 'e'];
    assert(false_word@ =~= seq!['f', 'a', 'l', 's', 'e']);
    match boolean_word_exec(reader, ident, &false_word, false) {
        Err(e) => Err(e),
        Ok(Some(l)) => Ok(l),
        Ok(None) => Ok(None),
    }
}

fn process_string(reader: &mut InputReader) -> (res: Result<Option<Literal>, InputReaderError>)
    requires
        old(reader).wf(),
    ensures
        res matches Err(e) ==> e is Utf8,
        final(reader).wf(),
        final(reader)@ == spec_process_string(old(reader)@).0,
        match spec_process_string(old(reader)@).1 {
            Lexed::Failed => res is Err,
            Lexed::Absent => res matches Ok(None),
            Lexed::Found(t) => res matches Ok(Some(k)) && Token::Literal(k)@ == t,
        },
{
    let p = match reader.peek(1) {
        Err(e) => {
            return Err(e);
        },
        Ok(None) => {
            return Ok(None);
        },
        Ok(Some(p)) => str_chars(p.as_str()),
    };
    if !(p.len() == 1 && p[0] == '"') {
        assert(p@ != seq!['"']);
        return Ok(None);
    }
    assert(p@ =~= seq!['"']);
    let approve = |c: char, t: &String| -> (b: bool)
        ensures
            b == (string_approval())(c, t@),
        {
            let chars = str_chars(t.as_str());
            let n = chars.len();
            n <= 1 || c != '"' || (n >= 2 && chars[n - 2] == '\\')
        };
    assert(agrees_with(approve, string_approval()));
    let ghost s1 = reader@;
    let ret = match reader.peek_until(approve) {
        Err(e) => {
            return Err(e);
        },
        Ok(None) => {
            return Ok(None);
        },
        Ok(Some(r)) => r,
    };
    proof {
        lemma_peek_until_prefix(s1, string_approval());
        reader.lemma_wf();
    }
    let l = str_chars(ret.as_str()).len();
    proof {
        lemma_utf8_len_ge_len(ret@);
    }
    match reader.peek(l + 1) {
        Err(e) => {
            return Err(e);
        },
        Ok(None) => {
            return Ok(None);
        },
        Ok(Some(_)) => {},
    }
    if l == 0 {
        return Ok(None);
    }
    let start: CodePosition = reader.get_current_position();
    match reader.consume(1) {
        Err(e) => {
            return Err(e);
        },
        Ok(None) => {
            return Ok(None);
        },
        Ok(Some(_)) => {},
    }
    let content = match reader.consume(l - 1) {
        Err(e) => {
            return Err(e);
        },
        Ok(None) => {
            return Ok(None);
        },
        Ok(Some(c)) => c,
    };
    match reader.consume(1) {
        Err(e) => {
            return Err(e);
        },
        Ok(_) => {},
    }
    let end = reader.get_current_position();
    Ok(Some(Literal { literal_type: LiteralType::String(content), start, end }))
}

fn number_found_exec(reader: &mut InputReader, num: &String, value: LiteralType) -> (res: Result<
    Option<Literal>,
    InputReaderError,
>)
    requires
        old(reader).wf(),
    ensures
        res matches Err(e) ==> e is Utf8,
        final(reader).wf(),
        final(reader)@ == number_found(old(reader)@, num@, value@).0,
        match number_found(old(reader)@, num@, value@).1 {
            Lexed::Failed => res is Err,
            Lexed::Absent => res matches Ok(None),
            Lexed::Found(t) => res matches Ok(Some(k)) && Token::Literal(k)@ == t,
        },
{
    let start: CodePosition = reader.get_current_position();
    let n = str_chars(num.as_str()).len();
    match reader.consume(n) {
        Err(e) => {
            return Err(e);
        },
        Ok(None) => {
            return Ok(None);
        },
        Ok(Some(_)) => {},
    }
    let end = reader.get_current_position();
    Ok(Some(Literal { literal_type: value, start, end }))
}

fn process_number(reader: &mut InputReader, start_pattern: &CharPattern, number: &CharPattern) -> (res:
    Result<Option<Literal>, InputReaderError>)
    requires
        old(reader).wf(),
        start_pattern.source() == number_start_pattern(),
        number.source() == number_pattern(),
    ensures
        res matches Err(e) ==> e is Utf8,
        final(reader).wf(),
        final(reader)@ == spec_process_number(old(reader)@).0,
        match spec_process_number(old(reader)@).1 {
            Lexed::Failed => res is Err,
            Lexed::Absent => res matches Ok(None),
            Lexed::Found(t) => res matches Ok(Some(k)) && Token::Literal(k)@ == t,
        },
{
    let ghost s0 = reader@;
    proof {
        lemma_peek_measure(s0, 1);
    }
    let p = match reader.peek(1) {
        Err(e) => {
            return Err(e);
        },
        Ok(None) => {
            return Ok(None);
        },
        Ok(Some(p)) => str_chars(p.as_str()),
    };
    assert(p@ =~= seq![p@[0]]);
    if !start_pattern.matches_char(p[0]) {
        return Ok(None);
    }
    let approve = |c: char, _t: &String| -> (b: bool)
        ensures
            b == pattern_matches(number_pattern(), seq![c]),
        { number.matches_char(c) };
    assert(agrees_with(approve, number_approval()));
    let ghost s1 = reader@;
    let num = match reader.peek_until(approve) {
        Err(e) => {
            return Err(e);
        },
        Ok(None) => {
            return Ok(None);
        },
        Ok(Some(r)) => r,
    };
    proof {
        lemma_peek_until_prefix(s1, number_approval());
        reader.lemma_wf();
    }
    let chars = str_chars(num.as_str());
    if contains_char(&chars, '.') {
        if check_decimal_float(&chars) {
            let text = collect_string(chars.as_slice());
            number_found_exec(reader, &num, LiteralType::Float(text))
        } else {
            Ok(None)
        }
    } else {
        match parse_i32(&chars) {
            Some(v) => number_found_exec(reader, &num, LiteralType::Integer(v)),
            None => Ok(None),
        }
    }
}

impl Literal {
    /// Lexes a literal: `true` or `false`, a string in double quotes, or a number.
    pub fn lex_literal(reader: &mut InputReader) -> (res: Result<Option<Literal>, InputReaderError>)
        requires
            old(reader).wf(),
        ensures
            res matches Err(e) ==> e is Utf8,
            literal_patterns_compile(),
            final(reader).wf(),
            final(reader)@ == spec_lex_literal(old(reader)@).0,
            match spec_lex_literal(old(reader)@).1 {
                Lexed::Failed => res is Err,
                Lexed::Absent => res matches Ok(None),
                Lexed::Found(t) => res matches Ok(Some(k)) && Token::Literal(k)@ == t,
            },
    {
        let ident = identifier_char_pattern();
        let start_pattern = CharPattern::compile("[0-9-]");
        let number = CharPattern::compile("[\\d\\.-]");
        let (ident, start_pattern, number) = match (ident, start_pattern, number) {
            (Some(a), Some(b), Some(c)) => (a, b, c),
            _ => {
                return Err(InputReaderError::Pattern);
            },
        };
        match process_boolean(reader, &ident) {
            Err(e) => {
                return Err(e);
            },
            Ok(Some(l)) => {
                return Ok(Some(l));
            },
            Ok(None) => {},
        }
        match process_string(reader) {
            Err(e) => {
                return Err(e);
            },
            Ok(Some(l)) => {
                return Ok(Some(l));
            },
            Ok(None) => {},
        }
        process_number(reader, &start_pattern, &number)
    }
}

} // verus!
