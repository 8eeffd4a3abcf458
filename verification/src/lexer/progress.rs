use vstd::prelude::*;

use crate::input_reader::{
    consume_to_from, lemma_consume_measure, lemma_is_done_measure, lemma_peek_measure,
    pending_measure, peek_until_from, spec_consume, spec_consume_to_delimeter, spec_is_done,
    spec_peek, spec_peek_until, ReadOutcome, ReaderState,
};
use crate::lexer::disposeable_comment::{spec_comment_rest, spec_lex_disposeable_comment};
use crate::lexer::documentational_comment::spec_lex_documentational_comment;
use crate::lexer::identifier::spec_lex_identifier;
use crate::lexer::invalid_characters::spec_lex_invalid_character;
use crate::lexer::keyword::{keyword_words, spec_lex_keyword};
use crate::lexer::line_break::{skip_line_breaks, spec_lex_line_break};
use crate::lexer::literal::{
    boolean_word, literal_patterns_compile, number_approval, spec_lex_literal,
    spec_process_boolean, spec_process_number, spec_process_string, string_approval,
};
use crate::lexer::operator::{operator_words, spec_lex_operator};
use crate::lexer::space::skip_chars;
use crate::lexer::token::Lexed;
use crate::lexer::words::match_words_from;
use crate::number::{is_decimal_float_text, spec_parse_i32};
use crate::text::{lemma_utf8_len_ge_len, utf8_len};

verus! {

/// `s2` was reached from `s` by reading: the input is the same and no more
/// bytes are pending than before.
pub open spec fn reads_from(s: ReaderState, s2: ReaderState) -> bool {
    &&& s2.input == s.input
    &&& pending_measure(s2) <= pending_measure(s)
}

pub proof fn lemma_skip_chars_reads(s: ReaderState, a: char, b: char)
    ensures
        reads_from(s, skip_chars(s, a, b).0),
    decreases pending_measure(s),
{
    lemma_peek_measure(s, 1);
    let (s1, r) = spec_peek(s, 1);
    if let ReadOutcome::Text(v) = r {
        if v == seq![a] || v == seq![b] {
            lemma_consume_measure(s1, 1);
            let (s2, r2) = spec_consume(s1, 1);
            if r2 is Text {
                lemma_skip_chars_reads(s2, a, b);
            }
        }
    }
}

pub proof fn lemma_skip_line_breaks_reads(s: ReaderState, last: char)
    ensures
        reads_from(s, skip_line_breaks(s, last).0),
    decreases pending_measure(s),
{
    lemma_peek_measure(s, 1);
    let (s1, r) = spec_peek(s, 1);
    if let ReadOutcome::Text(v) = r {
        if v == seq!['\n'] || (v == seq!['\r'] && last != '\n') {
            lemma_consume_measure(s1, 1);
            let (s2, r2) = spec_consume(s1, 1);
            if r2 is Text {
                lemma_skip_line_breaks_reads(s2, v[0]);
            }
        }
    }
}

pub proof fn lemma_consume_to_from_reads(s: ReaderState, delimeter: Seq<char>, acc: Seq<char>)
    ensures
        reads_from(s, consume_to_from(s, delimeter, acc).0),
    decreases pending_measure(s),
{
    lemma_is_done_measure(s);
    let (s1, finished) = spec_is_done(s);
    if !finished {
        lemma_consume_measure(s1, 1);
        let (s2, r) = spec_consume(s1, 1);
        if let ReadOutcome::Text(c) = r {
            let acc2 = acc + c;
            if !delimeter.is_suffix_of(acc2) {
                lemma_consume_to_from_reads(s2, delimeter, acc2);
            }
        }
    }
}

pub proof fn lemma_consume_to_delimeter_reads(s: ReaderState, delimeter: Seq<char>)
    ensures
        reads_from(s, spec_consume_to_delimeter(s, delimeter).0),
{
    lemma_is_done_measure(s);
    let (s1, finished) = spec_is_done(s);
    if !finished {
        lemma_consume_to_from_reads(s1, delimeter, Seq::<char>::empty());
    }
}

pub proof fn lemma_peek_until_from_reads(
    s: ReaderState,
    approve: spec_fn(char, Seq<char>) -> bool,
    offset: nat,
    peeked: Seq<char>,
)
    ensures
        reads_from(s, peek_until_from(s, approve, offset, peeked).0),
    decreases pending_measure(s) + 1 - offset,
{
    lemma_peek_measure(s, offset);
    let (s1, r) = spec_peek(s, offset);
    if let ReadOutcome::Text(p) = r {
        if approve(p.last(), p) {
            lemma_peek_until_from_reads(s1, approve, offset + 1, p);
        }
    }
}

pub proof fn lemma_peek_until_reads(s: ReaderState, approve: spec_fn(char, Seq<char>) -> bool)
    ensures
        reads_from(s, spec_peek_until(s, approve).0),
{
    lemma_peek_until_from_reads(s, approve, 1, Seq::<char>::empty());
}

/// Matching a list of words reads from the input; a match of a nonempty word
/// consumes at least one byte.
pub proof fn lemma_match_words_reads(s: ReaderState, words: Seq<Seq<char>>, i: nat)
    requires
        forall|j: int| 0 <= j < words.len() ==> #[trigger] words[j].len() >= 1,
    ensures
        reads_from(s, match_words_from(s, words, i).0),
        match_words_from(s, words, i).1 is Matched ==> pending_measure(
            match_words_from(s, words, i).0,
        ) < pending_measure(s),
    decreases words.len() - i,
{
    if i < words.len() {
        let w = words[i as int];
        lemma_peek_measure(s, w.len());
        let (s1, r) = spec_peek(s, w.len());
        match r {
            ReadOutcome::Text(p) => {
                if p == w {
                    lemma_consume_measure(s1, p.len());
                } else {
                    lemma_match_words_reads(s1, words, i + 1);
                }
            },
            ReadOutcome::Nothing => {
                lemma_match_words_reads(s1, words, i + 1);
            },
            ReadOutcome::Failed => {},
        }
    }
}

/// A text of at least one character takes at least one byte.
pub proof fn lemma_nonempty_bytes(t: Seq<char>)
    requires
        t.len() >= 1,
    ensures
        utf8_len(t) >= 1,
{
    lemma_utf8_len_ge_len(t);
}

/// A lexing step reads from the input, and one that finds a token consumes at
/// least one byte.
pub open spec fn lexes_from(s: ReaderState, step: (ReaderState, Lexed)) -> bool {
    &&& reads_from(s, step.0)
    &&& step.1 is Found ==> pending_measure(step.0) < pending_measure(s)
}

/// After a peek of `amount` that gave text, at least `amount` characters are buffered,
/// so consuming `amount` gives text too.
pub proof fn lemma_consume_after_peek(s: ReaderState, amount: nat)
    requires
        amount >= 1,
        spec_peek(s, amount).1 is Text,
    ensures
        spec_consume(spec_peek(s, amount).0, amount).1 is Text,
{
    crate::input_reader::lemma_buffered(spec_peek(s, amount).0, amount);
}

pub proof fn lemma_comment_rest_reads(s: ReaderState, skip: nat, delimeter: Seq<char>, strip: bool)
    requires
        skip >= 1,
        spec_consume(s, skip).1 is Text,
    ensures
        reads_from(s, spec_comment_rest(s, skip, delimeter, strip).0),
        pending_measure(spec_comment_rest(s, skip, delimeter, strip).0) < pending_measure(s),
{
    lemma_consume_measure(s, skip);
    lemma_consume_to_delimeter_reads(spec_consume(s, skip).0, delimeter);
}

pub proof fn lemma_documentational_comment_progress(s: ReaderState)
    ensures
        lexes_from(s, spec_lex_documentational_comment(s)),
{
    lemma_peek_measure(s, 3);
    let (s1, r) = spec_peek(s, 3);
    if let ReadOutcome::Text(p) = r {
        if p.len() >= 3 && p[0] == '/' && p[1] == '*' && p[2] == '*' {
            lemma_consume_after_peek(s, 3);
            crate::input_reader::lemma_buffered(s1, 3);
            lemma_comment_rest_reads(s1, 3, "*/"@, true);
        }
    }
}

pub proof fn lemma_disposeable_comment_progress(s: ReaderState)
    ensures
        lexes_from(s, spec_lex_disposeable_comment(s)),
{
    lemma_peek_measure(s, 3);
    let (s1, r) = spec_peek(s, 3);
    if let ReadOutcome::Text(p) = r {
        crate::input_reader::lemma_buffered(s1, 3);
        crate::input_reader::lemma_buffered(s1, 2);
        crate::input_reader::lemma_buffered(s1, 1);
        if p.len() >= 1 && p[0] == '#' {
            lemma_comment_rest_reads(s1, 1, "\n"@, false);
        } else if p.len() >= 2 && p[0] == '/' && p[1] == '/' {
            lemma_comment_rest_reads(s1, 2, "\n"@, false);
        } else if p.len() >= 2 && p[0] == '/' && p[1] == '*' && !(p.len() >= 3 && p[2] == '*') {
            lemma_comment_rest_reads(s1, 2, "*/"@, true);
        }
    }
}

pub proof fn lemma_line_break_progress(s: ReaderState)
    ensures
        lexes_from(s, spec_lex_line_break(s)),
{
    lemma_peek_measure(s, 1);
    let (s1, r) = spec_peek(s, 1);
    if let ReadOutcome::Text(p) = r {
        if p == seq!['\n'] || p == seq!['\r'] {
            lemma_consume_measure(s1, 1);
            let (s2, r2) = spec_consume(s1, 1);
            lemma_skip_line_breaks_reads(s2, p[0]);
        }
    }
}

pub proof fn lemma_operator_progress(s: ReaderState)
    ensures
        lexes_from(s, spec_lex_operator(s)),
{
    assert forall|j: int| 0 <= j < operator_words().len() implies #[trigger] operator_words()[j].len() >= 1 by {
        reveal_strlit("|");
        reveal_strlit("{");
        reveal_strlit("}");
        reveal_strlit("(");
        reveal_strlit(")");
        reveal_strlit("[");
        reveal_strlit("]");
        reveal_strlit(",");
        reveal_strlit("?");
        reveal_strlit("&");
    }
    lemma_match_words_reads(s, operator_words(), 0);
}

pub proof fn lemma_keyword_progress(s: ReaderState)
    ensures
        lexes_from(s, spec_lex_keyword(s)),
{
    assert forall|j: int| 0 <= j < keyword_words().len() implies #[trigger] keyword_words()[j].len() >= 1 by {
        reveal_strlit("type");
        reveal_strlit("boolean");
        reveal_strlit("int8");
        reveal_strlit("int16");
        reveal_strlit("int32");
        reveal_strlit("int64");
        reveal_strlit("float32");
        reveal_strlit("float64");
        reveal_strlit("string");
        reveal_strlit("int");
        reveal_strlit("float");
    }
    lemma_match_words_reads(s, keyword_words(), 0);
}

pub proof fn lemma_boolean_word_progress(s: ReaderState, word: Seq<char>, value: bool)
    requires
        word.len() >= 1,
    ensures
        reads_from(s, boolean_word(s, word, value).0),
        boolean_word(s, word, value).1 matches Some(l) && l is Found ==> pending_measure(
            boolean_word(s, word, value).0,
        ) < pending_measure(s),
{
    lemma_peek_measure(s, word.len());
    let (s1, r) = spec_peek(s, word.len());
    lemma_peek_measure(s1, word.len() + 1);
    let (s2, r2) = spec_peek(s1, word.len() + 1);
    lemma_consume_measure(s2, word.len());
}

pub proof fn lemma_process_boolean_progress(s: ReaderState)
    ensures
        lexes_from(s, spec_process_boolean(s)),
{
    lemma_boolean_word_progress(s, seq!['t', 'r', 'u', 'e'], true);
    let s1 = boolean_word(s, seq!['t', 'r', 'u', 'e'], true).0;
    lemma_boolean_word_progress(s1, seq!['f', 'a', 'l', 's', 'e'], false);
}

pub proof fn lemma_process_string_progress(s: ReaderState)
    ensures
        lexes_from(s, spec_process_string(s)),
{
    lemma_peek_measure(s, 1);
    let (s1, r) = spec_peek(s, 1);
    lemma_peek_until_reads(s1, string_approval());
    let (s2, r2) = spec_peek_until(s1, string_approval());
    if let ReadOutcome::Text(ret) = r2 {
        let l = ret.len();
        lemma_peek_measure(s2, l + 1);
        let (s3, r3) = spec_peek(s2, l + 1);
        lemma_consume_measure(s3, 1);
        let (s4, r4) = spec_consume(s3, 1);
        lemma_consume_measure(s4, (l - 1) as nat);
        let (s5, r5) = spec_consume(s4, (l - 1) as nat);
        lemma_consume_measure(s5, 1);
    }
}

pub proof fn lemma_process_number_progress(s: ReaderState)
    ensures
        lexes_from(s, spec_process_number(s)),
{
    lemma_peek_measure(s, 1);
    let (s1, r) = spec_peek(s, 1);
    lemma_peek_until_reads(s1, number_approval());
    let (s2, r2) = spec_peek_until(s1, number_approval());
    if let ReadOutcome::Text(num) = r2 {
        lemma_consume_measure(s2, num.len());
        if num.len() >= 1 {
            lemma_nonempty_bytes(num);
        }
        if num.len() == 0 {
            assert(!is_decimal_float_text(num));
            assert(spec_parse_i32(num) is None);
        }
    }
}

pub proof fn lemma_literal_progress(s: ReaderState)
    ensures
        lexes_from(s, spec_lex_literal(s)),
{
    if literal_patterns_compile() {
        lemma_process_boolean_progress(s);
        let s1 = spec_process_boolean(s).0;
        lemma_process_string_progress(s1);
        let s2 = spec_process_string(s1).0;
        lemma_process_number_progress(s2);
    }
}

pub proof fn lemma_identifier_progress(s: ReaderState)
    ensures
        lexes_from(s, spec_lex_identifier(s)),
{
    lemma_peek_until_reads(s, crate::lexer::identifier::identifier_approval());
    let (s1, r) = spec_peek_until(s, crate::lexer::identifier::identifier_approval());
    if let ReadOutcome::Text(p) = r {
        lemma_consume_measure(s1, p.len());
    }
}

pub proof fn lemma_invalid_character_progress(s: ReaderState)
    ensures
        lexes_from(s, spec_lex_invalid_character(s)),
{
    lemma_consume_measure(s, 1);
}

} // verus!
