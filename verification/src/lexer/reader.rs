use vstd::prelude::*;

use crate::input_reader::{
    lemma_is_done_measure, pending_measure, spec_is_done, InputReader, InputReaderError,
    ReaderState,
};
use crate::lexer::disposeable_comment::spec_lex_disposeable_comment;
use crate::lexer::documentational_comment::spec_lex_documentational_comment;
use crate::lexer::identifier::spec_lex_identifier;
use crate::lexer::invalid_characters::spec_lex_invalid_character;
use crate::lexer::keyword::spec_lex_keyword;
use crate::lexer::line_break::spec_lex_line_break;
use crate::lexer::literal::spec_lex_literal;
use crate::lexer::operator::spec_lex_operator;
use crate::lexer::progress::{
    lemma_disposeable_comment_progress, lemma_documentational_comment_progress,
    lemma_identifier_progress, lemma_invalid_character_progress, lemma_keyword_progress,
    lemma_line_break_progress, lemma_literal_progress, lemma_operator_progress,
    lemma_skip_chars_reads, lexes_from, reads_from,
};
use crate::lexer::space::{skip_chars, Space};
use crate::lexer::token::{
    DisposeableComment, DocumentationalComment, Identifier, InvalidCharacters, Keyword, Lexed,
    LineBreak, Literal, Operator, Token, TokenView,
};
use crate::position::CodePosition;

verus! {

/// The outcome of one round of the lexer loop.
pub enum LexStep {
    /// The input could not be read.
    Failed,
    /// The input is exhausted.
    Stop,
    /// A token was read.
    Token(TokenView),
    /// Nothing was read this round (a line of the input was dropped on the way).
    Skip,
}

/// Turns the result of a token lexer into a step, or `None` when the lexer did
/// not find its token.
pub open spec fn found_step(r: (ReaderState, Lexed)) -> Option<(ReaderState, LexStep)> {
    match r.1 {
        Lexed::Failed => Some((r.0, LexStep::Failed)),
        Lexed::Found(t) => Some((r.0, LexStep::Token(t))),
        Lexed::Absent => None,
    }
}

/// Last resort: when input is left, its next character is an invalid one.
pub open spec fn stage_invalid(s: ReaderState) -> (ReaderState, LexStep) {
    let (s1, done) = spec_is_done(s);
    if done {
        (s1, LexStep::Stop)
    } else {
        let (s2, l) = spec_lex_invalid_character(s1);
        match l {
            Lexed::Failed => (s2, LexStep::Failed),
            Lexed::Found(t) => (s2, LexStep::Token(t)),
            Lexed::Absent => (s2, LexStep::Skip),
        }
    }
}

pub open spec fn stage_identifier(s: ReaderState) -> (ReaderState, LexStep) {
    let r = spec_lex_identifier(s);
    match found_step(r) {
        Some(step) => step,
        None => stage_invalid(r.0),
    }
}

pub open spec fn stage_literal(s: ReaderState) -> (ReaderState, LexStep) {
    let r = spec_lex_literal(s);
    match found_step(r) {
        Some(step) => step,
        None => stage_identifier(r.0),
    }
}

pub open spec fn stage_keyword(s: ReaderState) -> (ReaderState, LexStep) {
    let r = spec_lex_keyword(s);
    match found_step(r) {
        Some(step) => step,
        None => stage_literal(r.0),
    }
}

pub open spec fn stage_operator(s: ReaderState) -> (ReaderState, LexStep) {
    let r = spec_lex_operator(s);
    match found_step(r) {
        Some(step) => step,
        None => stage_keyword(r.0),
    }
}

pub open spec fn stage_line_break(s: ReaderState) -> (ReaderState, LexStep) {
    let r = spec_lex_line_break(s);
    match found_step(r) {
        Some(step) => step,
        None => stage_operator(r.0),
    }
}

/// Spaces and tabs are skipped before line breaks and the other tokens.
pub open spec fn stage_space(s: ReaderState) -> (ReaderState, LexStep) {
    let (s1, failed) = skip_chars(s, ' ', '\t');
    if failed {
        (s1, LexStep::Failed)
    } else {
        stage_line_break(s1)
    }
}

pub open spec fn stage_disposeable_comment(s: ReaderState) -> (ReaderState, LexStep) {
    let r = spec_lex_disposeable_comment(s);
    match found_step(r) {
        Some(step) => step,
        None => stage_space(r.0),
    }
}

pub open spec fn stage_documentational_comment(s: ReaderState) -> (ReaderState, LexStep) {
    let r = spec_lex_documentational_comment(s);
    match found_step(r) {
        Some(step) => step,
        None => stage_disposeable_comment(r.0),
    }
}

/// One round of the lexer loop. The lexers are tried in this order: documentational
/// comment, disposeable comment, (spaces are skipped), line break, operator,
/// keyword, literal, identifier, and, when input is left, an invalid character.
#[verifier::opaque]
pub open spec fn lex_step(s: ReaderState) -> (ReaderState, LexStep) {
    let (s1, done) = spec_is_done(s);
    if done {
        (s1, LexStep::Stop)
    } else {
        stage_documentational_comment(s1)
    }
}

/// A round that reads a token, or reads nothing but goes on, consumes input.
pub open spec fn step_progresses(s: ReaderState, r: (ReaderState, LexStep)) -> bool {
    &&& reads_from(s, r.0)
    &&& (r.1 is Token || r.1 is Skip) ==> pending_measure(r.0) < pending_measure(s)
}

proof fn lemma_found_step(s: ReaderState, r: (ReaderState, Lexed), rest: (ReaderState, LexStep))
    requires
        lexes_from(s, r),
        r.1 is Absent ==> step_progresses(r.0, rest),
    ensures
        step_progresses(
            s,
            match found_step(r) {
                Some(step) => step,
                None => rest,
            },
        ),
{
}

proof fn lemma_stage_invalid(s: ReaderState)
    ensures
        step_progresses(s, stage_invalid(s)),
{
    lemma_is_done_measure(s);
    let s1 = spec_is_done(s).0;
    lemma_invalid_character_progress(s1);
    if !spec_is_done(s).1 && crate::text::utf8_len(s1.buffer) >= 1 {
        crate::input_reader::lemma_buffered(s1, 1);
    }
}

proof fn lemma_stage_identifier(s: ReaderState)
    ensures
        step_progresses(s, stage_identifier(s)),
{
    lemma_identifier_progress(s);
    let r = spec_lex_identifier(s);
    lemma_stage_invalid(r.0);
    lemma_found_step(s, r, stage_invalid(r.0));
}

proof fn lemma_stage_literal(s: ReaderState)
    ensures
        step_progresses(s, stage_literal(s)),
{
    lemma_literal_progress(s);
    let r = spec_lex_literal(s);
    lemma_stage_identifier(r.0);
    lemma_found_step(s, r, stage_identifier(r.0));
}

proof fn lemma_stage_keyword(s: ReaderState)
    ensures
        step_progresses(s, stage_keyword(s)),
{
    lemma_keyword_progress(s);
    let r = spec_lex_keyword(s);
    lemma_stage_literal(r.0);
    lemma_found_step(s, r, stage_literal(r.0));
}

proof fn lemma_stage_operator(s: ReaderState)
    ensures
        step_progresses(s, stage_operator(s)),
{
    lemma_operator_progress(s);
    let r = spec_lex_operator(s);
    lemma_stage_keyword(r.0);
    lemma_found_step(s, r, stage_keyword(r.0));
}

proof fn lemma_stage_line_break(s: ReaderState)
    ensures
        step_progresses(s, stage_line_break(s)),
{
    lemma_line_break_progress(s);
    let r = spec_lex_line_break(s);
    lemma_stage_operator(r.0);
    lemma_found_step(s, r, stage_operator(r.0));
}

proof fn lemma_stage_space(s: ReaderState)
    ensures
        step_progresses(s, stage_space(s)),
{
    lemma_skip_chars_reads(s, ' ', '\t');
    lemma_stage_line_break(skip_chars(s, ' ', '\t').0);
}

proof fn lemma_stage_disposeable_comment(s: ReaderState)
    ensures
        step_progresses(s, stage_disposeable_comment(s)),
{
    lemma_disposeable_comment_progress(s);
    let r = spec_lex_disposeable_comment(s);
    lemma_stage_space(r.0);
    lemma_found_step(s, r, stage_space(r.0));
}

proof fn lemma_stage_documentational_comment(s: ReaderState)
    ensures
        step_progresses(s, stage_documentational_comment(s)),
{
    lemma_documentational_comment_progress(s);
    let r = spec_lex_documentational_comment(s);
    lemma_stage_disposeable_comment(r.0);
    lemma_found_step(s, r, stage_disposeable_comment(r.0));
}

pub proof fn lemma_lex_step_progress(s: ReaderState)
    ensures
        step_progresses(s, lex_step(s)),
{
    reveal(lex_step);
    lemma_is_done_measure(s);
    lemma_stage_documentational_comment(spec_is_done(s).0);
}

/// The tokens of the whole input: rounds are repeated until the input is
/// exhausted (the tokens read so far, `acc`, are returned) or cannot be read
/// (`None`).
pub open spec fn lex_all(s: ReaderState, acc: Seq<TokenView>) -> (ReaderState, Option<Seq<TokenView>>)
    decreases pending_measure(s),
{
    let (s1, step) = lex_step(s);
    proof {
        lemma_lex_step_progress(s);
    }
    match step {
        LexStep::Failed => (s1, None),
        LexStep::Stop => (s1, Some(acc)),
        LexStep::Token(t) => lex_all(s1, acc.push(t)),
        LexStep::Skip => lex_all(s1, acc),
    }
}

/// The tokens that lexing the input of a fresh reader gives, or `None` when the
/// input cannot be read.
pub open spec fn lex(s: ReaderState) -> Option<Seq<TokenView>> {
    lex_all(s, Seq::empty()).1
}

/// Runs one round of the lexer loop; see [`lex_step`]. `Ok(None)`: the input is
/// exhausted; `Ok(Some(None))`: nothing was read this round.
fn lex_next(reader: &mut InputReader) -> (res: Result<Option<Option<Token>>, InputReaderError>)
    requires
        old(reader).wf(),
    ensures
        res matches Err(e) ==> e is Utf8,
        final(reader).wf(),
        final(reader)@ == lex_step(old(reader)@).0,
        match lex_step(old(reader)@).1 {
            LexStep::Failed => res is Err,
            LexStep::Stop => res matches Ok(None),
            LexStep::Token(t) => res matches Ok(Some(Some(k))) && k@ == t,
            LexStep::Skip => res matches Ok(Some(None)),
        },
{
    reveal(lex_step);
    let ghost s = reader@;
    if reader.is_done() {
        return Ok(None);
    }
    assert(lex_step(s) == stage_documentational_comment(reader@));
    match DocumentationalComment::lex_documentational_comment(reader) {
        Err(e) => {
            return Err(e);
        },
        Ok(Some(v)) => {
            return Ok(Some(Some(Token::DocumentationalComment(v))));
        },
        Ok(None) => {},
    }
    assert(lex_step(s) == stage_disposeable_comment(reader@));
    match DisposeableComment::lex_disposeable_comment(reader) {
        Err(e) => {
            return Err(e);
        },
        Ok(Some(v)) => {
            return Ok(Some(Some(Token::DisposeableComment(v))));
        },
        Ok(None) => {},
    }
    assert(lex_step(s) == stage_space(reader@));
    match Space::skip_space(reader) {
        Err(e) => {
            return Err(e);
        },
        Ok(()) => {},
    }
    assert(lex_step(s) == stage_line_break(reader@));
    match LineBreak::lex_line_break(reader) {
        Err(e) => {
            return Err(e);
        },
        Ok(Some(v)) => {
            return Ok(Some(Some(Token::LineBreak(v))));
        },
        Ok(None) => {},
    }
    assert(lex_step(s) == stage_operator(reader@));
    match Operator::lex_operator(reader) {
        Err(e) => {
            return Err(e);
        },
        Ok(Some(v)) => {
            return Ok(Some(Some(Token::Operator(v))));
        },
        Ok(None) => {},
    }
    assert(lex_step(s) == stage_keyword(reader@));
    match Keyword::lex_keyword(reader) {
        Err(e) => {
            return Err(e);
        },
        Ok(Some(v)) => {
            return Ok(Some(Some(Token::Keyword(v))));
        },
        Ok(None) => {},
    }
    assert(lex_step(s) == stage_literal(reader@));
    match Literal::lex_literal(reader) {
        Err(e) => {
            return Err(e);
        },
        Ok(Some(v)) => {
            return Ok(Some(Some(Token::Literal(v))));
        },
        Ok(None) => {},
    }
    assert(lex_step(s) == stage_identifier(reader@));
    match Identifier::lex_identifier(reader) {
        Err(e) => {
            return Err(e);
        },
        Ok(Some(v)) => {
            return Ok(Some(Some(Token::Identifier(v))));
        },
        Ok(None) => {},
    }
    assert(lex_step(s) == stage_invalid(reader@));
    if reader.is_done() {
        return Ok(None);
    }
    match InvalidCharacters::lex_next_as_invalid_character(reader) {
        Err(e) => Err(e),
        Ok(Some(v)) => Ok(Some(Some(Token::InvalidCharacters(v)))),
        Ok(None) => Ok(Some(None)),
    }
}

/// The views of a sequence of tokens.
pub open spec fn token_views(tokens: Seq<Token>) -> Seq<TokenView> {
    tokens.map_values(|t: Token| t@)
}

/// Every answer that `f` can give for a token is `pred` of the token's view.
pub open spec fn token_approval_agrees<F: FnMut(Token) -> bool>(
    f: F,
    pred: spec_fn(TokenView) -> bool,
) -> bool {
    forall|t: Token, b: bool| #[trigger] call_ensures(f, (t,), b) ==> b == pred(t@)
}

/// `consume_until`: tokens are consumed one by one until `approve` rejects one
/// (which is consumed too) or none is left.
pub open spec fn consume_until_from(v: TokenReaderView, approve: spec_fn(TokenView) -> bool) -> TokenReaderView
    decreases v.tokens.len(),
{
    if v.tokens.len() == 0 {
        v
    } else {
        let t = v.tokens[0];
        let next = TokenReaderView { tokens: v.tokens.skip(1), last_start: t.start(), last_end: t.end() };
        if approve(t) {
            consume_until_from(next, approve)
        } else {
            next
        }
    }
}

pub proof fn lemma_token_views(tokens: Seq<Token>)
    ensures
        token_views(tokens).len() == tokens.len(),
        forall|i: int| 0 <= i < tokens.len() ==> #[trigger] token_views(tokens)[i] == tokens[i]@,
{
}

/// The logical state of a [`TokenReader`]: the tokens not yet consumed, and where
/// the last consumed token started and ended.
pub struct TokenReaderView {
    pub tokens: Seq<TokenView>,
    pub last_start: CodePosition,
    pub last_end: CodePosition,
}

/// What `peek(amount)` gives: the first `amount` tokens, or `None` when no token
/// is left or fewer than `amount` are.
pub open spec fn peek_tokens(v: TokenReaderView, amount: nat) -> Option<Seq<TokenView>> {
    if v.tokens.len() == 0 || amount > v.tokens.len() {
        None
    } else {
        Some(v.tokens.take(amount as int))
    }
}

/// The state after `consume(amount)`: the first `amount` tokens are gone and
/// the last of them is remembered; unchanged when they can't be provided.
pub open spec fn consume_tokens(v: TokenReaderView, amount: nat) -> TokenReaderView {
    if v.tokens.len() == 0 || amount > v.tokens.len() || amount == 0 {
        v
    } else {
        TokenReaderView {
            tokens: v.tokens.skip(amount as int),
            last_start: v.tokens[amount - 1].start(),
            last_end: v.tokens[amount - 1].end(),
        }
    }
}

/// Consuming the tokens that a peek showed: they leave the front of the buffer,
/// the rest stays in order, and the last of them is remembered. When a peek of
/// that amount shows nothing, consuming it changes nothing.
pub proof fn law_consume_takes_peeked(v: TokenReaderView, amount: nat)
    requires
        amount >= 1,
    ensures
        peek_tokens(v, amount) matches Some(peeked) ==> peeked + consume_tokens(v, amount).tokens
            == v.tokens && consume_tokens(v, amount).last_start == peeked.last().start()
            && consume_tokens(v, amount).last_end == peeked.last().end(),
        peek_tokens(v, amount) is None ==> consume_tokens(v, amount) == v,
{
    if let Some(peeked) = peek_tokens(v, amount) {
        assert(peeked + consume_tokens(v, amount).tokens =~= v.tokens);
    }
}

/// Wraps around an input reader and lexes the input into tokens.
pub struct TokenReader {
    buffer: Vec<Token>,
    last_token_code_start: CodePosition,
    last_token_code_end: CodePosition,
}

impl View for TokenReader {
    type V = TokenReaderView;

    closed spec fn view(&self) -> TokenReaderView {
        TokenReaderView {
            tokens: token_views(self.buffer@),
            last_start: self.last_token_code_start,
            last_end: self.last_token_code_end,
        }
    }
}

impl TokenReader {
    /// Creates a new token reader: the whole input is lexed into tokens.
    pub fn new(reader: InputReader) -> (res: Result<TokenReader, InputReaderError>)
        requires
            reader.wf(),
        ensures
            res matches Err(e) ==> e is Utf8,
            lex(reader@) is None ==> res is Err,
            lex(reader@) matches Some(tokens) ==> res matches Ok(r) && r@ == (TokenReaderView {
                tokens,
                last_start: CodePosition { line: 0, character: 0 },
                last_end: CodePosition { line: 0, character: 0 },
            }),
    {
        let mut ret = TokenReader {
            buffer: Vec::new(),
            last_token_code_start: CodePosition { line: 0, character: 0 },
            last_token_code_end: CodePosition { line: 0, character: 0 },
        };
        assert(token_views(ret.buffer@) =~= Seq::<TokenView>::empty());
        match ret.run(reader) {
            Err(e) => Err(e),
            Ok(()) => Ok(ret),
        }
    }

    /// Lexes the rest of the input and appends the tokens to the buffer.
    fn run(&mut self, input: InputReader) -> (res: Result<(), InputReaderError>)
        requires
            input.wf(),
        ensures
            res matches Err(e) ==> e is Utf8,
            lex_all(input@, old(self)@.tokens).1 is None ==> res is Err,
            lex_all(input@, old(self)@.tokens).1 matches Some(tokens) ==> res is Ok
                && final(self)@.tokens == tokens && final(self)@.last_start == old(self)@.last_start
                && final(self)@.last_end == old(self)@.last_end,
    {
        let mut reader = input;
        loop
            invariant
                reader.wf(),
                lex_all(reader@, self@.tokens) == lex_all(input@, old(self)@.tokens),
                self@.last_start == old(self)@.last_start,
                self@.last_end == old(self)@.last_end,
            decreases pending_measure(reader@),
        {
            let ghost s = reader@;
            proof {
                lemma_lex_step_progress(s);
            }
            match lex_next(&mut reader) {
                Err(e) => {
                    return Err(e);
                },
                Ok(None) => {
                    return Ok(());
                },
                Ok(Some(Some(token))) => {
                    let ghost before = self.buffer@;
                    self.buffer.push(token);
                    assert(token_views(self.buffer@) =~= token_views(before).push(token@));
                },
                Ok(Some(None)) => {},
            }
        }
    }

    /// Returns a given amount of tokens without consuming them. Returns none when
    /// the amount requested can't be provided or no tokens are left.
    pub fn peek(&self, amount: usize) -> (res: Option<&[Token]>)
        ensures
            self@.tokens.len() == 0 || amount > self@.tokens.len() ==> res is None,
            0 < self@.tokens.len() && amount <= self@.tokens.len() ==> (res matches Some(elements)
                && token_views(elements@) == self@.tokens.take(amount as int)),
    {
        if self.buffer.len() == 0 || amount > self.buffer.len() {
            return None;
        }
        let elements = &self.buffer.as_slice()[0..amount];
        assert(token_views(elements@) =~= self@.tokens.take(amount as int));
        Some(elements)
    }

    /// Consumes a given amount of tokens. Returns none when the amount requested
    /// can't be provided; then no tokens are consumed at all.
    pub fn consume(&mut self, amount: usize) -> (res: Option<Vec<Token>>)
        requires
            amount >= 1 || old(self)@.tokens.len() == 0,
        ensures
            old(self)@.tokens.len() == 0 || amount > old(self)@.tokens.len() ==> res is None
                && final(self)@ == old(self)@,
            0 < old(self)@.tokens.len() && amount <= old(self)@.tokens.len() ==> (res matches Some(
                elements,
            ) && token_views(elements@) == old(self)@.tokens.take(amount as int)),
            0 < old(self)@.tokens.len() && amount <= old(self)@.tokens.len() ==> final(self)@ == (
            TokenReaderView {
                tokens: old(self)@.tokens.skip(amount as int),
                last_start: old(self)@.tokens[amount - 1].start(),
                last_end: old(self)@.tokens[amount - 1].end(),
            }),
    {
        if self.buffer.len() == 0 || amount > self.buffer.len() {
            return None;
        }
        let ghost before = self.buffer@;
        let mut elements = self.buffer.split_off(amount);
        std::mem::swap(&mut self.buffer, &mut elements);
        assert(elements@ =~= before.take(amount as int));
        assert(self.buffer@ =~= before.skip(amount as int));
        assert(token_views(elements@) =~= token_views(before).take(amount as int));
        assert(token_views(self.buffer@) =~= token_views(before).skip(amount as int));
        let last = &elements[amount - 1];
        self.last_token_code_start = last.start();
        self.last_token_code_end = last.end();
        Some(elements)
    }

    /// Consumes tokens one by one and hands each to `approve`, until `approve`
    /// returns false (that token is consumed too) or no token is left.
    #[verifier::loop_isolation(false)]
    pub fn consume_until<F: FnMut(Token) -> bool>(&mut self, mut approve: F)
        requires
            forall|t: Token| #[trigger] call_requires(approve, (t,)),
        ensures
            forall|pred: spec_fn(TokenView) -> bool| #[trigger]
                token_approval_agrees(approve, pred) ==> final(self)@ == consume_until_from(
                    old(self)@,
                    pred,
                ),
    {
        let ghost f0 = approve;
        loop
            invariant
                approve == f0,
                forall|t: Token| #[trigger] call_requires(approve, (t,)),
                forall|pred: spec_fn(TokenView) -> bool| #[trigger]
                    token_approval_agrees(approve, pred) ==> consume_until_from(self@, pred)
                        == consume_until_from(old(self)@, pred),
            decreases self@.tokens.len(),
        {
            if self.is_done() {
                return;
            }
            let ghost before = self@;
            let mut consumed = match self.consume(1) {
                None => {
                    return;
                },
                Some(v) => v,
            };
            let ghost taken = consumed@;
            assert(token_views(taken).len() == taken.len());
            assert(token_views(taken)[0] == taken[0]@);
            let token = match consumed.pop() {
                None => {
                    return;
                },
                Some(t) => t,
            };
            assert(token@ == before.tokens[0]);
            let ghost view = token@;
            let accepted = approve(token);
            assert forall|pred: spec_fn(TokenView) -> bool| #[trigger]
                token_approval_agrees(approve, pred) implies consume_until_from(before, pred) == (
                if accepted {
                    consume_until_from(self@, pred)
                } else {
                    self@
                }) by {
                assert(accepted == pred(view));
            }
            if !accepted {
                return;
            }
        }
    }

    /// Where the last consumed token starts.
    pub fn last_token_code_start(&self) -> (res: &CodePosition)
        ensures
            *res == self@.last_start,
    {
        &self.last_token_code_start
    }

    /// Where the last consumed token ends.
    pub fn last_token_code_end(&self) -> (res: &CodePosition)
        ensures
            *res == self@.last_end,
    {
        &self.last_token_code_end
    }

    /// How many tokens are left.
    pub(crate) fn remaining(&self) -> (n: usize)
        ensures
            n == self@.tokens.len(),
    {
        proof {
            lemma_token_views(self.buffer@);
        }
        self.buffer.len()
    }

    /// Whether all tokens were consumed.
    pub fn is_done(&self) -> (res: bool)
        ensures
            res == (self@.tokens.len() == 0),
    {
        self.buffer.len() == 0
    }
}

} // verus!
