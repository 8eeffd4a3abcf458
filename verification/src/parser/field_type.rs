use vstd::prelude::*;

use crate::lexer::reader::{
    consume_tokens, token_views, lemma_token_views, peek_tokens, TokenReader, TokenReaderView,
};
use crate::lexer::token::{KeywordType, LiteralType, LiteralView, OperatorType, Token, TokenView};
use crate::position::CodePosition;
use crate::parser::error::{error_at_last, error_at_token, result_view, ParseError, ParseErrorView};

verus! {

/// The primitive types of the language.
#[derive(Clone, Copy, Debug, PartialEq, Eq, Structural)]
pub enum PrimitiveType {
    Boolean,
    Int8,
    Int16,
    Int32,
    Int64,
    Float32,
    Float64,
    String,
}

/// Whether a type is an array, and of what length.
#[derive(Clone, Copy, Debug, PartialEq, Eq, Structural)]
pub enum ArrayAmount {
    NoArray,
    NoLengthSpecified,
    LengthSpecified(i32),
}

/// A primitive type, possibly as an array.
#[derive(Clone, Copy, Debug, PartialEq, Eq, Structural)]
pub struct Primitive {
    pub primitive_type: PrimitiveType,
    pub array_amount: ArrayAmount,
}

/// A reference to a custom type, possibly as an array.
#[derive(Debug)]
pub struct Custom {
    pub array_amount: ArrayAmount,
    pub identifier: String,
}

/// One of the alternatives of an enum type.
#[derive(Debug)]
pub enum EnumType {
    Literal(LiteralType),
    Primitive(Primitive),
    Custom(Custom),
}

/// An enum type: one of several alternatives.
#[derive(Debug)]
pub struct Enum {
    pub values: Vec<EnumType>,
}

/// The type of a parameter, field or return value.
#[derive(Debug)]
pub enum Type {
    Primitive(Primitive),
    Enum(Enum),
    Custom(Custom),
}

impl View for ArrayAmount {
    type V = ArrayAmount;

    open spec fn view(&self) -> ArrayAmount {
        *self
    }
}

impl View for Primitive {
    type V = Primitive;

    open spec fn view(&self) -> Primitive {
        *self
    }
}

pub struct CustomView {
    pub array_amount: ArrayAmount,
    pub identifier: Seq<char>,
}

impl View for Custom {
    type V = CustomView;

    open spec fn view(&self) -> CustomView {
        CustomView { array_amount: self.array_amount, identifier: self.identifier@ }
    }
}

pub enum EnumTypeView {
    Literal(LiteralView),
    Primitive(Primitive),
    Custom(CustomView),
}

impl View for EnumType {
    type V = EnumTypeView;

    open spec fn view(&self) -> EnumTypeView {
        match self {
            EnumType::Literal(l) => EnumTypeView::Literal(l@),
            EnumType::Primitive(p) => EnumTypeView::Primitive(*p),
            EnumType::Custom(c) => EnumTypeView::Custom(c@),
        }
    }
}

pub open spec fn enum_views(values: Seq<EnumType>) -> Seq<EnumTypeView> {
    values.map_values(|v: EnumType| v@)
}

pub enum TypeView {
    Primitive(Primitive),
    Enum(Seq<EnumTypeView>),
    Custom(CustomView),
}

impl View for Type {
    type V = TypeView;

    open spec fn view(&self) -> TypeView {
        match self {
            Type::Primitive(p) => TypeView::Primitive(*p),
            Type::Enum(e) => TypeView::Enum(enum_views(e.values@)),
            Type::Custom(c) => TypeView::Custom(c@),
        }
    }
}

/// The primitive type that a keyword names; `type` names none. `int` is a
/// 16-bit and `float` a 32-bit type.
pub open spec fn primitive_of(k: KeywordType) -> Option<PrimitiveType> {
    match k {
        KeywordType::Boolean => Some(PrimitiveType::Boolean),
        KeywordType::Int8 => Some(PrimitiveType::Int8),
        KeywordType::Int16 => Some(PrimitiveType::Int16),
        KeywordType::Int32 => Some(PrimitiveType::Int32),
        KeywordType::Int64 => Some(PrimitiveType::Int64),
        KeywordType::Float32 => Some(PrimitiveType::Float32),
        KeywordType::Float64 => Some(PrimitiveType::Float64),
        KeywordType::String => Some(PrimitiveType::String),
        KeywordType::Int => Some(PrimitiveType::Int16),
        KeywordType::Float => Some(PrimitiveType::Float32),
        KeywordType::Type => None,
    }
}

/// `[` `]` or `[` length `]` behind a type. Without a `[` as the first of at
/// least two tokens there is no array. The length must be an integer of at
/// least 1, and a `]` must follow it: a length that is not closed is the error
/// "Expected closing bracket" (at the token behind it, or at the length when
/// nothing follows), where a bare consume of the next token would accept any
/// token, or none, as the closing bracket.
pub open spec fn spec_parse_array_length(v: TokenReaderView) -> (TokenReaderView, Result<
    ArrayAmount,
    ParseErrorView,
>) {
    match peek_tokens(v, 2) {
        None => (v, Ok(ArrayAmount::NoArray)),
        Some(p) => {
            if !(p[0] matches TokenView::Operator {
                operator_type: OperatorType::SquareOpenBracket,
                ..
            }) {
                (v, Ok(ArrayAmount::NoArray))
            } else {
                let v1 = consume_tokens(v, 1);
                let t = v1.tokens[0];
                let v2 = consume_tokens(v1, 1);
                match t {
                    TokenView::Operator { operator_type: OperatorType::SquareCloseBracket, .. } => (
                        v2,
                        Ok(ArrayAmount::NoLengthSpecified),
                    ),
                    TokenView::Literal { literal_type: LiteralView::Integer(i), .. } => {
                        if i < 1 {
                            (
                                v2,
                                Err(
                                    error_at_last(v2, "Size of the array must be above or equal to 1"@),
                                ),
                            )
                        } else if v2.tokens.len() == 0 {
                            (v2, Err(error_at_last(v2, "Expected closing bracket"@)))
                        } else if v2.tokens[0] matches TokenView::Operator {
                            operator_type: OperatorType::SquareCloseBracket,
                            ..
                        } {
                            (consume_tokens(v2, 1), Ok(ArrayAmount::LengthSpecified(i)))
                        } else {
                            (v2, Err(error_at_token(v2.tokens[0], "Expected closing bracket"@)))
                        }
                    },
                    _ => (v2, Err(error_at_token(t, "Expected integer or closing bracket"@))),
                }
            }
        },
    }
}

/// The token is the operator `op`.
pub open spec fn is_operator(t: TokenView, op: OperatorType) -> bool {
    match t {
        TokenView::Operator { operator_type, .. } => operator_type == op,
        _ => false,
    }
}

/// The token is the integer literal `n`.
pub open spec fn is_integer(t: TokenView, n: i32) -> bool {
    match t {
        TokenView::Literal { literal_type: LiteralView::Integer(m), .. } => m == n,
        _ => false,
    }
}

/// The array part behind a type: `[n]` with an integer `n` of at least 1 is an
/// array of length `n` and takes the three tokens; with `n` below 1 it is the
/// error "Size of the array must be above or equal to 1"; `[]` is an array
/// without length; without a leading `[` there is no array and nothing is taken.
pub proof fn law_array_length(v: TokenReaderView, n: i32)
    ensures
        v.tokens.len() >= 3 && is_operator(v.tokens[0], OperatorType::SquareOpenBracket)
            && is_integer(v.tokens[1], n) && is_operator(v.tokens[2], OperatorType::SquareCloseBracket)
            && n >= 1 ==> spec_parse_array_length(v).1 == Ok::<ArrayAmount, ParseErrorView>(
            ArrayAmount::LengthSpecified(n),
        ) && spec_parse_array_length(v).0.tokens == v.tokens.skip(3),
        v.tokens.len() >= 2 && is_operator(v.tokens[0], OperatorType::SquareOpenBracket)
            && is_integer(v.tokens[1], n) && n < 1 ==> (spec_parse_array_length(v).1 matches Err(e)
            && e.message == "Size of the array must be above or equal to 1"@),
        v.tokens.len() >= 2 && is_operator(v.tokens[0], OperatorType::SquareOpenBracket)
            && is_operator(v.tokens[1], OperatorType::SquareCloseBracket) ==> spec_parse_array_length(
            v,
        ).1 == Ok::<ArrayAmount, ParseErrorView>(ArrayAmount::NoLengthSpecified)
            && spec_parse_array_length(v).0.tokens == v.tokens.skip(2),
        !(v.tokens.len() >= 1 && is_operator(v.tokens[0], OperatorType::SquareOpenBracket))
            ==> spec_parse_array_length(v) == (v, Ok::<ArrayAmount, ParseErrorView>(ArrayAmount::NoArray)),
{
    if v.tokens.len() >= 2 {
        assert(v.tokens.skip(1).skip(1) =~= v.tokens.skip(2));
        if v.tokens.len() >= 3 {
            assert(v.tokens.skip(2).skip(1) =~= v.tokens.skip(3));
        }
    }
}

/// Consumes one token, which must be there, and returns it.
pub(crate) fn take_token(reader: &mut TokenReader) -> (res: Token)
    requires
        old(reader)@.tokens.len() >= 1,
    ensures
        res@ == old(reader)@.tokens[0],
        final(reader)@ == consume_tokens(old(reader)@, 1),
{
    let ghost tokens = reader@.tokens;
    let mut taken = reader.consume(1).unwrap();
    proof {
        lemma_token_views(taken@);
        assert(token_views(taken@)[0] == tokens.take(1)[0]);
    }
    let ghost first = taken@[0];
    let token = taken.pop().unwrap();
    assert(token == first);
    token
}

/// A new `String` with the text of `s`.
pub(crate) fn text(s: &str) -> (res: String)
    ensures
        res@ == s@,
{
    s.to_string()
}

fn parse_array_length(reader: &mut TokenReader) -> (res: Result<ArrayAmount, ParseError>)
    ensures
        final(reader)@ == spec_parse_array_length(old(reader)@).0,
        result_view(res) == spec_parse_array_length(old(reader)@).1,
{
    let opened = match reader.peek(2) {
        None => {
            return Ok(ArrayAmount::NoArray);
        },
        Some(p) => {
            proof {
                lemma_token_views(p@);
            }
            match &p[0] {
                Token::Operator(op) => op.operator_type == OperatorType::SquareOpenBracket,
                _ => false,
            }
        },
    };
    if !opened {
        return Ok(ArrayAmount::NoArray);
    }
    let _ = take_token(reader);
    let token = take_token(reader);
    let start = token.start();
    let end = token.end();
    match token {
        Token::Operator(op) => {
            if op.operator_type == OperatorType::SquareCloseBracket {
                Ok(ArrayAmount::NoLengthSpecified)
            } else {
                Err(ParseError { start, end, message: text("Expected integer or closing bracket") })
            }
        },
        Token::Literal(literal) => match literal.literal_type {
            LiteralType::Integer(i) => {
                if i < 1 {
                    Err(
                        ParseError {
                            start: *reader.last_token_code_start(),
                            end: *reader.last_token_code_end(),
                            message: text("Size of the array must be above or equal to 1"),
                        },
                    )
                } else {
                    let closed = match reader.peek(1) {
                        None => {
                            return Err(
                                ParseError {
                                    start: *reader.last_token_code_start(),
                                    end: *reader.last_token_code_end(),
                                    message: text("Expected closing bracket"),
                                },
                            );
                        },
                        Some(p) => {
                            proof {
                                lemma_token_views(p@);
                                assert(reader@.tokens.take(1)[0] == reader@.tokens[0]);
                                assert(p@[0]@ == reader@.tokens[0]);
                            }
                            let start = p[0].start();
                            let end = p[0].end();
                            match &p[0] {
                                Token::Operator(op) => if op.operator_type
                                    == OperatorType::SquareCloseBracket {
                                    None
                                } else {
                                    Some((start, end))
                                },
                                _ => Some((start, end)),
                            }
                        },
                    };
                    assert(reader@.tokens.len() > 0);
                    match closed {
                        None => {
                            assert(reader@.tokens[0] matches TokenView::Operator {
                                operator_type: OperatorType::SquareCloseBracket,
                                ..
                            });
                            let _ = reader.consume(1);
                            Ok(ArrayAmount::LengthSpecified(i))
                        },
                        Some((start, end)) => Err(
                            ParseError { start, end, message: text("Expected closing bracket") },
                        ),
                    }
                }
            },
            _ => Err(ParseError { start, end, message: text("Expected integer or closing bracket") }),
        },
        _ => Err(ParseError { start, end, message: text("Expected integer or closing bracket") }),
    }
}

/// The wrapped result, or the error.
pub open spec fn map_ok<A, B>(r: Result<A, ParseErrorView>, f: spec_fn(A) -> B) -> Result<B, ParseErrorView> {
    match r {
        Ok(a) => Ok(f(a)),
        Err(e) => Err(e),
    }
}

/// A keyword, which is the first token, as a primitive type with its array part.
pub open spec fn spec_parse_primitive(v: TokenReaderView) -> (TokenReaderView, Result<
    Primitive,
    ParseErrorView,
>) {
    let t = v.tokens[0];
    let v1 = consume_tokens(v, 1);
    match t {
        TokenView::Keyword { keyword_type, start, .. } => match primitive_of(keyword_type) {
            None => (
                v1,
                Err(ParseErrorView { start, end: start, message: "Invalid keyword for primitive type"@ }),
            ),
            Some(pt) => {
                let (v2, a) = spec_parse_array_length(v1);
                (v2, map_ok(a, |a: ArrayAmount| Primitive { primitive_type: pt, array_amount: a }))
            },
        },
        _ => (
            v1,
            Err(
                ParseErrorView {
                    start: t.start(),
                    end: t.start(),
                    message: "Invalid token for primitive type"@,
                },
            ),
        ),
    }
}

/// An identifier, which is the first token, as a custom type with its array part.
pub open spec fn spec_parse_custom(v: TokenReaderView) -> (TokenReaderView, Result<
    CustomView,
    ParseErrorView,
>) {
    let t = v.tokens[0];
    let v1 = consume_tokens(v, 1);
    match t {
        TokenView::Identifier { content, .. } => {
            let (v2, a) = spec_parse_array_length(v1);
            (v2, map_ok(a, |a: ArrayAmount| CustomView { array_amount: a, identifier: content }))
        },
        _ => (v1, Err(error_at_token(t, "Invalid token for custom type"@))),
    }
}

pub proof fn lemma_array_length_consumes(v: TokenReaderView)
    ensures
        spec_parse_array_length(v).0.tokens.len() <= v.tokens.len(),
{
}

pub proof fn lemma_primitive_consumes(v: TokenReaderView)
    requires
        v.tokens.len() >= 1,
    ensures
        spec_parse_primitive(v).0.tokens.len() < v.tokens.len(),
{
    lemma_array_length_consumes(consume_tokens(v, 1));
}

pub proof fn lemma_custom_consumes(v: TokenReaderView)
    requires
        v.tokens.len() >= 1,
    ensures
        spec_parse_custom(v).0.tokens.len() < v.tokens.len(),
{
    lemma_array_length_consumes(consume_tokens(v, 1));
}

/// One alternative of an enum: a literal, a primitive type or a custom type.
pub open spec fn spec_parse_enum_value(v: TokenReaderView) -> (TokenReaderView, Result<
    EnumTypeView,
    ParseErrorView,
>) {
    let t = v.tokens[0];
    match t {
        TokenView::Literal { literal_type, .. } => (
            consume_tokens(v, 1),
            Ok(EnumTypeView::Literal(literal_type)),
        ),
        TokenView::Keyword { .. } => {
            let (v1, p) = spec_parse_primitive(v);
            (v1, map_ok(p, |p: Primitive| EnumTypeView::Primitive(p)))
        },
        TokenView::Identifier { .. } => {
            let (v1, c) = spec_parse_custom(v);
            (v1, map_ok(c, |c: CustomView| EnumTypeView::Custom(c)))
        },
        _ => (consume_tokens(v, 1), Err(error_at_token(t, "Expected literal token"@))),
    }
}

pub proof fn lemma_enum_value_consumes(v: TokenReaderView)
    requires
        v.tokens.len() >= 1,
    ensures
        spec_parse_enum_value(v).0.tokens.len() < v.tokens.len(),
{
    lemma_primitive_consumes(v);
    lemma_custom_consumes(v);
}

/// The alternatives of an enum, separated by `|`; `acc` holds those read so far.
pub open spec fn enum_values_from(v: TokenReaderView, acc: Seq<EnumTypeView>) -> (
    TokenReaderView,
    Result<Seq<EnumTypeView>, ParseErrorView>,
)
    decreases v.tokens.len(),
{
    if v.tokens.len() == 0 {
        (v, Err(error_at_last(v, "Expected a literal for this enum type"@)))
    } else {
        let (v1, value) = spec_parse_enum_value(v);
        proof {
            lemma_enum_value_consumes(v);
        }
        match value {
            Err(e) => (v1, Err(e)),
            Ok(x) => {
                let acc2 = acc.push(x);
                match peek_tokens(v1, 1) {
                    None => (v1, Ok(acc2)),
                    Some(n) => {
                        if n[0] matches TokenView::Operator { operator_type: OperatorType::Pipe, .. } {
                            enum_values_from(consume_tokens(v1, 1), acc2)
                        } else {
                            (v1, Ok(acc2))
                        }
                    },
                }
            },
        }
    }
}

pub proof fn lemma_enum_values_consumes(v: TokenReaderView, acc: Seq<EnumTypeView>)
    ensures
        enum_values_from(v, acc).0.tokens.len() <= v.tokens.len(),
        v.tokens.len() >= 1 ==> enum_values_from(v, acc).0.tokens.len() < v.tokens.len(),
    decreases v.tokens.len(),
{
    if v.tokens.len() > 0 {
        lemma_enum_value_consumes(v);
        let (v1, value) = spec_parse_enum_value(v);
        if let Ok(x) = value {
            if v1.tokens.len() > 0 {
                lemma_enum_values_consumes(consume_tokens(v1, 1), acc.push(x));
            }
        }
    }
}

/// `parse_field_type`: by its first token, a primitive type (a keyword), an enum
/// (a literal) or a custom type (an identifier).
pub open spec fn spec_parse_field_type(v: TokenReaderView) -> (TokenReaderView, Result<
    TypeView,
    ParseErrorView,
>) {
    match peek_tokens(v, 1) {
        None => (v, Err(error_at_last(v, "Expected a parameter type"@))),
        Some(p) => match p[0] {
            TokenView::Keyword { .. } => {
                let (v1, r) = spec_parse_primitive(v);
                (v1, map_ok(r, |p: Primitive| TypeView::Primitive(p)))
            },
            TokenView::Literal { .. } => {
                let (v1, r) = enum_values_from(v, Seq::empty());
                (v1, map_ok(r, |e: Seq<EnumTypeView>| TypeView::Enum(e)))
            },
            TokenView::Identifier { .. } => {
                let (v1, r) = spec_parse_custom(v);
                (v1, map_ok(r, |c: CustomView| TypeView::Custom(c)))
            },
            _ => (v, Err(error_at_last(v, "Expected a parameter type"@))),
        },
    }
}

pub proof fn lemma_field_type_consumes(v: TokenReaderView)
    ensures
        spec_parse_field_type(v).0.tokens.len() <= v.tokens.len(),
        spec_parse_field_type(v).1 is Ok ==> spec_parse_field_type(v).0.tokens.len()
            < v.tokens.len(),
{
    if v.tokens.len() >= 1 {
        lemma_primitive_consumes(v);
        lemma_custom_consumes(v);
        lemma_enum_values_consumes(v, Seq::empty());
    }
}

fn primitive_of_exec(k: KeywordType) -> (res: Option<PrimitiveType>)
    ensures
        res == primitive_of(k),
{
    match k {
        KeywordType::Boolean => Some(PrimitiveType::Boolean),
        KeywordType::Int8 => Some(PrimitiveType::Int8),
        KeywordType::Int16 => Some(PrimitiveType::Int16),
        KeywordType::Int32 => Some(PrimitiveType::Int32),
        KeywordType::Int64 => Some(PrimitiveType::Int64),
        KeywordType::Float32 => Some(PrimitiveType::Float32),
        KeywordType::Float64 => Some(PrimitiveType::Float64),
        KeywordType::String => Some(PrimitiveType::String),
        KeywordType::Int => Some(PrimitiveType::Int16),
        KeywordType::Float => Some(PrimitiveType::Float32),
        KeywordType::Type => None,
    }
}

fn parse_primitive(reader: &mut TokenReader) -> (res: Result<Primitive, ParseError>)
    requires
        old(reader)@.tokens.len() >= 1,
    ensures
        final(reader)@ == spec_parse_primitive(old(reader)@).0,
        result_view(res) == spec_parse_primitive(old(reader)@).1,
{
    let token = take_token(reader);
    match token {
        Token::Keyword(keyword) => match primitive_of_exec(keyword.keyword_type) {
            None => Err(
                ParseError {
                    start: keyword.start,
                    end: keyword.start,
                    message: text("Invalid keyword for primitive type"),
                },
            ),
            Some(primitive_type) => match parse_array_length(reader) {
                Ok(array_amount) => Ok(Primitive { primitive_type, array_amount }),
                Err(e) => Err(e),
            },
        },
        other => {
            let start = other.start();
            Err(ParseError { start, end: start, message: text("Invalid token for primitive type") })
        },
    }
}

fn parse_custom(reader: &mut TokenReader) -> (res: Result<Custom, ParseError>)
    requires
        old(reader)@.tokens.len() >= 1,
    ensures
        final(reader)@ == spec_parse_custom(old(reader)@).0,
        result_view(res) == spec_parse_custom(old(reader)@).1,
{
    let token = take_token(reader);
    match token {
        Token::Identifier(id) => match parse_array_length(reader) {
            Ok(array_amount) => Ok(Custom { array_amount, identifier: id.content }),
            Err(e) => Err(e),
        },
        other => Err(
            ParseError {
                start: other.start(),
                end: other.end(),
                message: text("Invalid token for custom type"),
            },
        ),
    }
}

/// The kind of the first token, for the decisions of the parser.
pub(crate) enum Lead {
    DocumentationalComment,
    DisposeableComment,
    Identifier,
    Keyword,
    Literal,
    LineBreak,
    Operator(OperatorType),
    Other,
}

pub(crate) open spec fn lead_of(t: TokenView) -> Lead {
    match t {
        TokenView::DocumentationalComment { .. } => Lead::DocumentationalComment,
        TokenView::DisposeableComment { .. } => Lead::DisposeableComment,
        TokenView::Identifier { .. } => Lead::Identifier,
        TokenView::Keyword { .. } => Lead::Keyword,
        TokenView::Literal { .. } => Lead::Literal,
        TokenView::LineBreak { .. } => Lead::LineBreak,
        TokenView::Operator { operator_type, .. } => Lead::Operator(operator_type),
        TokenView::InvalidCharacters { .. } => Lead::Other,
    }
}

/// The kind of the token at `index`, or `None` when fewer than `index + 1`
/// tokens are left.
pub(crate) fn lead_at(reader: &TokenReader, index: usize) -> (res: Option<Lead>)
    requires
        index < usize::MAX,
    ensures
        index + 1 > reader@.tokens.len() ==> res is None,
        index + 1 <= reader@.tokens.len() ==> res == Some(lead_of(reader@.tokens[index as int])),
{
    match reader.peek(index + 1) {
        None => None,
        Some(p) => {
            proof {
                lemma_token_views(p@);
                assert(token_views(p@)[index as int] == reader@.tokens.take(index + 1)[index as int]);
            }
            Some(
                match &p[index] {
                    Token::DocumentationalComment(_) => Lead::DocumentationalComment,
                    Token::DisposeableComment(_) => Lead::DisposeableComment,
                    Token::Identifier(_) => Lead::Identifier,
                    Token::Keyword(_) => Lead::Keyword,
                    Token::Literal(_) => Lead::Literal,
                    Token::LineBreak(_) => Lead::LineBreak,
                    Token::Operator(op) => Lead::Operator(op.operator_type),
                    Token::InvalidCharacters(_) => Lead::Other,
                },
            )
        },
    }
}

fn parse_enum_value(reader: &mut TokenReader) -> (res: Result<EnumType, ParseError>)
    requires
        old(reader)@.tokens.len() >= 1,
    ensures
        final(reader)@ == spec_parse_enum_value(old(reader)@).0,
        result_view(res) == spec_parse_enum_value(old(reader)@).1,
{
    match lead_at(reader, 0) {
        Some(Lead::Keyword) => match parse_primitive(reader) {
            Ok(p) => Ok(EnumType::Primitive(p)),
            Err(e) => Err(e),
        },
        Some(Lead::Identifier) => match parse_custom(reader) {
            Ok(c) => Ok(EnumType::Custom(c)),
            Err(e) => Err(e),
        },
        _ => {
            let token = take_token(reader);
            match token {
                Token::Literal(literal) => Ok(EnumType::Literal(literal.literal_type)),
                other => Err(
                    ParseError {
                        start: other.start(),
                        end: other.end(),
                        message: text("Expected literal token"),
                    },
                ),
            }
        },
    }
}

fn parse_enum_type(reader: &mut TokenReader) -> (res: Result<Vec<EnumType>, ParseError>)
    ensures
        final(reader)@ == enum_values_from(old(reader)@, Seq::empty()).0,
        match (res, enum_values_from(old(reader)@, Seq::empty()).1) {
            (Ok(values), Ok(vs)) => enum_views(values@) == vs,
            (Err(e), Err(ev)) => e@ == ev,
            _ => false,
        },
{
    let mut values: Vec<EnumType> = Vec::new();
    assert(enum_views(values@) =~= Seq::<EnumTypeView>::empty());
    loop
        invariant
            enum_values_from(reader@, enum_views(values@)) == enum_values_from(
                old(reader)@,
                Seq::empty(),
            ),
        decreases reader@.tokens.len(),
    {
        if reader.is_done() {
            return Err(
                ParseError {
                    start: *reader.last_token_code_start(),
                    end: *reader.last_token_code_end(),
                    message: text("Expected a literal for this enum type"),
                },
            );
        }
        proof {
            lemma_enum_value_consumes(reader@);
        }
        let value = match parse_enum_value(reader) {
            Ok(value) => value,
            Err(e) => {
                return Err(e);
            },
        };
        let ghost before = values@;
        values.push(value);
        assert(enum_views(values@) =~= enum_views(before).push(values@.last()@));
        match lead_at(reader, 0) {
            Some(Lead::Operator(OperatorType::Pipe)) => {
                let _ = reader.consume(1);
            },
            _ => {
                return Ok(values);
            },
        }
    }
}

/// Parses the type of a parameter, field or return value.
pub fn parse_field_type(reader: &mut TokenReader) -> (res: Result<Type, ParseError>)
    ensures
        final(reader)@ == spec_parse_field_type(old(reader)@).0,
        result_view(res) == spec_parse_field_type(old(reader)@).1,
{
    match lead_at(reader, 0) {
        Some(Lead::Keyword) => match parse_primitive(reader) {
            Ok(p) => Ok(Type::Primitive(p)),
            Err(e) => Err(e),
        },
        Some(Lead::Literal) => match parse_enum_type(reader) {
            Ok(values) => Ok(Type::Enum(Enum { values })),
            Err(e) => Err(e),
        },
        Some(Lead::Identifier) => match parse_custom(reader) {
            Ok(c) => Ok(Type::Custom(c)),
            Err(e) => Err(e),
        },
        _ => Err(
            ParseError {
                start: *reader.last_token_code_start(),
                end: *reader.last_token_code_end(),
                message: text("Expected a parameter type"),
            },
        ),
    }
}

/// The text of the identifier at `index`, if the token there is one.
pub(crate) fn identifier_at(reader: &TokenReader, index: usize) -> (res: Option<String>)
    requires
        index < usize::MAX,
    ensures
        index + 1 <= reader@.tokens.len() && reader@.tokens[index as int] is Identifier ==> (res matches Some(c)
            && c@ == reader@.tokens[index as int]->Identifier_content),
        !(index + 1 <= reader@.tokens.len() && reader@.tokens[index as int] is Identifier) ==> res is None,
{
    match reader.peek(index + 1) {
        None => None,
        Some(p) => {
            proof {
                lemma_token_views(p@);
                assert(token_views(p@)[index as int] == reader@.tokens.take(index + 1)[index as int]);
            }
            match &p[index] {
                Token::Identifier(id) => Some(id.content.clone()),
                _ => None,
            }
        },
    }
}

/// The text of the documentational comment at `index`, if the token there is one.
pub(crate) fn documentation_at(reader: &TokenReader, index: usize) -> (res: Option<String>)
    requires
        index < usize::MAX,
    ensures
        index + 1 <= reader@.tokens.len() && reader@.tokens[index as int] is DocumentationalComment
            ==> (res matches Some(c) && c@ == reader@.tokens[index as int]->DocumentationalComment_content),
        !(index + 1 <= reader@.tokens.len() && reader@.tokens[index as int] is DocumentationalComment)
            ==> res is None,
{
    match reader.peek(index + 1) {
        None => None,
        Some(p) => {
            proof {
                lemma_token_views(p@);
                assert(token_views(p@)[index as int] == reader@.tokens.take(index + 1)[index as int]);
            }
            match &p[index] {
                Token::DocumentationalComment(doc) => Some(doc.content.clone()),
                _ => None,
            }
        },
    }
}

/// Where the token at `index` starts and ends.
pub(crate) fn bounds_at(reader: &TokenReader, index: usize) -> (res: (CodePosition, CodePosition))
    requires
        index < reader@.tokens.len(),
    ensures
        res.0 == reader@.tokens[index as int].start(),
        res.1 == reader@.tokens[index as int].end(),
{
    let _ = reader.remaining();
    let p = reader.peek(index + 1).unwrap();
    proof {
        lemma_token_views(p@);
        assert(token_views(p@)[index as int] == reader@.tokens.take(index + 1)[index as int]);
    }
    (p[index].start(), p[index].end())
}

} // verus!
